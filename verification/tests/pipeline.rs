use dupes::catalog::{build_catalog, is_hidden_name, FileMeta, RawEntry};
use dupes::content::{equal_content, make_loaded_entry, LoadedEntry};
use dupes::entry::{make_entry, make_entry_pair, Entry};
use dupes::finder::{candidate_pairs, duplicate_file, sort_by_size};
use dupes::removal::{removal_notice, removal_targets};

fn entry(path: &str, size: u64) -> Entry {
    make_entry(path.to_string(), size, 0)
}

fn loaded(path: &str, size: u64, content: &[u8]) -> LoadedEntry {
    make_loaded_entry(entry(path, size), content.to_vec())
}

#[test]
fn make_entry_fields() {
    let e = make_entry("dir/file.txt".to_string(), 42, 7);
    assert_eq!(e.file_path, "dir/file.txt");
    assert_eq!(e.file_size, 42);
    assert_eq!(e.modified_time, 7);
}

#[test]
fn make_entry_pair_fields() {
    let p = make_entry_pair(entry("a", 1), entry("b", 1));
    assert_eq!(p.entry_a.file_path, "a");
    assert_eq!(p.entry_b.file_path, "b");
}

#[test]
fn show_entry_pads_size_to_twenty_columns() {
    let e = entry("src/main.rs", 12345);
    assert_eq!(e.show(), format!("{:20} {}", 12345u64, "src/main.rs"));
}

#[test]
fn show_entry_small_and_large_sizes() {
    let e = entry("x", 0);
    assert_eq!(e.show(), format!("{:20} {}", 0u64, "x"));
    let e = entry("y", u64::MAX);
    assert_eq!(e.show(), format!("{:20} {}", u64::MAX, "y"));
}

#[test]
fn show_pair_is_two_lines() {
    let p = make_entry_pair(entry("a.txt", 5), entry("b.txt", 5));
    assert_eq!(p.show(), "a.txt\nb.txt\n");
}

#[test]
fn sort_orders_by_size() {
    let v = vec![entry("c", 30), entry("a", 10), entry("b", 20)];
    let s = sort_by_size(v);
    let sizes: Vec<u64> = s.iter().map(|e| e.file_size).collect();
    assert_eq!(sizes, vec![10, 20, 30]);
}

#[test]
fn equal_content_zero_size_never_matches() {
    let a = entry("empty1", 0);
    let b = entry("empty2", 0);
    assert!(!equal_content(&a, &b, &Vec::new(), &Vec::new()));
}

#[test]
fn equal_content_different_sizes_never_match() {
    let a = entry("a", 3);
    let b = entry("b", 4);
    assert!(!equal_content(&a, &b, &b"abc".to_vec(), &b"abcd".to_vec()));
}

#[test]
fn equal_content_identical_bytes_match() {
    let a = entry("a", 5);
    let b = entry("b", 5);
    assert!(equal_content(&a, &b, &b"hello".to_vec(), &b"hello".to_vec()));
}

#[test]
fn equal_content_detects_any_differing_byte() {
    let a = entry("a", 5);
    let b = entry("b", 5);
    assert!(!equal_content(&a, &b, &b"hello".to_vec(), &b"hellx".to_vec()));
    assert!(!equal_content(&a, &b, &b"hello".to_vec(), &b"xello".to_vec()));
}

#[test]
fn run_of_equal_sizes_yields_one_pair_per_boundary() {
    let v = vec![entry("a", 7), entry("b", 7), entry("c", 7), entry("d", 7)];
    let cands = candidate_pairs(v);
    assert_eq!(cands.len(), 3);
}

#[test]
fn distinct_sizes_yield_no_candidates() {
    let v = vec![entry("a", 1), entry("b", 2), entry("c", 3)];
    let cands = candidate_pairs(v);
    assert_eq!(cands.len(), 0);
}

#[test]
fn candidates_pair_adjacent_sizes() {
    let v = vec![entry("big", 9), entry("a", 5), entry("b", 5)];
    let cands = candidate_pairs(v);
    assert_eq!(cands.len(), 1);
    assert_eq!(cands[0].entry_a.file_path, "a");
    assert_eq!(cands[0].entry_b.file_path, "b");
}

#[test]
fn same_size_same_content_reported_once() {
    let v = vec![loaded("a", 5, b"hello"), loaded("b", 5, b"hello")];
    let dupes = duplicate_file(v);
    assert_eq!(dupes.len(), 1);
    assert_eq!(dupes[0].entry_a.file_path, "a");
    assert_eq!(dupes[0].entry_b.file_path, "b");
}

#[test]
fn same_size_differing_content_not_reported() {
    let v = vec![loaded("a", 5, b"hello"), loaded("b", 5, b"world")];
    let dupes = duplicate_file(v);
    assert_eq!(dupes.len(), 0);
}

#[test]
fn empty_files_are_never_duplicates() {
    let v = vec![loaded("empty1", 0, b""), loaded("empty2", 0, b"")];
    let dupes = duplicate_file(v);
    assert_eq!(dupes.len(), 0);
}

#[test]
fn three_identical_files_give_two_adjacent_pairs() {
    let v = vec![loaded("a", 100, &[7u8; 100]), loaded("b", 100, &[7u8; 100]), loaded(
        "c",
        100,
        &[7u8; 100],
    )];
    let dupes = duplicate_file(v);
    assert_eq!(dupes.len(), 2);
    assert_eq!(dupes[0].entry_a.file_path, "a");
    assert_eq!(dupes[0].entry_b.file_path, "b");
    assert_eq!(dupes[1].entry_a.file_path, "b");
    assert_eq!(dupes[1].entry_b.file_path, "c");
}

#[test]
fn mixed_directory_scenario() {
    // a.txt and b.txt share size and content; c.txt shares only the size.
    let v = vec![loaded("a.txt", 5, b"hello"), loaded("b.txt", 5, b"hello"), loaded(
        "c.txt",
        5,
        b"world",
    )];
    let dupes = duplicate_file(v);
    assert_eq!(dupes.len(), 1);
    assert_eq!(dupes[0].entry_a.file_path, "a.txt");
    assert_eq!(dupes[0].entry_b.file_path, "b.txt");
}

#[test]
fn removal_targets_are_exactly_the_second_entries() {
    let pairs = vec![
        make_entry_pair(entry("keep1", 5), entry("drop1", 5)),
        make_entry_pair(entry("keep2", 9), entry("drop2", 9)),
    ];
    let targets = removal_targets(&pairs);
    let paths: Vec<&str> = targets.iter().map(|e| e.file_path.as_str()).collect();
    assert_eq!(paths, vec!["drop1", "drop2"]);
    // The first element of each pair is never a target.
    assert!(!paths.contains(&"keep1"));
    assert!(!paths.contains(&"keep2"));
}

#[test]
fn removal_notice_names_the_file() {
    let e = entry("dir/extra.bin", 9);
    assert_eq!(removal_notice(&e), "removing file dir/extra.bin");
}

fn raw(path: &str, name: &str, is_file: bool, meta: Option<(u64, u64)>) -> RawEntry {
    RawEntry {
        path: path.to_string(),
        name: name.to_string(),
        is_file,
        meta: meta.map(|(size, modified)| FileMeta { size, modified }),
    }
}

#[test]
fn hidden_names_start_with_a_dot() {
    assert!(is_hidden_name(&".hidden".to_string()));
    assert!(!is_hidden_name(&"visible".to_string()));
    assert!(!is_hidden_name(&"".to_string()));
}

#[test]
fn catalog_skips_hidden_entries() {
    let raws = vec![
        raw("dir/a.txt", "a.txt", true, Some((5, 1))),
        raw("dir/.hidden", ".hidden", true, Some((5, 1))),
        raw("dir/b.txt", "b.txt", true, Some((5, 1))),
    ];
    let catalog = build_catalog(&raws);
    let paths: Vec<&str> = catalog.iter().map(|e| e.file_path.as_str()).collect();
    assert_eq!(paths, vec!["dir/a.txt", "dir/b.txt"]);
}

#[test]
fn catalog_skips_non_files_and_failed_metadata() {
    let raws = vec![
        raw("dir", "dir", false, Some((0, 1))),
        raw("dir/ok.txt", "ok.txt", true, Some((3, 2))),
        raw("dir/gone.txt", "gone.txt", true, None),
    ];
    let catalog = build_catalog(&raws);
    assert_eq!(catalog.len(), 1);
    assert_eq!(catalog[0].file_path, "dir/ok.txt");
    assert_eq!(catalog[0].file_size, 3);
    assert_eq!(catalog[0].modified_time, 2);
}

#[test]
fn full_pipeline_on_a_mixed_catalog() {
    let raws = vec![
        raw("d/a.txt", "a.txt", true, Some((5, 1))),
        raw("d/b.txt", "b.txt", true, Some((5, 1))),
        raw("d/c.txt", "c.txt", true, Some((5, 1))),
        raw("d/.hidden", ".hidden", true, Some((5, 1))),
    ];
    let catalog = build_catalog(&raws);
    assert_eq!(catalog.len(), 3);
    let contents: Vec<&[u8]> = vec![b"hello", b"hello", b"world"];
    let loaded_entries: Vec<LoadedEntry> = catalog
        .into_iter()
        .zip(contents)
        .map(|(e, c)| make_loaded_entry(e, c.to_vec()))
        .collect();
    let dupes = duplicate_file(loaded_entries);
    assert_eq!(dupes.len(), 1);
    assert_eq!(dupes[0].entry_a.file_path, "d/a.txt");
    assert_eq!(dupes[0].entry_b.file_path, "d/b.txt");
}
