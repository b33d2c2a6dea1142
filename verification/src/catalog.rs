use vstd::prelude::*;
use crate::entry::Entry;

verus! {

/// Size and last-modified time as one metadata lookup yields them.
#[derive(Clone, Copy, Debug)]
pub struct FileMeta {
    pub size: u64,
    pub modified: u64,
}

/// One filesystem entry as the directory walk reports it, reduced to plain
/// values: its full path, its base name, whether it is a regular file, and
/// the metadata if the lookup succeeded (`None` when it failed).
#[derive(Debug)]
pub struct RawEntry {
    pub path: String,
    pub name: String,
    pub is_file: bool,
    pub meta: Option<FileMeta>,
}

/// A base name marks a hidden entry when it starts with a dot.
pub open spec fn hidden_name(name: Seq<char>) -> bool {
    name.len() > 0 && name[0] == '.'
}

/// An entry belongs in the catalog when it is not hidden, is a regular file,
/// and its metadata could be read.
pub open spec fn eligible(r: RawEntry) -> bool {
    &&& !hidden_name(r.name@)
    &&& r.is_file
    &&& r.meta is Some
}

/// The record an eligible raw entry turns into.
pub open spec fn entry_of(r: RawEntry) -> Entry
    recommends
        r.meta is Some,
{
    Entry {
        file_path: r.path,
        file_size: r.meta->0.size,
        modified_time: r.meta->0.modified,
    }
}

/// The catalog a walk yields: the records of the eligible raw entries, in
/// walk order; hidden entries, non-files and entries whose metadata failed
/// are silently skipped.
pub open spec fn catalog_spec(rs: Seq<RawEntry>) -> Seq<Entry>
    decreases rs.len(),
{
    if rs.len() == 0 {
        Seq::empty()
    } else {
        catalog_spec(rs.drop_last()) + if eligible(rs.last()) {
            seq![entry_of(rs.last())]
        } else {
            Seq::empty()
        }
    }
}

/// True when the entry's base name starts with a dot.
pub fn is_hidden_name(name: &String) -> (r: bool)
    ensures
        r == hidden_name(name@),
{
    let s = name.as_str();
    s.unicode_len() > 0 && s.get_char(0) == '.'
}

/// Builds the catalog from the raw entries a directory walk produced,
/// keeping exactly the eligible ones.
pub fn build_catalog(raws: &Vec<RawEntry>) -> (r: Vec<Entry>)
    ensures
        r@ == catalog_spec(raws@),
{
    let mut out: Vec<Entry> = Vec::new();
    let n = raws.len();
    let mut i: usize = 0;
    while i < n
        invariant
            n == raws@.len(),
            i <= n,
            out@ == catalog_spec(raws@.take(i as int)),
        decreases n - i,
    {
        let raw = &raws[i];
        let keep: bool = !is_hidden_name(&raw.name) && raw.is_file;
        if keep {
            match &raw.meta {
                Some(m) => {
                    out.push(Entry {
                        file_path: raw.path.clone(),
                        file_size: m.size,
                        modified_time: m.modified,
                    });
                },
                None => {},
            }
        }
        proof {
            assert(raws@.take(i + 1).drop_last() =~= raws@.take(i as int));
            assert(raws@.take(i + 1).last() == raws@[i as int]);
            assert(out@ =~= catalog_spec(raws@.take(i + 1)));
        }
        i += 1;
    }
    proof {
        assert(raws@.take(n as int) =~= raws@);
    }
    out
}

/// Every record in the catalog comes from an eligible raw entry; since an
/// eligible entry is never hidden, hidden entries never appear in the
/// catalog, whatever their size or content.
pub proof fn lemma_catalog_only_eligible(rs: Seq<RawEntry>, e: Entry)
    requires
        catalog_spec(rs).contains(e),
    ensures
        exists|j: int|
            0 <= j < rs.len() && #[trigger] eligible(rs[j]) && !hidden_name(rs[j].name@) && e
                == entry_of(rs[j]),
    decreases rs.len(),
{
    if rs.len() == 0 {
    } else {
        if eligible(rs.last()) && e == entry_of(rs.last()) {
            assert(eligible(rs[rs.len() - 1]));
        } else {
            assert(catalog_spec(rs.drop_last()).contains(e));
            lemma_catalog_only_eligible(rs.drop_last(), e);
            let j = choose|j: int|
                0 <= j < rs.drop_last().len() && #[trigger] eligible(rs.drop_last()[j]) && e
                    == entry_of(rs.drop_last()[j]);
            assert(rs.drop_last()[j] == rs[j]);
            assert(eligible(rs[j]));
        }
    }
}

} // verus!
