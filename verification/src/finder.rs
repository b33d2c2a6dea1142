use vstd::prelude::*;
use vstd::multiset::Multiset;
use crate::content::LoadedEntry;
use crate::content::spec_equal_content;
use crate::entry::Entry;
use crate::entry::EntryPair;

verus! {

/// A value the size-bucketing phase can order: anything that carries a file
/// size. Both bare records and records loaded with their contents do.
pub trait SizeKeyed: Sized {
    spec fn size_key(&self) -> u64;

    fn key(&self) -> (k: u64)
        ensures
            k == self.size_key(),
    ;
}

impl SizeKeyed for Entry {
    open spec fn size_key(&self) -> u64 {
        self.file_size
    }

    fn key(&self) -> (k: u64)
        ensures
            k == self.size_key(),
    {
        self.file_size
    }
}

impl SizeKeyed for LoadedEntry {
    open spec fn size_key(&self) -> u64 {
        self.entry.file_size
    }

    fn key(&self) -> (k: u64)
        ensures
            k == self.size_key(),
    {
        self.entry.file_size
    }
}

/// Ascending order of file size. Ties may stand in any order.
pub open spec fn sorted_by_size<T: SizeKeyed>(s: Seq<T>) -> bool {
    forall|i: int, j: int|
        0 <= i < j < s.len() ==> #[trigger] s[i].size_key() <= #[trigger] s[j].size_key()
}

/// Selection sort by file size. The result is ordered and holds exactly the
/// input's elements, with multiplicity.
pub fn sort_by_size<T: SizeKeyed>(input: Vec<T>) -> (r: Vec<T>)
    ensures
        sorted_by_size(r@),
        r@.to_multiset() == input@.to_multiset(),
{
    let mut rest = input;
    let mut out: Vec<T> = Vec::new();
    proof {
        broadcast use vstd::multiset::group_multiset_axioms;

        out@.to_multiset_ensures();
        assert(out@.to_multiset() =~= Multiset::empty());
        assert(out@.to_multiset().add(rest@.to_multiset()) =~= rest@.to_multiset());
    }
    while rest.len() > 0
        invariant
            sorted_by_size(out@),
            forall|i: int, j: int|
                0 <= i < out@.len() && 0 <= j < rest@.len() ==> #[trigger] out@[i].size_key()
                    <= #[trigger] rest@[j].size_key(),
            out@.to_multiset().add(rest@.to_multiset()) == input@.to_multiset(),
        decreases rest@.len(),
    {
        let ghost old_out = out@;
        let ghost old_rest = rest@;
        let mut m: usize = 0;
        let mut j: usize = 1;
        while j < rest.len()
            invariant
                rest@.len() > 0,
                m < j,
                j <= rest@.len(),
                forall|i: int|
                    0 <= i < j ==> rest@[m as int].size_key() <= #[trigger] rest@[i].size_key(),
            decreases rest@.len() - j,
        {
            if rest[j].key() < rest[m].key() {
                m = j;
            }
            j += 1;
        }
        let x = rest.remove(m);
        out.push(x);
        proof {
            broadcast use vstd::multiset::group_multiset_axioms;

            vstd::seq_lib::to_multiset_remove(old_rest, m as int);
            vstd::seq_lib::to_multiset_build(old_out, old_rest[m as int]);
            old_rest.to_multiset_ensures();
            assert(old_rest.contains(old_rest[m as int]));
            assert(old_rest.to_multiset().count(old_rest[m as int]) > 0);
            assert(out@.to_multiset().add(rest@.to_multiset()) =~= input@.to_multiset());
            assert forall|i: int, jj: int|
                0 <= i < out@.len() && 0 <= jj < rest@.len() implies #[trigger] out@[i].size_key()
                <= #[trigger] rest@[jj].size_key() by {
                assert(rest@[jj] == old_rest.remove(m as int)[jj]);
                if jj < m {
                    assert(rest@[jj] == old_rest[jj]);
                } else {
                    assert(rest@[jj] == old_rest[jj + 1]);
                }
                if i < old_out.len() {
                    assert(out@[i] == old_out[i]);
                } else {
                    assert(out@[i] == old_rest[m as int]);
                }
            }
        }
    }
    proof {
        broadcast use vstd::multiset::group_multiset_axioms;

        rest@.to_multiset_ensures();
        assert(rest@.to_multiset() =~= Multiset::empty());
        assert(out@.to_multiset() =~= out@.to_multiset().add(rest@.to_multiset()));
    }
    out
}

/// The candidate pairs an adjacency scan emits: one pair for every index
/// whose record shares its size with the record just before it.
pub open spec fn adjacent_pairs(s: Seq<Entry>) -> Seq<EntryPair>
    decreases s.len(),
{
    if s.len() < 2 {
        Seq::empty()
    } else {
        adjacent_pairs(s.drop_last()) + if s[s.len() - 2].file_size == s[s.len()
            - 1].file_size {
            seq![EntryPair { entry_a: s[s.len() - 2], entry_b: s[s.len() - 1] }]
        } else {
            Seq::empty()
        }
    }
}

/// Whether two loaded records are confirmed duplicates of one another.
pub open spec fn loaded_match(x: LoadedEntry, y: LoadedEntry) -> bool {
    spec_equal_content(x.entry, y.entry, x.content@, y.content@)
}

/// The confirmed pairs an adjacency scan over loaded records emits: one pair
/// for every index whose record matches the record just before it in size
/// and, nonzero, in content.
pub open spec fn confirmed_adjacent(s: Seq<LoadedEntry>) -> Seq<EntryPair>
    decreases s.len(),
{
    if s.len() < 2 {
        Seq::empty()
    } else {
        confirmed_adjacent(s.drop_last()) + if loaded_match(s[s.len() - 2], s[s.len() - 1]) {
            seq![EntryPair { entry_a: s[s.len() - 2].entry, entry_b: s[s.len() - 1].entry }]
        } else {
            Seq::empty()
        }
    }
}

/// What the size-bucketing phase computes from an unordered catalog: the
/// adjacency scan of some size-sorted arrangement of the input. Ties in
/// size may stand in either order, so the arrangement is existential.
pub open spec fn finds_candidates(input: Seq<Entry>, output: Seq<EntryPair>) -> bool {
    exists|s: Seq<Entry>|
        sorted_by_size(s) && s.to_multiset() == input.to_multiset() && output == #[trigger] adjacent_pairs(s)
}

/// What the whole duplicate-detection pipeline computes from an unordered
/// catalog of loaded records.
pub open spec fn finds_duplicates(input: Seq<LoadedEntry>, output: Seq<EntryPair>) -> bool {
    exists|s: Seq<LoadedEntry>|
        sorted_by_size(s) && s.to_multiset() == input.to_multiset() && output
            == #[trigger] confirmed_adjacent(s)
}

/// Size-bucketing: sorts the records by size and pairs every record with
/// its predecessor when the two sizes agree. A run of k same-sized records
/// yields k - 1 overlapping pairs, not an all-pairs cross product.
pub fn candidate_pairs(unsorted: Vec<Entry>) -> (r: Vec<EntryPair>)
    ensures
        finds_candidates(unsorted@, r@),
{
    let ghost input = unsorted@;
    let sorted = sort_by_size(unsorted);
    let ghost s = sorted@;
    let mut out: Vec<EntryPair> = Vec::new();
    let n = sorted.len();
    if n < 2 {
        proof {
            assert(adjacent_pairs(s) =~= Seq::empty());
            assert(out@ == adjacent_pairs(s));
        }
        return out;
    }
    let mut i: usize = 1;
    while i < n
        invariant
            n == s.len(),
            2 <= n,
            1 <= i <= n,
            sorted@ == s,
            out@ == adjacent_pairs(s.take(i as int)),
        decreases n - i,
    {
        if sorted[i - 1].file_size == sorted[i].file_size {
            let pair = EntryPair { entry_a: sorted[i - 1].clone(), entry_b: sorted[i].clone() };
            out.push(pair);
        }
        proof {
            assert(s.take(i + 1).drop_last() =~= s.take(i as int));
            assert(s.take(i + 1)[i - 1] == s[i - 1]);
            assert(s.take(i + 1)[i as int] == s[i as int]);
            assert(out@ =~= adjacent_pairs(s.take(i + 1)));
        }
        i += 1;
    }
    proof {
        assert(s.take(n as int) =~= s);
        assert(out@ == adjacent_pairs(s));
    }
    out
}

/// The whole pipeline over records loaded with their file contents: sorts
/// by size, scans adjacently, and keeps exactly the pairs whose contents
/// were confirmed byte-identical (zero-size records never match).
pub fn duplicate_file(unsorted_entries: Vec<LoadedEntry>) -> (dupes: Vec<EntryPair>)
    ensures
        finds_duplicates(unsorted_entries@, dupes@),
{
    let ghost input = unsorted_entries@;
    let sorted = sort_by_size(unsorted_entries);
    let ghost s = sorted@;
    let mut dupes: Vec<EntryPair> = Vec::new();
    let n = sorted.len();
    if n < 2 {
        proof {
            assert(confirmed_adjacent(s) =~= Seq::empty());
            assert(dupes@ == confirmed_adjacent(s));
        }
        return dupes;
    }
    let mut i: usize = 1;
    while i < n
        invariant
            n == s.len(),
            2 <= n,
            1 <= i <= n,
            sorted@ == s,
            dupes@ == confirmed_adjacent(s.take(i as int)),
        decreases n - i,
    {
        let prev = &sorted[i - 1];
        let cur = &sorted[i];
        if prev.entry.file_size == cur.entry.file_size {
            if crate::content::equal_content(&prev.entry, &cur.entry, &prev.content, &cur.content) {
                let pair = EntryPair { entry_a: prev.entry.clone(), entry_b: cur.entry.clone() };
                dupes.push(pair);
            }
        }
        proof {
            assert(s.take(i + 1).drop_last() =~= s.take(i as int));
            assert(s.take(i + 1)[i - 1] == s[i - 1]);
            assert(s.take(i + 1)[i as int] == s[i as int]);
            assert(dupes@ =~= confirmed_adjacent(s.take(i + 1)));
        }
        i += 1;
    }
    proof {
        assert(s.take(n as int) =~= s);
        assert(dupes@ == confirmed_adjacent(s));
    }
    dupes
}

/// The adjacency scan pairs a run of k same-sized records into exactly
/// k - 1 overlapping candidate pairs: when every record of a sequence has
/// the same size, one pair is emitted per adjacent boundary.
pub proof fn lemma_equal_size_run(s: Seq<Entry>, sz: u64)
    requires
        s.len() >= 1,
        forall|i: int| 0 <= i < s.len() ==> #[trigger] s[i].file_size == sz,
    ensures
        adjacent_pairs(s).len() == s.len() - 1,
    decreases s.len(),
{
    if s.len() == 1 {
    } else {
        assert(forall|i: int|
            0 <= i < s.drop_last().len() ==> #[trigger] s.drop_last()[i].file_size == sz);
        lemma_equal_size_run(s.drop_last(), sz);
        assert(s[s.len() - 2].file_size == s[s.len() - 1].file_size);
    }
}

/// A pair stands among the candidates exactly when some record shares its
/// size with the record just before it and the pair joins those two.
pub proof fn lemma_adjacent_pairs_iff(s: Seq<Entry>, p: EntryPair)
    ensures
        adjacent_pairs(s).contains(p) <==> exists|i: int|
            1 <= i < s.len() && (#[trigger] s[i - 1].file_size) == s[i].file_size && p
                == (EntryPair { entry_a: s[i - 1], entry_b: s[i] }),
    decreases s.len(),
{
    broadcast use vstd::seq_lib::lemma_seq_concat_contains_all_elements;

    if s.len() < 2 {
        assert(!adjacent_pairs(s).contains(p));
    } else {
        lemma_adjacent_pairs_iff(s.drop_last(), p);
        let last = s.len() - 1;
        if adjacent_pairs(s).contains(p) {
            if adjacent_pairs(s.drop_last()).contains(p) {
                let i = choose|i: int|
                    1 <= i < s.drop_last().len() && (#[trigger] s.drop_last()[i
                        - 1].file_size) == s.drop_last()[i].file_size && p == (EntryPair {
                        entry_a: s.drop_last()[i - 1],
                        entry_b: s.drop_last()[i],
                    });
                assert(s[i - 1] == s.drop_last()[i - 1] && s[i] == s.drop_last()[i]);
            } else {
                assert(s[last - 1].file_size == s[last].file_size && p == (EntryPair {
                    entry_a: s[last - 1],
                    entry_b: s[last],
                }));
            }
        }
        if exists|i: int|
            1 <= i < s.len() && (#[trigger] s[i - 1].file_size) == s[i].file_size && p
                == (EntryPair { entry_a: s[i - 1], entry_b: s[i] }) {
            let i = choose|i: int|
                1 <= i < s.len() && (#[trigger] s[i - 1].file_size) == s[i].file_size && p
                    == (EntryPair { entry_a: s[i - 1], entry_b: s[i] });
            if i < last {
                assert(s.drop_last()[i - 1] == s[i - 1] && s.drop_last()[i] == s[i]);
                assert(adjacent_pairs(s.drop_last()).contains(p));
            } else {
                assert(adjacent_pairs(s)[adjacent_pairs(s).len() - 1] == p);
                assert(adjacent_pairs(s).contains(p));
            }
        }
    }
}

/// A pair stands among the confirmed duplicates exactly when some loaded
/// record matches the one just before it and the pair joins their records.
pub proof fn lemma_confirmed_adjacent_iff(s: Seq<LoadedEntry>, p: EntryPair)
    ensures
        confirmed_adjacent(s).contains(p) <==> exists|i: int|
            1 <= i < s.len() && #[trigger] loaded_match(s[i - 1], s[i]) && p == (EntryPair {
                entry_a: s[i - 1].entry,
                entry_b: s[i].entry,
            }),
    decreases s.len(),
{
    broadcast use vstd::seq_lib::lemma_seq_concat_contains_all_elements;

    if s.len() < 2 {
        assert(!confirmed_adjacent(s).contains(p));
    } else {
        lemma_confirmed_adjacent_iff(s.drop_last(), p);
        let last = s.len() - 1;
        if confirmed_adjacent(s).contains(p) {
            if confirmed_adjacent(s.drop_last()).contains(p) {
                let i = choose|i: int|
                    1 <= i < s.drop_last().len() && #[trigger] loaded_match(
                        s.drop_last()[i - 1],
                        s.drop_last()[i],
                    ) && p == (EntryPair {
                        entry_a: s.drop_last()[i - 1].entry,
                        entry_b: s.drop_last()[i].entry,
                    });
                assert(s[i - 1] == s.drop_last()[i - 1] && s[i] == s.drop_last()[i]);
                assert(loaded_match(s[i - 1], s[i]));
            } else {
                assert(loaded_match(s[last - 1], s[last]) && p == (EntryPair {
                    entry_a: s[last - 1].entry,
                    entry_b: s[last].entry,
                }));
            }
        }
        if exists|i: int|
            1 <= i < s.len() && #[trigger] loaded_match(s[i - 1], s[i]) && p == (EntryPair {
                entry_a: s[i - 1].entry,
                entry_b: s[i].entry,
            }) {
            let i = choose|i: int|
                1 <= i < s.len() && #[trigger] loaded_match(s[i - 1], s[i]) && p == (EntryPair {
                    entry_a: s[i - 1].entry,
                    entry_b: s[i].entry,
                });
            if i < last {
                assert(s.drop_last()[i - 1] == s[i - 1] && s.drop_last()[i] == s[i]);
                assert(loaded_match(s.drop_last()[i - 1], s.drop_last()[i]));
                assert(confirmed_adjacent(s.drop_last()).contains(p));
            } else {
                assert(confirmed_adjacent(s)[confirmed_adjacent(s).len() - 1] == p);
                assert(confirmed_adjacent(s).contains(p));
            }
        }
    }
}

/// Soundness of every reported duplicate: the two records have equal,
/// nonzero sizes and come from adjacent loaded records whose bytes were
/// identical. In particular a zero-size file never appears in a confirmed
/// pair, and two files whose contents differ anywhere are never reported.
pub proof fn lemma_confirmed_pairs_sound(s: Seq<LoadedEntry>, p: EntryPair)
    requires
        confirmed_adjacent(s).contains(p),
    ensures
        p.entry_a.file_size != 0,
        p.entry_b.file_size != 0,
        p.entry_a.file_size == p.entry_b.file_size,
        exists|i: int|
            1 <= i < s.len() && #[trigger] loaded_match(s[i - 1], s[i]) && s[i - 1].entry
                == p.entry_a && s[i].entry == p.entry_b && s[i - 1].content@ == s[i].content@,
{
    lemma_confirmed_adjacent_iff(s, p);
    let i = choose|i: int|
        1 <= i < s.len() && #[trigger] loaded_match(s[i - 1], s[i]) && p == (EntryPair {
            entry_a: s[i - 1].entry,
            entry_b: s[i].entry,
        });
    assert(loaded_match(s[i - 1], s[i]) && s[i - 1].entry == p.entry_a && s[i].entry
        == p.entry_b && s[i - 1].content@ == s[i].content@);
}

/// Completeness: every adjacent pair of loaded records with equal nonzero
/// size and identical bytes is reported.
pub proof fn lemma_confirmed_pairs_complete(s: Seq<LoadedEntry>, i: int)
    requires
        1 <= i < s.len(),
        loaded_match(s[i - 1], s[i]),
    ensures
        confirmed_adjacent(s).contains(
            EntryPair { entry_a: s[i - 1].entry, entry_b: s[i].entry },
        ),
{
    let p = EntryPair { entry_a: s[i - 1].entry, entry_b: s[i].entry };
    lemma_confirmed_adjacent_iff(s, p);
}

/// The run law at the public function's contract: when every record of a
/// nonempty catalog has the same size, size-bucketing emits exactly one
/// candidate pair fewer than there are records, whatever order the sort
/// put the ties in.
pub proof fn lemma_uniform_catalog_candidates(input: Seq<Entry>, output: Seq<EntryPair>, sz: u64)
    requires
        input.len() >= 1,
        forall|i: int| 0 <= i < input.len() ==> #[trigger] input[i].file_size == sz,
        finds_candidates(input, output),
    ensures
        output.len() == input.len() - 1,
{
    let s = choose|s: Seq<Entry>|
        sorted_by_size(s) && s.to_multiset() == input.to_multiset() && output
            == #[trigger] adjacent_pairs(s);
    s.to_multiset_ensures();
    input.to_multiset_ensures();
    assert(s.len() == input.len());
    assert forall|i: int| 0 <= i < s.len() implies #[trigger] s[i].file_size == sz by {
        assert(s.contains(s[i]));
        assert(s.to_multiset().count(s[i]) > 0);
        assert(input.contains(s[i]));
    }
    lemma_equal_size_run(s, sz);
}

/// Soundness at the public function's contract: every pair the pipeline
/// reports joins two records of the input whose sizes agree and are
/// nonzero and whose file contents were byte-identical. A zero-size file
/// is never reported, nor are two files whose bytes differ anywhere.
pub proof fn lemma_duplicates_sound(input: Seq<LoadedEntry>, output: Seq<EntryPair>, p: EntryPair)
    requires
        finds_duplicates(input, output),
        output.contains(p),
    ensures
        p.entry_a.file_size != 0,
        p.entry_b.file_size != 0,
        p.entry_a.file_size == p.entry_b.file_size,
        exists|x: LoadedEntry, y: LoadedEntry|
            input.contains(x) && input.contains(y) && x.entry == p.entry_a && y.entry == p.entry_b
                && #[trigger] loaded_match(x, y),
{
    let s = choose|s: Seq<LoadedEntry>|
        sorted_by_size(s) && s.to_multiset() == input.to_multiset() && output
            == #[trigger] confirmed_adjacent(s);
    lemma_confirmed_pairs_sound(s, p);
    let i = choose|i: int|
        1 <= i < s.len() && #[trigger] loaded_match(s[i - 1], s[i]) && s[i - 1].entry == p.entry_a
            && s[i].entry == p.entry_b && s[i - 1].content@ == s[i].content@;
    s.to_multiset_ensures();
    input.to_multiset_ensures();
    assert(s.contains(s[i - 1]) && s.contains(s[i]));
    assert(s.to_multiset().count(s[i - 1]) > 0 && s.to_multiset().count(s[i]) > 0);
    assert(input.contains(s[i - 1]) && input.contains(s[i]));
    assert(input.contains(s[i - 1]) && input.contains(s[i]) && s[i - 1].entry == p.entry_a
        && s[i].entry == p.entry_b && loaded_match(s[i - 1], s[i]));
}

/// How many adjacent matches a sequence of loaded records holds.
pub open spec fn confirmed_count(s: Seq<LoadedEntry>) -> nat
    decreases s.len(),
{
    if s.len() < 2 {
        0
    } else {
        confirmed_count(s.drop_last()) + if loaded_match(s[s.len() - 2], s[s.len() - 1]) {
            1nat
        } else {
            0
        }
    }
}

/// Each confirmed adjacency is reported exactly once: the list of reported
/// pairs has one element per adjacent match.
pub proof fn lemma_one_pair_per_adjacency(s: Seq<LoadedEntry>)
    ensures
        confirmed_adjacent(s).len() == confirmed_count(s),
    decreases s.len(),
{
    if s.len() < 2 {
    } else {
        lemma_one_pair_per_adjacency(s.drop_last());
    }
}

} // verus!
