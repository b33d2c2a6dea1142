use vstd::prelude::*;
use crate::entry::Entry;
use crate::entry::EntryPair;

verus! {

/// What `removal_notice` renders for one deletion attempt.
pub open spec fn removal_notice_spec(e: Entry) -> Seq<char> {
    ("removing file ")@ + e.file_path@
}

/// The line announcing one deletion attempt.
pub fn removal_notice(e: &Entry) -> (r: String)
    ensures
        r@ == removal_notice_spec(*e),
{
    let mut s = String::from_str("removing file ");
    s.append(e.file_path.as_str());
    s
}

/// Removal mode deletes the second record of every confirmed pair and never
/// the first: the files to delete are exactly the `entry_b` components, one
/// per pair, in order. Whoever runs the scan performs the deletions; a
/// failed deletion is reported and does not stop the remaining ones.
pub fn removal_targets(dupes: &Vec<EntryPair>) -> (r: Vec<Entry>)
    ensures
        r@.len() == dupes@.len(),
        forall|i: int| 0 <= i < dupes@.len() ==> r@[i] == dupes@[i].entry_b,
{
    let mut out: Vec<Entry> = Vec::new();
    let n = dupes.len();
    let mut i: usize = 0;
    while i < n
        invariant
            n == dupes@.len(),
            i <= n,
            out@.len() == i,
            forall|k: int| 0 <= k < i ==> out@[k] == dupes@[k].entry_b,
        decreases n - i,
    {
        out.push(dupes[i].entry_b.clone());
        i += 1;
    }
    out
}

} // verus!
