use vstd::prelude::*;
use crate::entry::Entry;

verus! {

/// A record together with the full byte content of its file, as read by the
/// caller. The verified pipeline never touches the filesystem itself: whoever
/// runs a scan reads each file and hands the bytes in alongside the record.
#[derive(Debug)]
pub struct LoadedEntry {
    pub entry: Entry,
    pub content: Vec<u8>,
}

pub fn make_loaded_entry(e: Entry, content: Vec<u8>) -> (l: LoadedEntry)
    ensures
        l == (LoadedEntry { entry: e, content }),
{
    LoadedEntry { entry: e, content }
}

/// When two records with the given byte contents count as duplicates: both
/// sizes agree and are nonzero, and the contents are byte-identical.
/// A size of zero never matches, not even another empty file.
pub open spec fn spec_equal_content(a: Entry, b: Entry, ab: Seq<u8>, bb: Seq<u8>) -> bool {
    &&& a.file_size != 0
    &&& a.file_size == b.file_size
    &&& ab == bb
}

/// Full byte-for-byte comparison of two files' contents, with the zero-size
/// and size-mismatch short cuts applied first.
pub fn equal_content(a: &Entry, b: &Entry, a_bytes: &Vec<u8>, b_bytes: &Vec<u8>) -> (r: bool)
    ensures
        r == spec_equal_content(*a, *b, a_bytes@, b_bytes@),
{
    if a.file_size == 0 {
        return false;
    }
    if a.file_size != b.file_size {
        return false;
    }
    if a_bytes.len() != b_bytes.len() {
        return false;
    }
    let n = a_bytes.len();
    let mut i: usize = 0;
    while i < n
        invariant
            n == a_bytes@.len(),
            n == b_bytes@.len(),
            i <= n,
            forall|k: int| 0 <= k < i ==> a_bytes@[k] == b_bytes@[k],
        decreases n - i,
    {
        if a_bytes[i] != b_bytes[i] {
            return false;
        }
        i += 1;
    }
    proof {
        assert(a_bytes@ =~= b_bytes@);
    }
    true
}

/// A confirmed match always joins two records of equal nonzero size with
/// byte-identical contents; in particular no zero-size file is ever part of
/// one, and files whose bytes differ anywhere never are.
pub proof fn lemma_equal_content_sound(a: Entry, b: Entry, ab: Seq<u8>, bb: Seq<u8>)
    requires
        spec_equal_content(a, b, ab, bb),
    ensures
        a.file_size != 0,
        b.file_size != 0,
        a.file_size == b.file_size,
        ab == bb,
{
}

} // verus!
