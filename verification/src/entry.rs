use vstd::prelude::*;

verus! {

/// Metadata record for one regular file found during a scan: its path, its
/// size in bytes, and its last-modified time as seconds since the Unix epoch.
#[derive(Debug)]
pub struct Entry {
    pub file_path: String,
    pub file_size: u64,
    pub modified_time: u64,
}

impl Clone for Entry {
    fn clone(&self) -> (r: Self)
        ensures
            r == *self,
    {
        Entry {
            file_path: self.file_path.clone(),
            file_size: self.file_size,
            modified_time: self.modified_time,
        }
    }
}

/// A pair of records whose files were confirmed byte-identical.
#[derive(Debug)]
pub struct EntryPair {
    pub entry_a: Entry,
    pub entry_b: Entry,
}

impl Clone for EntryPair {
    fn clone(&self) -> (r: Self)
        ensures
            r == *self,
    {
        EntryPair { entry_a: self.entry_a.clone(), entry_b: self.entry_b.clone() }
    }
}

/// The character for one decimal digit.
pub open spec fn digit_char(d: int) -> char {
    if d == 0 {
        '0'
    } else if d == 1 {
        '1'
    } else if d == 2 {
        '2'
    } else if d == 3 {
        '3'
    } else if d == 4 {
        '4'
    } else if d == 5 {
        '5'
    } else if d == 6 {
        '6'
    } else if d == 7 {
        '7'
    } else if d == 8 {
        '8'
    } else {
        '9'
    }
}

/// The decimal digits of a number, most significant first.
pub open spec fn dec_digits(n: nat) -> Seq<char>
    decreases n,
{
    if n < 10 {
        seq![digit_char(n as int)]
    } else {
        dec_digits(n / 10).push(digit_char((n % 10) as int))
    }
}

/// A run of spaces.
pub open spec fn spaces(k: nat) -> Seq<char> {
    Seq::new(k, |i: int| ' ')
}

/// One decimal digit as a string slice.
fn digit_str(d: u64) -> (r: &'static str)
    requires
        d < 10,
    ensures
        r@ == seq![digit_char(d as int)],
{
    if d == 0 {
        proof {
            reveal_strlit("0");
            assert(("0")@ =~= seq![digit_char(0)]);
        }
        "0"
    } else if d == 1 {
        proof {
            reveal_strlit("1");
            assert(("1")@ =~= seq![digit_char(1)]);
        }
        "1"
    } else if d == 2 {
        proof {
            reveal_strlit("2");
            assert(("2")@ =~= seq![digit_char(2)]);
        }
        "2"
    } else if d == 3 {
        proof {
            reveal_strlit("3");
            assert(("3")@ =~= seq![digit_char(3)]);
        }
        "3"
    } else if d == 4 {
        proof {
            reveal_strlit("4");
            assert(("4")@ =~= seq![digit_char(4)]);
        }
        "4"
    } else if d == 5 {
        proof {
            reveal_strlit("5");
            assert(("5")@ =~= seq![digit_char(5)]);
        }
        "5"
    } else if d == 6 {
        proof {
            reveal_strlit("6");
            assert(("6")@ =~= seq![digit_char(6)]);
        }
        "6"
    } else if d == 7 {
        proof {
            reveal_strlit("7");
            assert(("7")@ =~= seq![digit_char(7)]);
        }
        "7"
    } else if d == 8 {
        proof {
            reveal_strlit("8");
            assert(("8")@ =~= seq![digit_char(8)]);
        }
        "8"
    } else {
        proof {
            reveal_strlit("9");
            assert(("9")@ =~= seq![digit_char(9)]);
        }
        "9"
    }
}

/// Renders a number in decimal.
pub fn format_u64(n: u64) -> (s: String)
    ensures
        s@ == dec_digits(n as nat),
    decreases n,
{
    if n < 10 {
        String::from_str(digit_str(n))
    } else {
        proof {
            assert(n / 10 < n) by (nonlinear_arith)
                requires
                    n >= 10,
            ;
        }
        let mut s = format_u64(n / 10);
        s.append(digit_str(n % 10));
        s
    }
}

/// What `Entry::show` renders: the size in decimal, right-aligned in a
/// field of 20 columns, a space, then the path.
pub open spec fn show_entry_spec(e: Entry) -> Seq<char> {
    let d = dec_digits(e.file_size as nat);
    let padded = if d.len() >= 20 {
        d
    } else {
        spaces((20 - d.len()) as nat) + d
    };
    padded + seq![' '] + e.file_path@
}

/// What `EntryPair::show` renders: the two paths, each on its own line.
pub open spec fn show_pair_spec(p: EntryPair) -> Seq<char> {
    p.entry_a.file_path@ + seq!['\n'] + p.entry_b.file_path@ + seq!['\n']
}

impl Entry {
    /// One report line for this record: its size padded to 20 columns,
    /// then its path.
    pub fn show(&self) -> (r: String)
        ensures
            r@ == show_entry_spec(*self),
    {
        let digits = format_u64(self.file_size);
        let dlen = digits.as_str().unicode_len();
        let mut s = String::new();
        if dlen < 20 {
            let pad = 20 - dlen;
            let mut i: usize = 0;
            while i < pad
                invariant
                    i <= pad,
                    s@ =~= spaces(i as nat),
                decreases pad - i,
            {
                s.append(" ");
                proof {
                    reveal_strlit(" ");
                    assert(s@ =~= spaces((i + 1) as nat));
                }
                i += 1;
            }
        }
        s.append(digits.as_str());
        s.append(" ");
        s.append(self.file_path.as_str());
        proof {
            reveal_strlit(" ");
            assert((" ")@ =~= seq![' ']);
            assert(s@ =~= show_entry_spec(*self));
        }
        s
    }
}

impl EntryPair {
    /// The report block for this confirmed pair: both paths, each followed
    /// by a newline.
    pub fn show(&self) -> (r: String)
        ensures
            r@ == show_pair_spec(*self),
    {
        let mut s = String::new();
        s.append(self.entry_a.file_path.as_str());
        s.append("\n");
        s.append(self.entry_b.file_path.as_str());
        s.append("\n");
        proof {
            reveal_strlit("\n");
            assert(("\n")@ =~= seq!['\n']);
            assert(s@ =~= show_pair_spec(*self));
        }
        s
    }
}

pub fn make_entry(s: String, l: u64, t: u64) -> (e: Entry)
    ensures
        e == (Entry { file_path: s, file_size: l, modified_time: t }),
{
    Entry { file_path: s, file_size: l, modified_time: t }
}

pub fn make_entry_pair(a: Entry, b: Entry) -> (p: EntryPair)
    ensures
        p == (EntryPair { entry_a: a, entry_b: b }),
{
    EntryPair { entry_a: a, entry_b: b }
}

} // verus!
