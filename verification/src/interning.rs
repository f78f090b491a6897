//! The process-scope string interner.
//!
//! A set of strings keyed by content. Handing out a string through the
//! interner always yields a string equal to the request; the table itself
//! never holds the same content twice, which is what makes it a
//! deduplication cache.

use vstd::prelude::*;
use vstd::string::StrSliceExecFns;
use vstd::string::StringExecFns;
use vstd::utf8::{encode_utf8, encode_utf8_decode_utf8};

verus! {

/// Equality of two string slices, decided on their UTF-8 bytes.
pub fn str_eq(a: &str, b: &str) -> (r: bool)
    ensures
        r == (a@ == b@),
{
    let av = a.as_bytes_vec();
    let bv = b.as_bytes_vec();
    if av.len() != bv.len() {
        proof {
            assert(a@ != b@);
        }
        return false;
    }
    let mut i: usize = 0;
    while i < av.len()
        invariant
            av@ == encode_utf8(a@),
            bv@ == encode_utf8(b@),
            av@.len() == bv@.len(),
            i <= av@.len(),
            forall|j: int| 0 <= j < i ==> av@[j] == bv@[j],
        decreases av@.len() - i,
    {
        if av[i] != bv[i] {
            proof {
                assert(a@ != b@);
            }
            return false;
        }
        i = i + 1;
    }
    proof {
        assert(av@ =~= bv@);
        encode_utf8_decode_utf8(a@);
        encode_utf8_decode_utf8(b@);
    }
    true
}

/// What interning `s` leaves in the table: nothing new when the content is
/// already there, the content at the end otherwise.
pub open spec fn spec_intern(tbl: Seq<Seq<char>>, s: Seq<char>) -> Seq<Seq<char>> {
    if tbl.contains(s) {
        tbl
    } else {
        tbl.push(s)
    }
}

/// A deduplication cache for well-known short strings.
#[derive(Debug)]
pub struct Interner {
    pub strings: Vec<String>,
}

impl View for Interner {
    type V = Seq<Seq<char>>;

    open spec fn view(&self) -> Seq<Seq<char>> {
        Seq::new(self.strings@.len(), |i: int| self.strings@[i]@)
    }
}

impl Interner {
    /// The table never holds the same content twice.
    pub open spec fn wf(&self) -> bool {
        forall|i: int, j: int| 0 <= i < j < self@.len() ==> self@[i] != self@[j]
    }

    /// A fresh interner, seeded with the empty string.
    pub fn new() -> (r: Interner)
        ensures
            r@ =~= seq![Seq::<char>::empty()],
            r.wf(),
    {
        let mut strings: Vec<String> = Vec::new();
        strings.push(String::new());
        let r = Interner { strings };
        proof {
            assert(r@ =~= seq![Seq::<char>::empty()]);
        }
        r
    }

    /// A string equal to `s`, shared with the table when its content was
    /// already interned.
    pub fn from_str(&mut self, s: &str) -> (r: String)
        requires
            old(self).wf(),
        ensures
            r@ == s@,
            final(self)@ == spec_intern(old(self)@, s@),
            final(self).wf(),
    {
        let mut i: usize = 0;
        while i < self.strings.len()
            invariant
                self.wf(),
                *self == *old(self),
                i <= self.strings@.len(),
                forall|j: int| 0 <= j < i ==> self@[j] != s@,
            decreases self.strings@.len() - i,
        {
            if str_eq(self.strings[i].as_str(), s) {
                proof {
                    assert(self@[i as int] == s@);
                    assert(self@.contains(s@));
                }
                return self.strings[i].clone();
            }
            i = i + 1;
        }
        proof {
            assert(!self@.contains(s@));
        }
        let r = String::from_str(s);
        self.strings.push(r.clone());
        proof {
            assert(final(self)@ =~= old(self)@.push(s@));
        }
        r
    }
}

} // verus!
