//! JSON pointers: the location of a value inside a document, rendered as an
//! escaped string. Pointers are never mutated; each descent builds a new one.
use vstd::prelude::*;
use vstd::string::StrSliceExecFns;
use vstd::string::StringExecFns;

use crate::strutil::{dec_digits, dec_string_usize};

verus! {

/// Escaping of one character of a pointer segment: `~` becomes `~0` and `/`
/// becomes `~1`; every other character stands as itself.
pub open spec fn esc_char(c: char) -> Seq<char> {
    if c == '~' {
        seq!['~', '0']
    } else if c == '/' {
        seq!['~', '1']
    } else {
        seq![c]
    }
}

pub open spec fn escape_from(s: Seq<char>, i: int) -> Seq<char>
    decreases s.len() - i,
{
    if i >= s.len() {
        Seq::empty()
    } else {
        esc_char(s[i]) + escape_from(s, i + 1)
    }
}

/// A pointer segment, escaped so that it can be spliced into the rendered
/// pointer string.
pub open spec fn escape_seg(s: Seq<char>) -> Seq<char> {
    escape_from(s, 0)
}

/// Escapes one segment of a pointer.
pub fn escape_pointer_segment(seg: &str) -> (r: String)
    ensures
        r@ == escape_seg(seg@),
{
    let len = seg.unicode_len();
    let mut out = String::new();
    let mut i: usize = 0;
    while i < len
        invariant
            i <= len,
            len == seg@.len(),
            out@ + escape_from(seg@, i as int) =~= escape_seg(seg@),
        decreases len - i,
    {
        let c = seg.get_char(i);
        if c == '~' {
            proof {
                reveal_strlit("~0");
            }
            out.append("~0");
        } else if c == '/' {
            proof {
                reveal_strlit("~1");
            }
            out.append("~1");
        } else {
            let piece = seg.substring_char(i, i + 1);
            proof {
                assert(piece@ =~= seq![seg@[i as int]]);
            }
            out.append(piece);
        }
        proof {
            assert(out@ + escape_from(seg@, i + 1 as int) =~= escape_seg(seg@));
        }
        i = i + 1;
    }
    proof {
        assert(out@ =~= escape_seg(seg@));
    }
    out
}

/// A location inside a document: the empty string at the root, and one
/// escaped segment per descent, each preceded by `/`.
pub struct JsonPointer {
    rendered: String,
}

impl View for JsonPointer {
    type V = Seq<char>;

    closed spec fn view(&self) -> Seq<char> {
        self.rendered@
    }
}

impl JsonPointer {
    /// The pointer of the document root: the empty string.
    pub fn root() -> (r: Self)
        ensures
            r@ == Seq::<char>::empty(),
    {
        JsonPointer { rendered: String::new() }
    }

    /// A copy of this pointer.
    pub fn dup(&self) -> (r: Self)
        ensures
            r@ == self@,
    {
        JsonPointer { rendered: self.rendered.clone() }
    }

    /// A new pointer with one escaped property segment appended.
    pub fn push_prop(&self, prop: &str) -> (r: Self)
        ensures
            r@ == self@ + seq!['/'] + escape_seg(prop@),
    {
        let mut next = self.rendered.clone();
        proof {
            reveal_strlit("/");
        }
        next.append("/");
        let esc = escape_pointer_segment(prop);
        next.append(esc.as_str());
        proof {
            assert(next@ =~= self@ + seq!['/'] + escape_seg(prop@));
        }
        JsonPointer { rendered: next }
    }

    /// A new pointer with one array-index segment appended.
    pub fn push_index(&self, idx: usize) -> (r: Self)
        ensures
            r@ == self@ + seq!['/'] + dec_digits(idx as nat),
    {
        let mut next = self.rendered.clone();
        proof {
            reveal_strlit("/");
        }
        next.append("/");
        let digits = dec_string_usize(idx);
        next.append(digits.as_str());
        proof {
            assert(next@ =~= self@ + seq!['/'] + dec_digits(idx as nat));
        }
        JsonPointer { rendered: next }
    }

    /// The rendered pointer; empty exactly at the root.
    pub fn as_str(&self) -> (r: &str)
        ensures
            r@ == self@,
    {
        self.rendered.as_str()
    }
}

} // verus!
