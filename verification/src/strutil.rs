//! Small verified string helpers: equality, lexicographic order, and
//! decimal rendering of integers.
use vstd::prelude::*;
use vstd::string::StrSliceExecFns;
use vstd::string::StringExecFns;

verus! {

/// Character for a single decimal digit.
pub open spec fn digit_char(d: int) -> char {
    if d == 0 {
        '0'
    } else if d == 1 {
        '1'
    } else if d == 2 {
        '2'
    } else if d == 3 {
        '3'
    } else if d == 4 {
        '4'
    } else if d == 5 {
        '5'
    } else if d == 6 {
        '6'
    } else if d == 7 {
        '7'
    } else if d == 8 {
        '8'
    } else {
        '9'
    }
}

/// Decimal rendering of a non-negative integer, most significant digit first.
pub open spec fn dec_digits(n: nat) -> Seq<char>
    decreases n,
{
    if n < 10 {
        seq![digit_char(n as int)]
    } else {
        dec_digits(n / 10).push(digit_char((n % 10) as int))
    }
}

/// Decimal rendering of an integer, with a leading minus sign when negative.
pub open spec fn int_digits(n: int) -> Seq<char> {
    if n < 0 {
        seq!['-'] + dec_digits((-n) as nat)
    } else {
        dec_digits(n as nat)
    }
}

pub fn digit_str_pub(d: u64) -> (r: &'static str)
    requires
        d < 10,
    ensures
        r@ =~= seq![digit_char(d as int)],
{
    proof {
        reveal_strlit("0");
        reveal_strlit("1");
        reveal_strlit("2");
        reveal_strlit("3");
        reveal_strlit("4");
        reveal_strlit("5");
        reveal_strlit("6");
        reveal_strlit("7");
        reveal_strlit("8");
        reveal_strlit("9");
    }
    if d == 0 {
        "0"
    } else if d == 1 {
        "1"
    } else if d == 2 {
        "2"
    } else if d == 3 {
        "3"
    } else if d == 4 {
        "4"
    } else if d == 5 {
        "5"
    } else if d == 6 {
        "6"
    } else if d == 7 {
        "7"
    } else if d == 8 {
        "8"
    } else {
        "9"
    }
}

/// Renders a `u64` in decimal.
pub fn dec_string_u64(n: u64) -> (s: String)
    ensures
        s@ == dec_digits(n as nat),
    decreases n,
{
    if n < 10 {
        digit_str_pub(n).to_owned()
    } else {
        let mut s = dec_string_u64(n / 10);
        s.append(digit_str_pub(n % 10));
        proof {
            assert(s@ =~= dec_digits(n as nat));
        }
        s
    }
}

fn dec_string_u128(n: u128) -> (s: String)
    ensures
        s@ == dec_digits(n as nat),
    decreases n,
{
    if n < 10 {
        digit_str_pub(n as u64).to_owned()
    } else {
        let mut s = dec_string_u128(n / 10);
        s.append(digit_str_pub((n % 10) as u64));
        proof {
            assert(s@ =~= dec_digits(n as nat));
        }
        s
    }
}

/// Renders a `usize` in decimal.
pub fn dec_string_usize(n: usize) -> (s: String)
    ensures
        s@ == dec_digits(n as nat),
{
    dec_string_u64(n as u64)
}

/// Renders an `i128` in decimal, with a minus sign when negative.
pub fn dec_string_i128(n: i128) -> (s: String)
    ensures
        s@ == int_digits(n as int),
{
    if n >= 0 {
        let s = dec_string_u128(n as u128);
        proof {
            assert(s@ =~= int_digits(n as int));
        }
        s
    } else {
        let magnitude: u128 = ((-(n + 1)) as u128) + 1;
        proof {
            reveal_strlit("-");
        }
        let mut s: String = "-".to_owned();
        let tail = dec_string_u128(magnitude);
        s.append(tail.as_str());
        proof {
            assert(s@ =~= int_digits(n as int));
        }
        s
    }
}

/// Equality of two string slices, by their character sequences.
pub fn str_eq(a: &str, b: &str) -> (r: bool)
    ensures
        r == (a@ == b@),
{
    let sa: String = a.to_owned();
    let sb: String = b.to_owned();
    sa == sb
}

/// Strict lexicographic order on character sequences, starting at index `i`.
pub open spec fn lex_lt_from(a: Seq<char>, b: Seq<char>, i: int) -> bool
    decreases b.len() - i,
{
    if i >= b.len() {
        false
    } else if i >= a.len() {
        true
    } else if (a[i] as u32) < (b[i] as u32) {
        true
    } else if a[i] == b[i] {
        lex_lt_from(a, b, i + 1)
    } else {
        false
    }
}

/// Strict lexicographic order on character sequences, by code point.
pub open spec fn lex_lt(a: Seq<char>, b: Seq<char>) -> bool {
    lex_lt_from(a, b, 0)
}

/// Strict lexicographic order on string slices.
pub fn str_lt(a: &str, b: &str) -> (r: bool)
    ensures
        r == lex_lt(a@, b@),
{
    let alen = a.unicode_len();
    let blen = b.unicode_len();
    let mut i: usize = 0;
    loop
        invariant
            i <= alen,
            i <= blen,
            alen == a@.len(),
            blen == b@.len(),
            lex_lt(a@, b@) == lex_lt_from(a@, b@, i as int),
        decreases blen - i,
    {
        if i >= blen {
            return false;
        }
        if i >= alen {
            return true;
        }
        let ca = a.get_char(i);
        let cb = b.get_char(i);
        if (ca as u32) < (cb as u32) {
            return true;
        }
        if (ca as u32) != (cb as u32) {
            return false;
        }
        i = i + 1;
    }
}

/// Any two character sequences compare: one is smaller, or they are equal.
pub proof fn lemma_lex_trichotomy(a: Seq<char>, b: Seq<char>)
    ensures
        lex_lt(a, b) || lex_lt(b, a) || a == b,
{
    lemma_lex_trichotomy_from(a, b, 0);
}

proof fn lemma_lex_trichotomy_from(a: Seq<char>, b: Seq<char>, i: int)
    requires
        0 <= i <= a.len(),
        0 <= i <= b.len(),
        forall|j: int| 0 <= j < i ==> a[j] == b[j],
    ensures
        lex_lt_from(a, b, i) || lex_lt_from(b, a, i) || a == b,
    decreases a.len() - i,
{
    if i >= b.len() {
        if i >= a.len() {
            assert(a =~= b);
        }
    } else if i >= a.len() {
    } else if (a[i] as u32) < (b[i] as u32) {
    } else if (b[i] as u32) < (a[i] as u32) {
    } else {
        vstd::utf8::char_u32_cast(a[i], a[i] as u32);
        vstd::utf8::char_u32_cast(b[i], b[i] as u32);
        assert(a[i] as u32 == b[i] as u32);
        assert(a[i] == b[i]);
        lemma_lex_trichotomy_from(a, b, i + 1);
    }
}

/// Strict lexicographic order is asymmetric.
pub proof fn lemma_lex_asym(a: Seq<char>, b: Seq<char>)
    ensures
        !(lex_lt(a, b) && lex_lt(b, a)),
{
    lemma_lex_asym_from(a, b, 0);
}

proof fn lemma_lex_asym_from(a: Seq<char>, b: Seq<char>, i: int)
    ensures
        !(lex_lt_from(a, b, i) && lex_lt_from(b, a, i)),
    decreases b.len() - i,
{
    if i < b.len() && i < a.len() && a[i] == b[i] {
        lemma_lex_asym_from(a, b, i + 1);
    }
}

} // verus!
