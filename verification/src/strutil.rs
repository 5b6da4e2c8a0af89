//! Character and string primitives shared by the scanner and the
//! normalizer: ASCII case folding, whitespace trimming, and conversions
//! between `String` and `Vec<char>`.

use vstd::prelude::*;
use vstd::string::StrSliceExecFns;

verus! {

/// An ASCII capital letter.
pub open spec fn is_upper(c: char) -> bool {
    65 <= c as u32 && c as u32 <= 90
}

/// ASCII case folding of one character; everything else is unchanged.
pub open spec fn lower_char(c: char) -> char {
    if is_upper(c) {
        ((c as u32) + 32) as char
    } else {
        c
    }
}

/// ASCII case folding of a whole string.
pub open spec fn lower_seq(s: Seq<char>) -> Seq<char> {
    s.map_values(|c: char| lower_char(c))
}

/// The whitespace characters the normalizer strips: the ASCII space,
/// tab, line and page breaks.
pub open spec fn is_space_char(c: char) -> bool {
    c == ' ' || c == '\t' || c == '\n' || c == '\r' || c == '\u{0B}' || c == '\u{0C}'
}

/// The string without its leading whitespace run.
pub open spec fn trim_front(s: Seq<char>) -> Seq<char>
    decreases s.len(),
{
    if s.len() > 0 && is_space_char(s[0]) {
        trim_front(s.drop_first())
    } else {
        s
    }
}

/// The string without its trailing whitespace run.
pub open spec fn trim_back(s: Seq<char>) -> Seq<char>
    decreases s.len(),
{
    if s.len() > 0 && is_space_char(s[s.len() - 1]) {
        trim_back(s.drop_last())
    } else {
        s
    }
}

/// The string without leading and trailing whitespace.
pub open spec fn trim_spec(s: Seq<char>) -> Seq<char> {
    trim_back(trim_front(s))
}

/// Filtering a sequence extended by one element keeps the filtered prefix
/// and appends the element exactly when it satisfies the predicate.
pub proof fn lemma_filter_push<A>(s: Seq<A>, x: A, p: spec_fn(A) -> bool)
    ensures
        s.push(x).filter(p) == if p(x) {
            s.filter(p).push(x)
        } else {
            s.filter(p)
        },
{
    reveal(Seq::filter);
    assert(s.push(x).drop_last() =~= s);
}

/// Relies on char::from_u32: `Some` exactly on Unicode scalar values
/// (code points at most 0x10FFFF and outside the surrogate range
/// 0xD800..=0xDFFF), carrying the given code point.
#[verifier::external_body]
pub(crate) fn char_from_u32(u: u32) -> (r: Option<char>)
    ensures
        r.is_some() <==> (u < 0xD800 || (0xE000 <= u && u <= 0x10FFFF)),
        r.is_some() ==> r.unwrap() == u as char,
{
    char::from_u32(u)
}

/// Relies on String::push: appends exactly one character at the end.
#[verifier::external_body]
pub(crate) fn push_char(s: &mut String, c: char)
    ensures
        final(s)@ == old(s)@.push(c),
{
    s.push(c);
}

/// ASCII case folding, executable form.
pub fn to_lower(c: char) -> (r: char)
    ensures
        r == lower_char(c),
{
    let u = c as u32;
    if 65 <= u && u <= 90 {
        let l = char_from_u32(u + 32);
        l.unwrap()
    } else {
        c
    }
}

/// Whitespace test, executable form.
pub fn is_space(c: char) -> (r: bool)
    ensures
        r == is_space_char(c),
{
    c == ' ' || c == '\t' || c == '\n' || c == '\r' || c == '\u{0B}' || c == '\u{0C}'
}

/// The characters of a string slice, in order.
pub fn str_chars(s: &str) -> (r: Vec<char>)
    ensures
        r@ == s@,
{
    let n = s.unicode_len();
    let mut r: Vec<char> = Vec::new();
    let mut i: usize = 0;
    while i < n
        invariant
            i <= n,
            n == s@.len(),
            r@ == s@.subrange(0, i as int),
        decreases n - i,
    {
        let c = s.get_char(i);
        r.push(c);
        proof {
            assert(s@.subrange(0, i + 1 as int) =~= s@.subrange(0, i as int).push(s@[i as int]));
        }
        i = i + 1;
    }
    proof {
        assert(s@.subrange(0, n as int) =~= s@);
    }
    r
}

/// A `String` made of the given characters, in order.
pub fn chars_string(v: &Vec<char>) -> (r: String)
    ensures
        r@ == v@,
{
    let mut r = String::new();
    let mut i: usize = 0;
    while i < v.len()
        invariant
            i <= v.len(),
            r@ == v@.subrange(0, i as int),
        decreases v.len() - i,
    {
        push_char(&mut r, v[i]);
        proof {
            assert(v@.subrange(0, i + 1 as int) =~= v@.subrange(0, i as int).push(v@[i as int]));
        }
        i = i + 1;
    }
    proof {
        assert(v@.subrange(0, v@.len() as int) =~= v@);
    }
    r
}

/// Character-wise equality of two character vectors.
pub fn chars_eq(a: &Vec<char>, b: &Vec<char>) -> (r: bool)
    ensures
        r == (a@ == b@),
{
    if a.len() != b.len() {
        proof {
            assert(a@ != b@);
        }
        return false;
    }
    let mut i: usize = 0;
    while i < a.len()
        invariant
            i <= a.len(),
            a@.len() == b@.len(),
            forall|j: int| 0 <= j < i ==> a@[j] == b@[j],
        decreases a.len() - i,
    {
        if a[i] != b[i] {
            proof {
                assert(a@ != b@);
            }
            return false;
        }
        i = i + 1;
    }
    proof {
        assert(a@ =~= b@);
    }
    true
}

} // verus!
