//! Manufacturer-name normalization: stripping trailing legal-entity
//! suffixes and deriving the grouping key that merges cosmetic spelling
//! variants of one company name.

use vstd::prelude::*;
use crate::strutil::{
    chars_string, is_space, is_space_char, lemma_filter_push, lower_char, lower_seq, str_chars,
    to_lower, trim_back, trim_front, trim_spec,
};

verus! {

/// A separator that may precede a legal-entity suffix: whitespace or a comma.
pub open spec fn is_sep_char(c: char) -> bool {
    is_space_char(c) || c == ','
}

/// A hyphen or space, the characters the grouping key ignores.
pub open spec fn is_squashed_char(c: char) -> bool {
    c == '-' || c == ' '
}

/// `s` ends, case-insensitively, with the (lower-case) token `t`.
pub open spec fn ends_ci(s: Seq<char>, t: Seq<char>) -> bool {
    s.len() >= t.len() && (forall|i: int|
        0 <= i < t.len() ==> lower_char(s[s.len() - t.len() + i]) == t[i])
}

/// A token only counts at a word boundary: at the start of the string,
/// or after whitespace, a comma or a hyphen. A token buried in a longer
/// word is part of a name, not a legal suffix.
pub open spec fn token_boundary(s: Seq<char>, k: nat) -> bool {
    s.len() == k || is_sep_char(s[s.len() - k - 1]) || s[s.len() - k - 1] == '-'
}

/// The length of the legal-entity token that ends `s` at a word boundary,
/// if any. The recognised tokens are Ltd, LLC, LCC, Inc, GmbH, Corp, Co,
/// AG and A/S, compared case-insensitively. At most one token can end a
/// given string, since no two distinct tokens end in a way both
/// compatible with one string.
pub open spec fn token_at_end(s: Seq<char>) -> Option<nat> {
    if ends_ci(s, seq!['g', 'm', 'b', 'h']) && token_boundary(s, 4) {
        Some(4nat)
    } else if ends_ci(s, seq!['c', 'o', 'r', 'p']) && token_boundary(s, 4) {
        Some(4nat)
    } else if ends_ci(s, seq!['l', 't', 'd']) && token_boundary(s, 3) {
        Some(3nat)
    } else if ends_ci(s, seq!['l', 'l', 'c']) && token_boundary(s, 3) {
        Some(3nat)
    } else if ends_ci(s, seq!['l', 'c', 'c']) && token_boundary(s, 3) {
        Some(3nat)
    } else if ends_ci(s, seq!['i', 'n', 'c']) && token_boundary(s, 3) {
        Some(3nat)
    } else if ends_ci(s, seq!['a', '/', 's']) && token_boundary(s, 3) {
        Some(3nat)
    } else if ends_ci(s, seq!['c', 'o']) && token_boundary(s, 2) {
        Some(2nat)
    } else if ends_ci(s, seq!['a', 'g']) && token_boundary(s, 2) {
        Some(2nat)
    } else {
        None
    }
}

/// The string without its trailing run of separators.
pub open spec fn trim_seps_back(s: Seq<char>) -> Seq<char>
    decreases s.len(),
{
    if s.len() > 0 && is_sep_char(s[s.len() - 1]) {
        trim_seps_back(s.drop_last())
    } else {
        s
    }
}

/// Strips one trailing legal-entity suffix: an optional separator run,
/// a recognised boundary token, and an optional final period. When no
/// token ends the string (ignoring a final period), the string is left
/// unchanged.
pub open spec fn strip_once_spec(s: Seq<char>) -> Seq<char> {
    let s1 = if s.len() > 0 && s[s.len() - 1] == '.' {
        s.drop_last()
    } else {
        s
    };
    match token_at_end(s1) {
        Some(k) => trim_seps_back(s1.take(s1.len() - k)),
        None => s,
    }
}

/// Strips trailing legal-entity suffixes until none is left: one or more
/// of the tokens go, each with its optional preceding separator run and
/// optional final period.
pub open spec fn strip_suffix_spec(s: Seq<char>) -> Seq<char>
    decreases s.len(),
{
    let t = strip_once_spec(s);
    if t.len() < s.len() {
        strip_suffix_spec(t)
    } else {
        s
    }
}

/// The canonical cleaning step: strip the trailing legal-entity
/// suffixes, then trim residual whitespace.
pub open spec fn clean_spec(s: Seq<char>) -> Seq<char> {
    trim_spec(strip_suffix_spec(s))
}

/// Removes every hyphen and space.
pub open spec fn squash_spec(s: Seq<char>) -> Seq<char> {
    s.filter(|c: char| !is_squashed_char(c))
}

/// The grouping key of a raw manufacturer string: clean it, lower-case it,
/// and drop hyphens and spaces. Two raw spellings name the same manufacturer
/// exactly when their keys are equal.
pub open spec fn norm_key_spec(s: Seq<char>) -> Seq<char> {
    squash_spec(lower_seq(clean_spec(s)))
}

proof fn lemma_trim_front_at(s: Seq<char>, i: int)
    requires
        0 <= i <= s.len(),
        forall|j: int| 0 <= j < i ==> is_space_char(s[j]),
        i == s.len() || !is_space_char(s[i]),
    ensures
        trim_front(s) == s.skip(i),
    decreases i,
{
    if i == 0 {
        assert(s.skip(0) =~= s);
    } else {
        assert(is_space_char(s[0]));
        lemma_trim_front_at(s.drop_first(), i - 1);
        assert(s.drop_first().skip(i - 1) =~= s.skip(i));
    }
}

proof fn lemma_trim_back_at(s: Seq<char>, i: int)
    requires
        0 <= i <= s.len(),
        forall|j: int| i <= j < s.len() ==> is_space_char(s[j]),
        i == 0 || !is_space_char(s[i - 1]),
    ensures
        trim_back(s) == s.take(i),
    decreases s.len() - i,
{
    if i == s.len() {
        assert(s.take(i) =~= s);
    } else {
        assert(is_space_char(s[s.len() - 1]));
        lemma_trim_back_at(s.drop_last(), i);
        assert(s.drop_last().take(i) =~= s.take(i));
    }
}

proof fn lemma_trim_seps_back_at(s: Seq<char>, i: int)
    requires
        0 <= i <= s.len(),
        forall|j: int| i <= j < s.len() ==> is_sep_char(s[j]),
        i == 0 || !is_sep_char(s[i - 1]),
    ensures
        trim_seps_back(s) == s.take(i),
    decreases s.len() - i,
{
    if i == s.len() {
        assert(s.take(i) =~= s);
    } else {
        assert(is_sep_char(s[s.len() - 1]));
        lemma_trim_seps_back_at(s.drop_last(), i);
        assert(s.drop_last().take(i) =~= s.take(i));
    }
}

/// ASCII case folding of a whole character vector.
pub fn lower_chars(v: &Vec<char>) -> (r: Vec<char>)
    ensures
        r@ == lower_seq(v@),
{
    let mut r: Vec<char> = Vec::new();
    let mut i: usize = 0;
    while i < v.len()
        invariant
            i <= v.len(),
            r@ == lower_seq(v@.subrange(0, i as int)),
        decreases v.len() - i,
    {
        r.push(to_lower(v[i]));
        proof {
            assert(lower_seq(v@.subrange(0, i + 1 as int)) =~= lower_seq(
                v@.subrange(0, i as int),
            ).push(lower_char(v@[i as int])));
        }
        i = i + 1;
    }
    proof {
        assert(v@.subrange(0, v@.len() as int) =~= v@);
    }
    r
}

/// Removes every hyphen and space from a character vector.
pub fn squash_chars(v: &Vec<char>) -> (r: Vec<char>)
    ensures
        r@ == squash_spec(v@),
{
    let mut r: Vec<char> = Vec::new();
    let mut i: usize = 0;
    while i < v.len()
        invariant
            i <= v.len(),
            r@ == squash_spec(v@.subrange(0, i as int)),
        decreases v.len() - i,
    {
        let c = v[i];
        proof {
            assert(v@.subrange(0, i + 1 as int) =~= v@.subrange(0, i as int).push(v@[i as int]));
            lemma_filter_push(
                v@.subrange(0, i as int),
                v@[i as int],
                |ch: char| !is_squashed_char(ch),
            );
        }
        if !(c == '-' || c == ' ') {
            r.push(c);
        }
        i = i + 1;
    }
    proof {
        assert(v@.subrange(0, v@.len() as int) =~= v@);
    }
    r
}

/// Whitespace trimming of a character vector.
pub fn trim_chars(v: &Vec<char>) -> (r: Vec<char>)
    ensures
        r@ == trim_spec(v@),
{
    let n = v.len();
    let mut lo: usize = 0;
    while lo < n && is_space(v[lo])
        invariant
            lo <= n,
            n == v@.len(),
            forall|j: int| 0 <= j < lo ==> is_space_char(v@[j]),
        decreases n - lo,
    {
        lo = lo + 1;
    }
    if lo == n {
        proof {
            lemma_trim_front_at(v@, n as int);
            assert(trim_front(v@) =~= Seq::<char>::empty());
            assert(trim_back(Seq::<char>::empty()) =~= Seq::<char>::empty());
        }
        let r: Vec<char> = Vec::new();
        return r;
    }
    let mut hi: usize = n;
    while hi > lo && is_space(v[hi - 1])
        invariant
            lo <= hi <= n,
            n == v@.len(),
            forall|j: int| hi <= j < n ==> is_space_char(v@[j]),
        decreases hi,
    {
        hi = hi - 1;
    }
    proof {
        lemma_trim_front_at(v@, lo as int);
        lemma_trim_back_at(v@.skip(lo as int), hi - lo);
    }
    let mut r: Vec<char> = Vec::new();
    let mut i: usize = lo;
    while i < hi
        invariant
            lo <= i <= hi <= n,
            n == v@.len(),
            r@ == v@.subrange(lo as int, i as int),
        decreases hi - i,
    {
        r.push(v[i]);
        proof {
            assert(v@.subrange(lo as int, i + 1 as int) =~= v@.subrange(lo as int, i as int).push(
                v@[i as int],
            ));
        }
        i = i + 1;
    }
    proof {
        assert(v@.skip(lo as int).take(hi - lo) =~= v@.subrange(lo as int, hi as int));
    }
    r
}

/// Does a token of length `k` ending `v` sit at a word boundary?
fn boundary_at(v: &Vec<char>, k: usize) -> (r: bool)
    requires
        k <= v@.len(),
    ensures
        r == token_boundary(v@, k as nat),
{
    let n = v.len();
    if n == k {
        true
    } else {
        let c = v[n - k - 1];
        is_space(c) || c == ',' || c == '-'
    }
}

/// The length of the legal-entity token ending `v`, or 0 when none does.
fn token_len_at_end(v: &Vec<char>) -> (r: usize)
    ensures
        r == 0 ==> token_at_end(v@).is_none(),
        r > 0 ==> token_at_end(v@) == Some(r as nat),
{
    let n = v.len();
    if n >= 4 && ends_ci4(v, 'g', 'm', 'b', 'h') && boundary_at(v, 4) {
        4
    } else if n >= 4 && ends_ci4(v, 'c', 'o', 'r', 'p') && boundary_at(v, 4) {
        4
    } else if n >= 3 && ends_ci3(v, 'l', 't', 'd') && boundary_at(v, 3) {
        3
    } else if n >= 3 && ends_ci3(v, 'l', 'l', 'c') && boundary_at(v, 3) {
        3
    } else if n >= 3 && ends_ci3(v, 'l', 'c', 'c') && boundary_at(v, 3) {
        3
    } else if n >= 3 && ends_ci3(v, 'i', 'n', 'c') && boundary_at(v, 3) {
        3
    } else if n >= 3 && ends_ci3(v, 'a', '/', 's') && boundary_at(v, 3) {
        3
    } else if n >= 2 && ends_ci2(v, 'c', 'o') && boundary_at(v, 2) {
        2
    } else if n >= 2 && ends_ci2(v, 'a', 'g') && boundary_at(v, 2) {
        2
    } else {
        0
    }
}

/// Case-insensitive test for a two-character ending.
fn ends_ci2(v: &Vec<char>, a: char, b: char) -> (r: bool)
    requires
        v@.len() >= 2,
        lower_char(a) == a,
        lower_char(b) == b,
    ensures
        r == ends_ci(v@, seq![a, b]),
{
    let n = v.len();
    let r = to_lower(v[n - 2]) == a && to_lower(v[n - 1]) == b;
    proof {
        let t = seq![a, b];
        if r {
            assert forall|i: int| 0 <= i < t.len() implies lower_char(
                v@[v@.len() - t.len() + i],
            ) == t[i] by {
                if i == 0 {
                } else {
                    assert(i == 1);
                }
            }
        }
    }
    r
}

/// Case-insensitive test for a three-character ending.
fn ends_ci3(v: &Vec<char>, a: char, b: char, c: char) -> (r: bool)
    requires
        v@.len() >= 3,
        lower_char(a) == a,
        lower_char(b) == b,
        lower_char(c) == c,
    ensures
        r == ends_ci(v@, seq![a, b, c]),
{
    let n = v.len();
    let r = to_lower(v[n - 3]) == a && to_lower(v[n - 2]) == b && to_lower(v[n - 1]) == c;
    proof {
        let t = seq![a, b, c];
        if r {
            assert forall|i: int| 0 <= i < t.len() implies lower_char(
                v@[v@.len() - t.len() + i],
            ) == t[i] by {
                if i == 0 {
                } else if i == 1 {
                } else {
                    assert(i == 2);
                }
            }
        }
    }
    r
}

/// Case-insensitive test for a four-character ending.
fn ends_ci4(v: &Vec<char>, a: char, b: char, c: char, d: char) -> (r: bool)
    requires
        v@.len() >= 4,
        lower_char(a) == a,
        lower_char(b) == b,
        lower_char(c) == c,
        lower_char(d) == d,
    ensures
        r == ends_ci(v@, seq![a, b, c, d]),
{
    let n = v.len();
    let r = to_lower(v[n - 4]) == a && to_lower(v[n - 3]) == b && to_lower(v[n - 2]) == c
        && to_lower(v[n - 1]) == d;
    proof {
        let t = seq![a, b, c, d];
        if r {
            assert forall|i: int| 0 <= i < t.len() implies lower_char(
                v@[v@.len() - t.len() + i],
            ) == t[i] by {
                if i == 0 {
                } else if i == 1 {
                } else if i == 2 {
                } else {
                    assert(i == 3);
                }
            }
        }
    }
    r
}

/// Strips one trailing legal-entity suffix from a character vector.
fn strip_once_chars(v: &Vec<char>) -> (r: Vec<char>)
    ensures
        r@ == strip_once_spec(v@),
{
    let n = v.len();
    let n1: usize = if n > 0 && v[n - 1] == '.' {
        n - 1
    } else {
        n
    };
    proof {
        assert(v@.subrange(0, n1 as int) =~= if v@.len() > 0 && v@[v@.len() - 1] == '.' {
            v@.drop_last()
        } else {
            v@
        });
    }
    let mut head: Vec<char> = Vec::new();
    let mut i: usize = 0;
    while i < n1
        invariant
            i <= n1 <= v@.len(),
            head@ == v@.subrange(0, i as int),
        decreases n1 - i,
    {
        head.push(v[i]);
        proof {
            assert(v@.subrange(0, i + 1 as int) =~= v@.subrange(0, i as int).push(v@[i as int]));
        }
        i = i + 1;
    }
    let k = token_len_at_end(&head);
    if k == 0 {
        let mut r: Vec<char> = Vec::new();
        let mut j: usize = 0;
        while j < n
            invariant
                j <= n,
                n == v@.len(),
                r@ == v@.subrange(0, j as int),
            decreases n - j,
        {
            r.push(v[j]);
            proof {
                assert(v@.subrange(0, j + 1 as int) =~= v@.subrange(0, j as int).push(
                    v@[j as int],
                ));
            }
            j = j + 1;
        }
        proof {
            assert(v@.subrange(0, v@.len() as int) =~= v@);
        }
        r
    } else {
        let mut e: usize = n1 - k;
        proof {
            assert(head@.take(e as int) =~= v@.subrange(0, e as int));
        }
        while e > 0 && (is_space(v[e - 1]) || v[e - 1] == ',')
            invariant
                e <= n1 - k,
                n1 <= v@.len(),
                forall|j: int| e <= j < n1 - k ==> is_sep_char(v@[j]),
            decreases e,
        {
            e = e - 1;
        }
        proof {
            let cut = head@.take((n1 - k) as int);
            assert(cut =~= v@.subrange(0, (n1 - k) as int));
            lemma_trim_seps_back_at(cut, e as int);
            assert(cut.take(e as int) =~= v@.subrange(0, e as int));
        }
        let mut r: Vec<char> = Vec::new();
        let mut j: usize = 0;
        while j < e
            invariant
                j <= e,
                e <= v@.len(),
                r@ == v@.subrange(0, j as int),
            decreases e - j,
        {
            r.push(v[j]);
            proof {
                assert(v@.subrange(0, j + 1 as int) =~= v@.subrange(0, j as int).push(
                    v@[j as int],
                ));
            }
            j = j + 1;
        }
        r
    }
}

proof fn lemma_trim_seps_len(s: Seq<char>)
    ensures
        trim_seps_back(s).len() <= s.len(),
    decreases s.len(),
{
    if s.len() > 0 && is_sep_char(s[s.len() - 1]) {
        lemma_trim_seps_len(s.drop_last());
    }
}

/// One strip either shortens the string or leaves it untouched.
proof fn lemma_strip_once_shrinks(s: Seq<char>)
    ensures
        strip_once_spec(s).len() < s.len() || strip_once_spec(s) == s,
{
    let s1 = if s.len() > 0 && s[s.len() - 1] == '.' {
        s.drop_last()
    } else {
        s
    };
    match token_at_end(s1) {
        Some(k) => {
            lemma_trim_seps_len(s1.take(s1.len() - k));
        },
        None => {},
    }
}

/// Strips trailing legal-entity suffixes until none is left.
fn strip_suffix_chars(v: &Vec<char>) -> (r: Vec<char>)
    ensures
        r@ == strip_suffix_spec(v@),
    decreases v@.len(),
{
    let t = strip_once_chars(v);
    if t.len() < v.len() {
        strip_suffix_chars(&t)
    } else {
        proof {
            lemma_strip_once_shrinks(v@);
        }
        t
    }
}

/// Cleans one character vector: strip the trailing legal-entity
/// suffixes, then trim whitespace.
pub fn clean_chars(v: &Vec<char>) -> (r: Vec<char>)
    ensures
        r@ == clean_spec(v@),
{
    let stripped = strip_suffix_chars(v);
    trim_chars(&stripped)
}

/// The grouping key of a raw manufacturer string, executable form.
pub fn norm_key_chars(v: &Vec<char>) -> (r: Vec<char>)
    ensures
        r@ == norm_key_spec(v@),
{
    let cleaned = clean_chars(v);
    let lowered = lower_chars(&cleaned);
    squash_chars(&lowered)
}

/// Strips one or more trailing legal-entity suffixes (Ltd, LLC, LCC,
/// Inc, GmbH, Corp, Co, AG or A/S — case-insensitive, each at a word
/// boundary, with an optional preceding comma or whitespace run and an
/// optional final period) and trims whitespace.
pub fn clean_manufacturer_name(name: &str) -> (r: String)
    ensures
        r@ == clean_spec(name@),
{
    let chars = str_chars(name);
    let cleaned = clean_chars(&chars);
    chars_string(&cleaned)
}

} // verus!
