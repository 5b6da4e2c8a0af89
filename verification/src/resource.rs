//! A bounds-checked reader for the fixed-layout version-information
//! resource of flat plugin binaries: the fixed file-version structure,
//! the translation table, and the UTF-16 string tables, expressed as
//! explicit byte-level schemas.

use vstd::prelude::*;
use crate::strutil::char_from_u32;

verus! {

/// The little-endian 16-bit value at `off`.
pub open spec fn u16_at(b: Seq<u8>, off: int) -> int {
    b[off] + 256 * b[off + 1]
}

/// The little-endian 32-bit value at `off`.
pub open spec fn u32_at(b: Seq<u8>, off: int) -> int {
    u16_at(b, off) + 65536 * u16_at(b, off + 2)
}

/// `x` rounded up to the next multiple of four.
pub open spec fn align4(x: int) -> int {
    x + ((4 - x % 4) % 4)
}

/// Reads the little-endian 16-bit value at `off`.
fn read_u16(b: &Vec<u8>, off: usize) -> (r: u32)
    requires
        off + 2 <= b@.len(),
    ensures
        r == u16_at(b@, off as int),
        r < 65536,
{
    let _n = b.len();
    let lo = b[off] as u32;
    let hi = b[off + 1] as u32;
    lo + 256 * hi
}

/// Reads the little-endian 32-bit value at `off`.
fn read_u32(b: &Vec<u8>, off: usize) -> (r: u64)
    requires
        off + 4 <= b@.len(),
    ensures
        r == u32_at(b@, off as int),
        r < 0x1_0000_0000,
{
    let _n = b.len();
    let lo = read_u16(b, off) as u64;
    let hi = read_u16(b, off + 2) as u64;
    lo + 65536 * hi
}

/// Rounds an offset up to the next multiple of four.
fn align4_x(x: usize) -> (r: usize)
    requires
        x + 3 <= usize::MAX,
    ensures
        r == align4(x as int),
        x <= r <= x + 3,
{
    let rem = x % 4;
    if rem == 0 {
        x
    } else {
        x + (4 - rem)
    }
}

/// One decimal digit as a character.
pub open spec fn dec_digit(d: int) -> char {
    if d == 0 {
        '0'
    } else if d == 1 {
        '1'
    } else if d == 2 {
        '2'
    } else if d == 3 {
        '3'
    } else if d == 4 {
        '4'
    } else if d == 5 {
        '5'
    } else if d == 6 {
        '6'
    } else if d == 7 {
        '7'
    } else if d == 8 {
        '8'
    } else {
        '9'
    }
}

/// The decimal representation of a non-negative number, no leading zeros.
pub open spec fn dec_rep(n: int) -> Seq<char>
    decreases n,
{
    if n < 10 {
        seq![dec_digit(n)]
    } else {
        dec_rep(n / 10).push(dec_digit(n % 10))
    }
}

fn dec_digit_x(d: u64) -> (c: char)
    requires
        d < 10,
    ensures
        c == dec_digit(d as int),
{
    match d {
        0 => '0',
        1 => '1',
        2 => '2',
        3 => '3',
        4 => '4',
        5 => '5',
        6 => '6',
        7 => '7',
        8 => '8',
        _ => '9',
    }
}

/// Appends the decimal representation of `n`.
fn push_dec(n: u64, out: &mut Vec<char>)
    ensures
        final(out)@ == old(out)@ + dec_rep(n as int),
    decreases n,
{
    if n < 10 {
        out.push(dec_digit_x(n));
        proof {
            assert(old(out)@.push(dec_digit(n as int)) =~= old(out)@ + dec_rep(n as int));
        }
    } else {
        push_dec(n / 10, out);
        out.push(dec_digit_x(n % 10));
        proof {
            assert((old(out)@ + dec_rep(n as int / 10)).push(dec_digit(n as int % 10)) =~= old(
                out,
            )@ + dec_rep(n as int));
        }
    }
}

/// One upper-case hexadecimal digit, as a UTF-16 code unit.
pub open spec fn hex_digit_u16(d: int) -> int {
    if d < 10 {
        48 + d
    } else {
        55 + d
    }
}

/// The four UTF-16 code units of `x` in upper-case hexadecimal.
pub open spec fn hex4_u16(x: int) -> Seq<int> {
    seq![
        hex_digit_u16(x / 4096 % 16),
        hex_digit_u16(x / 256 % 16),
        hex_digit_u16(x / 16 % 16),
        hex_digit_u16(x % 16),
    ]
}

fn hex_digit_x(d: u32) -> (r: u16)
    requires
        d < 16,
    ensures
        r == hex_digit_u16(d as int),
{
    if d < 10 {
        (48 + d) as u16
    } else {
        (55 + d) as u16
    }
}

/// Appends the four-digit upper-case hexadecimal form of `x`.
fn push_hex4(x: u32, out: &mut Vec<u16>)
    requires
        x < 65536,
    ensures
        final(out)@.map_values(|u: u16| u as int) == old(out)@.map_values(|u: u16| u as int)
            + hex4_u16(x as int),
{
    out.push(hex_digit_x(x / 4096 % 16));
    out.push(hex_digit_x(x / 256 % 16));
    out.push(hex_digit_x(x / 16 % 16));
    out.push(hex_digit_x(x % 16));
    proof {
        assert(out@.map_values(|u: u16| u as int) =~= old(out)@.map_values(|u: u16| u as int)
            + hex4_u16(x as int));
    }
}

/// UTF-16 decoding: `None` exactly when the units are not well formed
/// (a lone or reversed surrogate).
pub open spec fn utf16_decode(u: Seq<int>) -> Option<Seq<char>>
    decreases u.len(),
{
    if u.len() == 0 {
        Some(Seq::empty())
    } else if u[0] < 0xD800 || u[0] >= 0xE000 {
        match utf16_decode(u.drop_first()) {
            Some(rest) => Some(seq![u[0] as char] + rest),
            None => None,
        }
    } else if u[0] < 0xDC00 && u.len() >= 2 && 0xDC00 <= u[1] < 0xE000 {
        let cp = 0x10000 + (u[0] - 0xD800) * 0x400 + (u[1] - 0xDC00);
        match utf16_decode(u.skip(2)) {
            Some(rest) => Some(seq![cp as char] + rest),
            None => None,
        }
    } else {
        None
    }
}

/// The integer values of a vector of UTF-16 code units.
pub open spec fn unit_views(u: Seq<u16>) -> Seq<int> {
    u.map_values(|x: u16| x as int)
}

/// Decodes UTF-16 code units; `None` on ill-formed input.
pub fn utf16_to_chars(u: &Vec<u16>) -> (r: Option<Vec<char>>)
    ensures
        match r {
            Some(v) => utf16_decode(unit_views(u@)) == Some(v@),
            None => utf16_decode(unit_views(u@)) is None,
        },
{
    let ghost uv = unit_views(u@);
    let mut out: Vec<char> = Vec::new();
    let mut i: usize = 0;
    proof {
        assert(uv.skip(0) =~= uv);
    }
    while i < u.len()
        invariant
            i <= u@.len(),
            uv == unit_views(u@),
            uv.len() == u@.len(),
            forall|j: int| 0 <= j < u@.len() ==> uv[j] == u@[j] as int,
            match utf16_decode(uv.skip(i as int)) {
                Some(rest) => utf16_decode(uv) == Some(out@ + rest),
                None => utf16_decode(uv) is None,
            },
        decreases u.len() - i,
    {
        let c0 = u[i];
        let ghost tail = uv.skip(i as int);
        proof {
            assert(tail[0] == uv[i as int]);
            assert(tail.drop_first() =~= uv.skip(i + 1));
        }
        if c0 < 0xD800 || c0 >= 0xE000 {
            let c = char_from_u32(c0 as u32);
            let ch = c.unwrap();
            out.push(ch);
            proof {
                if utf16_decode(uv.skip(i + 1)) is Some {
                    let rest1 = utf16_decode(uv.skip(i + 1)).unwrap();
                    assert(utf16_decode(tail) == Some(seq![tail[0] as char] + rest1));
                    assert((out@.drop_last() + (seq![tail[0] as char] + rest1)) =~= out@ + rest1);
                }
            }
            i = i + 1;
        } else if c0 < 0xDC00 && i + 1 < u.len() && 0xDC00 <= u[i + 1] && u[i + 1] < 0xE000 {
            let c1 = u[i + 1];
            proof {
                assert(tail.len() >= 2);
                assert(tail[1] == uv[i + 1]);
                assert(tail.skip(2) =~= uv.skip(i + 2));
            }
            let cp: u32 = 0x10000 + (c0 as u32 - 0xD800) * 0x400 + (c1 as u32 - 0xDC00);
            let c = char_from_u32(cp);
            let ch = c.unwrap();
            out.push(ch);
            proof {
                if utf16_decode(uv.skip(i + 2)) is Some {
                    let rest1 = utf16_decode(uv.skip(i + 2)).unwrap();
                    assert(utf16_decode(tail) == Some(seq![cp as int as char] + rest1));
                    assert((out@.drop_last() + (seq![cp as int as char] + rest1)) =~= out@
                        + rest1);
                }
            }
            i = i + 2;
        } else {
            proof {
                assert(utf16_decode(tail) is None);
            }
            return None;
        }
    }
    proof {
        assert(uv.skip(uv.len() as int) =~= Seq::<int>::empty());
        assert(out@ + Seq::<char>::empty() =~= out@);
    }
    Some(out)
}

/// The offset of the 16-bit NUL that ends the key starting at `k`, or -1
/// when none lies before `end`.
pub open spec fn key_end(b: Seq<u8>, k: int, end: int) -> int
    decreases end - k,
{
    if k < 0 || k + 2 > end {
        -1
    } else if u16_at(b, k) == 0 {
        k
    } else {
        key_end(b, k + 2, end)
    }
}

/// The 16-bit values at offsets `k`, `k + 2`, ... below `e`.
pub open spec fn units_at(b: Seq<u8>, k: int, e: int) -> Seq<int>
    decreases e - k,
{
    if k >= e {
        Seq::empty()
    } else if k + 2 > e {
        seq![u16_at(b, k)]
    } else {
        seq![u16_at(b, k)] + units_at(b, k + 2, e)
    }
}

/// ASCII case folding of one UTF-16 code unit.
pub open spec fn lower_u16(x: int) -> int {
    if 65 <= x && x <= 90 {
        x + 32
    } else {
        x
    }
}

/// ASCII case folding of a unit sequence.
pub open spec fn lower_u(u: Seq<int>) -> Seq<int> {
    u.map_values(|x: int| lower_u16(x))
}

/// The offset of the first sub-block in `[off, end)` whose key equals
/// `key` case-insensitively; `None` when the area holds no such block or
/// is malformed. Each block starts with its total length, its value
/// length and its type, followed by a NUL-terminated UTF-16 key.
pub open spec fn find_block(b: Seq<u8>, off: int, end: int, key: Seq<int>) -> Option<int>
    decreases end - off,
{
    if off < 0 || off + 6 > end {
        None
    } else {
        let wl = u16_at(b, off);
        if wl < 8 || off + wl > end {
            None
        } else {
            let ke = key_end(b, off + 6, off + wl);
            if ke < 0 {
                None
            } else if lower_u(units_at(b, off + 6, ke)) == lower_u(key) {
                Some(off)
            } else {
                let next = align4(off + wl);
                if next > end {
                    None
                } else {
                    find_block(b, next, end, key)
                }
            }
        }
    }
}

proof fn lemma_key_end_ok(b: Seq<u8>, k: int, end: int)
    requires
        key_end(b, k, end) >= 0,
    ensures
        k <= key_end(b, k, end),
        key_end(b, k, end) + 2 <= end,
        (key_end(b, k, end) - k) % 2 == 0,
    decreases end - k,
{
    if !(k < 0 || k + 2 > end) && u16_at(b, k) != 0 {
        lemma_key_end_ok(b, k + 2, end);
    }
}

proof fn lemma_find_block_ok(b: Seq<u8>, off: int, end: int, key: Seq<int>)
    requires
        find_block(b, off, end, key) is Some,
    ensures
        ({
            let o = find_block(b, off, end, key).unwrap();
            &&& off <= o
            &&& o + 6 <= end
            &&& 8 <= u16_at(b, o)
            &&& o + u16_at(b, o) <= end
            &&& key_end(b, o + 6, o + u16_at(b, o)) >= o + 6
            &&& key_end(b, o + 6, o + u16_at(b, o)) + 2 <= o + u16_at(b, o)
        }),
    decreases end - off,
{
    let wl = u16_at(b, off);
    let ke = key_end(b, off + 6, off + wl);
    if !(off < 0 || off + 6 > end) && !(wl < 8 || off + wl > end) && ke >= 0 {
        lemma_key_end_ok(b, off + 6, off + wl);
        if lower_u(units_at(b, off + 6, ke)) == lower_u(key) {
        } else {
            let next = align4(off + wl);
            if next <= end {
                lemma_find_block_ok(b, next, end, key);
            }
        }
    }
}

/// The version quad of the fixed file-information structure: its
/// signature-checked value holds the four 16-bit parts of the file
/// version.
pub open spec fn fixed_version_spec(b: Seq<u8>) -> Option<(int, int, int, int)> {
    if b.len() < 8 || u16_at(b, 0) < 8 || u16_at(b, 0) > b.len() {
        None
    } else {
        let wl = u16_at(b, 0);
        let vl = u16_at(b, 2);
        let ke = key_end(b, 6, wl);
        if ke < 0 {
            None
        } else {
            let vo = align4(ke + 2);
            if vl >= 52 && vo + 52 <= wl && u32_at(b, vo) == 0xFEEF04BD {
                let ms = u32_at(b, vo + 8);
                let ls = u32_at(b, vo + 12);
                Some((ms / 65536, ms % 65536, ls / 65536, ls % 65536))
            } else {
                None
            }
        }
    }
}

/// Where the root block's children begin: after its key and its value,
/// each aligned.
pub open spec fn root_children_start(b: Seq<u8>) -> int {
    align4(align4(key_end(b, 6, u16_at(b, 0)) + 2) + u16_at(b, 2))
}

/// The root block is plausibly a version-information resource.
pub open spec fn root_ok(b: Seq<u8>) -> bool {
    b.len() >= 8 && 8 <= u16_at(b, 0) && u16_at(b, 0) <= b.len() && key_end(b, 6, u16_at(b, 0))
        >= 0
}

/// "StringFileInfo", as UTF-16 code-unit values.
pub open spec fn sfi_key() -> Seq<int> {
    seq![83, 116, 114, 105, 110, 103, 70, 105, 108, 101, 73, 110, 102, 111]
}

/// "VarFileInfo".
pub open spec fn vfi_key() -> Seq<int> {
    seq![86, 97, 114, 70, 105, 108, 101, 73, 110, 102, 111]
}

/// "Translation".
pub open spec fn trans_key() -> Seq<int> {
    seq![84, 114, 97, 110, 115, 108, 97, 116, 105, 111, 110]
}

/// "ProductName".
pub open spec fn product_name_key() -> Seq<int> {
    seq![80, 114, 111, 100, 117, 99, 116, 78, 97, 109, 101]
}

/// "CompanyName".
pub open spec fn company_name_key() -> Seq<int> {
    seq![67, 111, 109, 112, 97, 110, 121, 78, 97, 109, 101]
}

/// "FileDescription".
pub open spec fn file_description_key() -> Seq<int> {
    seq![70, 105, 108, 101, 68, 101, 115, 99, 114, 105, 112, 116, 105, 111, 110]
}

/// The value area `(start, length_in_units)` of the string entry `name`
/// under the language/codepage table `lcp`, if the resource holds one.
pub open spec fn string_entry_units(b: Seq<u8>, lcp: Seq<int>, name: Seq<int>) -> Option<
    Seq<int>,
> {
    if !root_ok(b) {
        None
    } else {
        let end = u16_at(b, 0);
        match find_block(b, root_children_start(b), end, sfi_key()) {
            None => None,
            Some(so) => {
                let swl = u16_at(b, so);
                let scs = align4(key_end(b, so + 6, so + swl) + 2);
                match find_block(b, scs, so + swl, lcp) {
                    None => None,
                    Some(to) => {
                        let twl = u16_at(b, to);
                        let tcs = align4(key_end(b, to + 6, to + twl) + 2);
                        match find_block(b, tcs, to + twl, name) {
                            None => None,
                            Some(no) => {
                                let nwl = u16_at(b, no);
                                let nvl = u16_at(b, no + 2);
                                let nvo = align4(key_end(b, no + 6, no + nwl) + 2);
                                if nvl >= 1 && nvo + 2 * nvl <= no + nwl {
                                    Some(units_at(b, nvo, nvo + 2 * (nvl - 1)))
                                } else {
                                    None
                                }
                            },
                        }
                    },
                }
            },
        }
    }
}

/// The string-table entry decoded, trimmed, and kept only when non-empty.
pub open spec fn string_value_spec(b: Seq<u8>, lcp: Seq<int>, name: Seq<int>) -> Option<
    Seq<char>,
> {
    match string_entry_units(b, lcp, name) {
        None => None,
        Some(units) => match utf16_decode(units) {
            None => None,
            Some(cs) => {
                let t = crate::strutil::trim_spec(cs);
                if t.len() > 0 {
                    Some(t)
                } else {
                    None
                }
            },
        },
    }
}

/// The `(language, codepage)` unit values of the Translation variable,
/// flattened in declaration order; `None` when the resource declares none.
pub open spec fn translations_spec(b: Seq<u8>) -> Option<Seq<int>> {
    if !root_ok(b) {
        None
    } else {
        let end = u16_at(b, 0);
        match find_block(b, root_children_start(b), end, vfi_key()) {
            None => None,
            Some(vo) => {
                let vwl = u16_at(b, vo);
                let vcs = align4(key_end(b, vo + 6, vo + vwl) + 2);
                match find_block(b, vcs, vo + vwl, trans_key()) {
                    None => None,
                    Some(to) => {
                        let twl = u16_at(b, to);
                        let tvl = u16_at(b, to + 2);
                        let tvo = align4(key_end(b, to + 6, to + twl) + 2);
                        if tvl >= 1 && tvo + tvl <= to + twl {
                            Some(units_at(b, tvo, tvo + 4 * (tvl / 4)))
                        } else {
                            None
                        }
                    },
                }
            },
        }
    }
}

/// The language/codepage keys to try, in declaration order; the
/// conventional US-English key when the resource declares none.
pub open spec fn lcp_keys_spec(b: Seq<u8>) -> Seq<Seq<int>>
    decreases 1int,
{
    match translations_spec(b) {
        Some(units) => Seq::new((units.len() / 2) as nat, |i: int| hex4_u16(units[2 * i])
            + hex4_u16(units[2 * i + 1])),
        None => seq![seq![48, 52, 48, 57, 48, 52, 66, 48]],
    }
}

/// The first language/codepage key whose table yields the entry.
pub open spec fn lookup_in(b: Seq<u8>, lcps: Seq<Seq<int>>, name: Seq<int>) -> Option<Seq<char>>
    decreases lcps.len(),
{
    if lcps.len() == 0 {
        None
    } else {
        match string_value_spec(b, lcps[0], name) {
            Some(v) => Some(v),
            None => lookup_in(b, lcps.drop_first(), name),
        }
    }
}

/// The dotted `major.minor.build.revision` version string, when the fixed
/// file-information structure is present.
pub open spec fn version_string_spec(b: Seq<u8>) -> Option<Seq<char>> {
    match fixed_version_spec(b) {
        Some((ma, mi, bu, re)) => Some(
            dec_rep(ma) + seq!['.'] + dec_rep(mi) + seq!['.'] + dec_rep(bu) + seq!['.'] + dec_rep(
                re,
            ),
        ),
        None => None,
    }
}

/// The declared product name, falling back to the file description.
pub open spec fn flat_name_spec(b: Seq<u8>) -> Option<Seq<char>> {
    match lookup_in(b, lcp_keys_spec(b), product_name_key()) {
        Some(v) => Some(v),
        None => lookup_in(b, lcp_keys_spec(b), file_description_key()),
    }
}

/// The declared company name.
pub open spec fn flat_manufacturer_spec(b: Seq<u8>) -> Option<Seq<char>> {
    lookup_in(b, lcp_keys_spec(b), company_name_key())
}

/// An optional string carries exactly the given optional character
/// sequence.
pub open spec fn opt_matches(o: Option<String>, s: Option<Seq<char>>) -> bool {
    match o {
        Some(x) => s == Some(x@),
        None => s is None,
    }
}

/// Finds the 16-bit NUL ending the key at `k`, executable form.
fn key_end_x(b: &Vec<u8>, k: usize, end: usize) -> (r: Option<usize>)
    requires
        end <= b@.len(),
    ensures
        match r {
            Some(e) => key_end(b@, k as int, end as int) == e,
            None => key_end(b@, k as int, end as int) == -1,
        },
    decreases end - k,
{
    if end < 2 || k > end - 2 {
        None
    } else if read_u16(b, k) == 0 {
        Some(k)
    } else {
        key_end_x(b, k + 2, end)
    }
}

/// Reads the 16-bit values at `k`, `k + 2`, ... below `e`.
fn units_at_x(b: &Vec<u8>, k: usize, e: usize) -> (r: Vec<u16>)
    requires
        e <= b@.len(),
        (e - k) % 2 == 0,
    ensures
        unit_views(r@) == units_at(b@, k as int, e as int),
    decreases e - k,
{
    if k >= e {
        let r: Vec<u16> = Vec::new();
        proof {
            assert(unit_views(r@) =~= units_at(b@, k as int, e as int));
        }
        r
    } else {
        let u = read_u16(b, k) as u16;
        let rest = units_at_x(b, k + 2, e);
        let mut r: Vec<u16> = Vec::new();
        r.push(u);
        let mut rest = rest;
        r.append(&mut rest);
        proof {
            assert(unit_views(r@) =~= units_at(b@, k as int, e as int));
        }
        r
    }
}

/// Case-insensitive equality of two unit vectors.
fn units_eq_ci(a: &Vec<u16>, c: &Vec<u16>) -> (r: bool)
    ensures
        r == (lower_u(unit_views(a@)) == lower_u(unit_views(c@))),
{
    if a.len() != c.len() {
        proof {
            assert(lower_u(unit_views(a@)).len() != lower_u(unit_views(c@)).len());
        }
        return false;
    }
    let mut i: usize = 0;
    while i < a.len()
        invariant
            i <= a@.len(),
            a@.len() == c@.len(),
            forall|j: int|
                0 <= j < i ==> lower_u16(a@[j] as int) == lower_u16(c@[j] as int),
        decreases a.len() - i,
    {
        let x = a[i] as u32;
        let y = c[i] as u32;
        let lx = if 65 <= x && x <= 90 {
            x + 32
        } else {
            x
        };
        let ly = if 65 <= y && y <= 90 {
            y + 32
        } else {
            y
        };
        if lx != ly {
            proof {
                assert(lower_u(unit_views(a@))[i as int] != lower_u(unit_views(c@))[i as int]);
            }
            return false;
        }
        i = i + 1;
    }
    proof {
        assert(lower_u(unit_views(a@)) =~= lower_u(unit_views(c@)));
    }
    true
}

/// Finds a sub-block by key, executable form.
fn find_block_x(b: &Vec<u8>, off: usize, end: usize, key: &Vec<u16>) -> (r: Option<usize>)
    requires
        end <= b@.len(),
        end + 3 <= usize::MAX,
    ensures
        match r {
            Some(o) => find_block(b@, off as int, end as int, unit_views(key@)) == Some(o as int),
            None => find_block(b@, off as int, end as int, unit_views(key@)) is None,
        },
    decreases end - off,
{
    if end < 6 || off > end - 6 {
        return None;
    }
    let wl = read_u16(b, off) as usize;
    if wl < 8 || wl > end - off {
        return None;
    }
    let ke = match key_end_x(b, off + 6, off + wl) {
        Some(k) => k,
        None => {
            return None;
        },
    };
    proof {
        lemma_key_end_ok(b@, off + 6, off + wl as int);
    }
    let units = units_at_x(b, off + 6, ke);
    if units_eq_ci(&units, key) {
        return Some(off);
    }
    let next = align4_x(off + wl);
    if next > end {
        return None;
    }
    find_block_x(b, next, end, key)
}

/// The dotted version string out of the fixed file-version structure.
fn version_string_x(b: &Vec<u8>) -> (r: Option<String>)
    ensures
        opt_matches(r, version_string_spec(b@)),
{
    if b.len() < 8 {
        return None;
    }
    let wl = read_u16(b, 0) as usize;
    if wl < 8 || wl > b.len() {
        return None;
    }
    let ke = match key_end_x(b, 6, wl) {
        Some(k) => k,
        None => {
            return None;
        },
    };
    proof {
        lemma_key_end_ok(b@, 6, wl as int);
    }
    let vl = read_u16(b, 2) as usize;
    let vo = align4_x(ke + 2);
    if !(vl >= 52 && vo + 52 <= wl) {
        return None;
    }
    let sig = read_u32(b, vo);
    if sig != 0xFEEF04BD {
        return None;
    }
    let ms = read_u32(b, vo + 8);
    let ls = read_u32(b, vo + 12);
    let mut out: Vec<char> = Vec::new();
    push_dec(ms / 65536, &mut out);
    out.push('.');
    push_dec(ms % 65536, &mut out);
    out.push('.');
    push_dec(ls / 65536, &mut out);
    out.push('.');
    push_dec(ls % 65536, &mut out);
    proof {
        let q = fixed_version_spec(b@).unwrap();
        assert(out@ =~= dec_rep(q.0) + seq!['.'] + dec_rep(q.1) + seq!['.'] + dec_rep(q.2)
            + seq!['.'] + dec_rep(q.3));
    }
    Some(crate::strutil::chars_string(&out))
}

/// The language/codepage keys declared by the Translation variable, or
/// the conventional US-English key when none are.
#[verifier::rlimit(60)]
fn lcp_keys_x(b: &Vec<u8>) -> (r: Vec<Vec<u16>>)
    ensures
        r@.len() == lcp_keys_spec(b@).len(),
        forall|i: int|
            0 <= i < r@.len() ==> unit_views(#[trigger] r@[i]@) == lcp_keys_spec(b@)[i],
{
    let mut found: Option<Vec<u16>> = None;
    if b.len() >= 8 {
        let wl = read_u16(b, 0) as usize;
        if wl >= 8 && wl <= b.len() {
            match key_end_x(b, 6, wl) {
                None => {},
                Some(rke) => {
                    proof {
                        lemma_key_end_ok(b@, 6, wl as int);
                    }
                    let rvl = read_u16(b, 2) as usize;
                    let cs = align4_x(align4_x(rke + 2) + rvl);
                    let vkey: Vec<u16> = vec![86, 97, 114, 70, 105, 108, 101, 73, 110, 102, 111];
                    proof {
                        assert(unit_views(vkey@) =~= vfi_key());
                    }
                    match find_block_x(b, cs, wl, &vkey) {
                        None => {},
                        Some(vo) => {
                            proof {
                                lemma_find_block_ok(b@, cs as int, wl as int, vfi_key());
                            }
                            let vwl = read_u16(b, vo) as usize;
                            let vke = match key_end_x(b, vo + 6, vo + vwl) {
                                Some(k) => k,
                                None => {
                                    proof {
                                        assert(false);
                                    }
                                    return Vec::new();
                                },
                            };
                            proof {
                                lemma_key_end_ok(b@, vo + 6, vo + vwl as int);
                            }
                            let vcs = align4_x(vke + 2);
                            let tkey: Vec<u16> = vec![
                                84,
                                114,
                                97,
                                110,
                                115,
                                108,
                                97,
                                116,
                                105,
                                111,
                                110,
                            ];
                            proof {
                                assert(unit_views(tkey@) =~= trans_key());
                            }
                            match find_block_x(b, vcs, vo + vwl, &tkey) {
                                None => {},
                                Some(to) => {
                                    proof {
                                        lemma_find_block_ok(
                                            b@,
                                            vcs as int,
                                            (vo + vwl) as int,
                                            trans_key(),
                                        );
                                    }
                                    let twl = read_u16(b, to) as usize;
                                    let tvl = read_u16(b, to + 2) as usize;
                                    let tke = match key_end_x(b, to + 6, to + twl) {
                                        Some(k) => k,
                                        None => {
                                            proof {
                                                assert(false);
                                            }
                                            return Vec::new();
                                        },
                                    };
                                    proof {
                                        lemma_key_end_ok(b@, to + 6, to + twl as int);
                                    }
                                    let tvo = align4_x(tke + 2);
                                    if tvl >= 1 && tvo + tvl <= to + twl {
                                        let units = units_at_x(b, tvo, tvo + 4 * (tvl / 4));
                                        found = Some(units);
                                    }
                                },
                            }
                        },
                    }
                },
            }
        }
    }
    match found {
        Some(units) => {
            let ghost uspec = translations_spec(b@).unwrap();
            proof {
                assert(unit_views(units@) == uspec);
            }
            let npairs = units.len() / 2;
            let mut r: Vec<Vec<u16>> = Vec::new();
            let mut i: usize = 0;
            while i < npairs
                invariant
                    i <= npairs,
                    units@.len() <= usize::MAX,
                    npairs == units@.len() / 2,
                    unit_views(units@) == uspec,
                    uspec.len() == units@.len(),
                    forall|j: int| 0 <= j < units@.len() ==> uspec[j] == units@[j] as int,
                    r@.len() == i,
                    forall|j: int|
                        0 <= j < i ==> unit_views(#[trigger] r@[j]@) == hex4_u16(uspec[2 * j])
                            + hex4_u16(uspec[2 * j + 1]),
                decreases npairs - i,
            {
                proof {
                    assert(2 * i + 1 < units@.len());
                }
                let mut k: Vec<u16> = Vec::new();
                push_hex4(units[2 * i] as u32, &mut k);
                push_hex4(units[2 * i + 1] as u32, &mut k);
                proof {
                    assert(unit_views(k@) =~= hex4_u16(uspec[2 * i as int]) + hex4_u16(
                        uspec[2 * i + 1],
                    ));
                }
                r.push(k);
                i = i + 1;
            }
            proof {
                assert(lcp_keys_spec(b@).len() == uspec.len() / 2);
                assert forall|j: int| 0 <= j < r@.len() implies unit_views(#[trigger] r@[j]@)
                    == lcp_keys_spec(b@)[j] by {
                    assert(lcp_keys_spec(b@)[j] == hex4_u16(uspec[2 * j]) + hex4_u16(
                        uspec[2 * j + 1],
                    ));
                }
            }
            r
        },
        None => {
            proof {
                assert(translations_spec(b@) is None);
            }
            let d: Vec<u16> = vec![48, 52, 48, 57, 48, 52, 66, 48];
            let mut r: Vec<Vec<u16>> = Vec::new();
            r.push(d);
            proof {
                assert(unit_views(r@[0]@) =~= lcp_keys_spec(b@)[0]);
            }
            r
        },
    }
}

/// One string-table entry, decoded and trimmed, executable form.
fn string_value_x(b: &Vec<u8>, lcp: &Vec<u16>, name: &Vec<u16>) -> (r: Option<Vec<char>>)
    ensures
        match r {
            Some(v) => string_value_spec(b@, unit_views(lcp@), unit_views(name@)) == Some(v@),
            None => string_value_spec(b@, unit_views(lcp@), unit_views(name@)) is None,
        },
{
    if b.len() < 8 {
        return None;
    }
    let wl = read_u16(b, 0) as usize;
    if wl < 8 || wl > b.len() {
        return None;
    }
    let rke = match key_end_x(b, 6, wl) {
        Some(k) => k,
        None => {
            return None;
        },
    };
    proof {
        lemma_key_end_ok(b@, 6, wl as int);
    }
    let rvl = read_u16(b, 2) as usize;
    let cs = align4_x(align4_x(rke + 2) + rvl);
    let skey: Vec<u16> = vec![83, 116, 114, 105, 110, 103, 70, 105, 108, 101, 73, 110, 102, 111];
    proof {
        assert(unit_views(skey@) =~= sfi_key());
    }
    let so = match find_block_x(b, cs, wl, &skey) {
        Some(o) => o,
        None => {
            return None;
        },
    };
    proof {
        lemma_find_block_ok(b@, cs as int, wl as int, sfi_key());
    }
    let swl = read_u16(b, so) as usize;
    let ske = match key_end_x(b, so + 6, so + swl) {
        Some(k) => k,
        None => {
            proof {
                assert(false);
            }
            return None;
        },
    };
    proof {
        lemma_key_end_ok(b@, so + 6, so + swl as int);
    }
    let scs = align4_x(ske + 2);
    let to = match find_block_x(b, scs, so + swl, lcp) {
        Some(o) => o,
        None => {
            return None;
        },
    };
    proof {
        lemma_find_block_ok(b@, scs as int, (so + swl) as int, unit_views(lcp@));
    }
    let twl = read_u16(b, to) as usize;
    let tke = match key_end_x(b, to + 6, to + twl) {
        Some(k) => k,
        None => {
            proof {
                assert(false);
            }
            return None;
        },
    };
    proof {
        lemma_key_end_ok(b@, to + 6, to + twl as int);
    }
    let tcs = align4_x(tke + 2);
    let no = match find_block_x(b, tcs, to + twl, name) {
        Some(o) => o,
        None => {
            return None;
        },
    };
    proof {
        lemma_find_block_ok(b@, tcs as int, (to + twl) as int, unit_views(name@));
    }
    let nwl = read_u16(b, no) as usize;
    let nvl = read_u16(b, no + 2) as usize;
    let nke = match key_end_x(b, no + 6, no + nwl) {
        Some(k) => k,
        None => {
            proof {
                assert(false);
            }
            return None;
        },
    };
    proof {
        lemma_key_end_ok(b@, no + 6, no + nwl as int);
    }
    let nvo = align4_x(nke + 2);
    if !(nvl >= 1 && nvo + 2 * nvl <= no + nwl) {
        return None;
    }
    let units = units_at_x(b, nvo, nvo + 2 * (nvl - 1));
    let cs2 = match utf16_to_chars(&units) {
        Some(v) => v,
        None => {
            return None;
        },
    };
    let t = crate::names::trim_chars(&cs2);
    if t.len() > 0 {
        Some(t)
    } else {
        None
    }
}

proof fn lemma_lookup_skip(b: Seq<u8>, lcps: Seq<Seq<int>>, name: Seq<int>, i: int)
    requires
        0 <= i <= lcps.len(),
        forall|j: int| 0 <= j < i ==> string_value_spec(b, #[trigger] lcps[j], name) is None,
    ensures
        lookup_in(b, lcps, name) == lookup_in(b, lcps.skip(i), name),
    decreases i,
{
    if i > 0 {
        assert(string_value_spec(b, lcps[0], name) is None);
        lemma_lookup_skip(b, lcps.drop_first(), name, i - 1);
        assert(lcps.drop_first().skip(i - 1) =~= lcps.skip(i));
    } else {
        assert(lcps.skip(0) =~= lcps);
    }
}

/// The first language/codepage table yielding the entry, executable form.
fn lookup_x(b: &Vec<u8>, lcps: &Vec<Vec<u16>>, name: &Vec<u16>) -> (r: Option<Vec<char>>)
    requires
        lcps@.len() == lcp_keys_spec(b@).len(),
        forall|i: int|
            0 <= i < lcps@.len() ==> unit_views(#[trigger] lcps@[i]@) == lcp_keys_spec(b@)[i],
    ensures
        match r {
            Some(v) => lookup_in(b@, lcp_keys_spec(b@), unit_views(name@)) == Some(v@),
            None => lookup_in(b@, lcp_keys_spec(b@), unit_views(name@)) is None,
        },
{
    let ghost ls = lcp_keys_spec(b@);
    let mut i: usize = 0;
    while i < lcps.len()
        invariant
            i <= lcps@.len(),
            ls == lcp_keys_spec(b@),
            lcps@.len() == ls.len(),
            forall|j: int|
                0 <= j < lcps@.len() ==> unit_views(#[trigger] lcps@[j]@) == ls[j],
            forall|j: int|
                0 <= j < i ==> string_value_spec(b@, #[trigger] ls[j], unit_views(name@)) is None,
        decreases lcps.len() - i,
    {
        match string_value_x(b, &lcps[i], name) {
            Some(v) => {
                proof {
                    lemma_lookup_skip(b@, ls, unit_views(name@), i as int);
                    assert(ls.skip(i as int)[0] == ls[i as int]);
                }
                return Some(v);
            },
            None => {},
        }
        i = i + 1;
    }
    proof {
        lemma_lookup_skip(b@, ls, unit_views(name@), ls.len() as int);
        assert(ls.skip(ls.len() as int) =~= Seq::<Seq<int>>::empty());
    }
    None
}

/// Reads the declared name, manufacturer and version out of a version-
/// information resource block: the name from ProductName (falling back to
/// FileDescription), the manufacturer from CompanyName — each tried over
/// every declared language/codepage pair until one yields a non-empty
/// string — and the version from the fixed file-version structure.
pub fn parse_version_block(b: &Vec<u8>) -> (r: (Option<String>, Option<String>, Option<String>))
    ensures
        opt_matches(r.0, flat_name_spec(b@)),
        opt_matches(r.1, flat_manufacturer_spec(b@)),
        opt_matches(r.2, version_string_spec(b@)),
{
    let version = version_string_x(b);
    let lcps = lcp_keys_x(b);
    let pkey: Vec<u16> = vec![80, 114, 111, 100, 117, 99, 116, 78, 97, 109, 101];
    let ckey: Vec<u16> = vec![67, 111, 109, 112, 97, 110, 121, 78, 97, 109, 101];
    let fkey: Vec<u16> = vec![
        70,
        105,
        108,
        101,
        68,
        101,
        115,
        99,
        114,
        105,
        112,
        116,
        105,
        111,
        110,
    ];
    proof {
        assert(unit_views(pkey@) =~= product_name_key());
        assert(unit_views(ckey@) =~= company_name_key());
        assert(unit_views(fkey@) =~= file_description_key());
    }
    let product = lookup_x(b, &lcps, &pkey);
    let company = lookup_x(b, &lcps, &ckey);
    let name = match product {
        Some(v) => Some(crate::strutil::chars_string(&v)),
        None => match lookup_x(b, &lcps, &fkey) {
            Some(v) => Some(crate::strutil::chars_string(&v)),
            None => None,
        },
    };
    let manufacturer = match company {
        Some(v) => Some(crate::strutil::chars_string(&v)),
        None => None,
    };
    (name, manufacturer, version)
}

} // verus!
