//! Format detection: path decomposition (file name, stem, extension) and
//! the per-format, per-platform acceptance rules for walked filesystem
//! entries.

use vstd::prelude::*;
use crate::strutil::{lower_char, lower_seq, str_chars, to_lower};
use crate::names::lower_chars;

verus! {

/// The platform whose packaging conventions a scan follows.
#[derive(Clone, Copy, Debug, PartialEq, Eq, Structural)]
pub enum Platform {
    MacOs,
    Windows,
}

/// Traversal never classifies entries nested deeper than this.
pub const MAX_SCAN_DEPTH: u64 = 5;

/// A path separator. Both the slash and the backslash count, so the same
/// rules serve both platforms' spellings.
pub open spec fn is_sep(c: char) -> bool {
    c == '/' || c == '\\'
}

/// The characters after the last separator: the entry's file name.
pub open spec fn file_name_spec(p: Seq<char>) -> Seq<char>
    decreases p.len(),
{
    if p.len() == 0 {
        p
    } else if is_sep(p[p.len() - 1]) {
        Seq::empty()
    } else {
        file_name_spec(p.drop_last()).push(p[p.len() - 1])
    }
}

/// The index of the last `.` of a file name, or -1 when it has none.
pub open spec fn last_dot(f: Seq<char>) -> int
    decreases f.len(),
{
    if f.len() == 0 {
        -1
    } else if f[f.len() - 1] == '.' {
        f.len() - 1
    } else {
        last_dot(f.drop_last())
    }
}

/// The extension of the path's file name: what follows the last dot,
/// provided that dot is not the name's first character.
pub open spec fn ext_spec(p: Seq<char>) -> Option<Seq<char>> {
    let f = file_name_spec(p);
    let i = last_dot(f);
    if i > 0 {
        Some(f.skip(i + 1))
    } else {
        None
    }
}

/// The stem of the path's file name: what precedes the last dot, or the
/// whole name when there is no extension.
pub open spec fn stem_spec(p: Seq<char>) -> Seq<char> {
    let f = file_name_spec(p);
    let i = last_dot(f);
    if i > 0 {
        f.take(i)
    } else {
        f
    }
}

/// The path's extension matches `t` case-insensitively (`t` lower-case).
pub open spec fn ext_is_spec(p: Seq<char>, t: Seq<char>) -> bool {
    match ext_spec(p) {
        Some(e) => lower_seq(e) == t,
        None => false,
    }
}

/// The name prefixes of OS-owned shared libraries that sit in the same
/// search directories as flat VST2 binaries and are never plugins.
pub open spec fn system_dll_prefixes() -> Seq<Seq<char>> {
    seq![
        seq!['m', 's', 'v', 'c', 'r'],
        seq!['m', 's', 'v', 'c', 'p'],
        seq!['v', 'c', 'r', 'u', 'n', 't', 'i', 'm', 'e'],
        seq!['a', 'p', 'i', '-', 'm', 's', '-'],
        seq!['k', 'e', 'r', 'n', 'e', 'l', '3', '2'],
        seq!['u', 's', 'e', 'r', '3', '2'],
        seq!['s', 'h', 'e', 'l', 'l', '3', '2'],
        seq!['o', 'l', 'e', '3', '2'],
        seq!['o', 'l', 'e', 'a', 'u', 't', '3', '2'],
        seq!['c', 'o', 'm', 'c', 't', 'l', '3', '2'],
        seq!['c', 'o', 'm', 'd', 'l', 'g', '3', '2'],
        seq!['g', 'd', 'i', '3', '2'],
        seq!['a', 'd', 'v', 'a', 'p', 'i', '3', '2'],
        seq!['w', 'i', 'n', 'm', 'm'],
        seq!['w', 's', 'o', 'c', 'k', '3', '2'],
        seq!['w', 's', '2', '_', '3', '2'],
        seq!['v', 'e', 'r', 's', 'i', 'o', 'n'],
        seq!['s', 'h', 'l', 'w', 'a', 'p', 'i'],
    ]
}

/// The lower-cased file name starts with a known system-library prefix.
pub open spec fn is_system_dll_name(p: Seq<char>) -> bool {
    exists|i: int|
        0 <= i < system_dll_prefixes().len() && (#[trigger] system_dll_prefixes()[i])
            .is_prefix_of(lower_seq(file_name_spec(p)))
}

/// A flat `.dll` that may be a VST2 plugin: the extension matches and the
/// file name carries no known system-library prefix.
pub open spec fn potential_vst2_spec(p: Seq<char>) -> bool {
    ext_is_spec(p, seq!['d', 'l', 'l']) && !is_system_dll_name(p)
}

/// The per-format, per-platform acceptance rule for one entry's shape.
pub open spec fn accepts_spec(
    platform: Platform,
    fmt: crate::types::PluginType,
    is_dir: bool,
    is_file: bool,
    p: Seq<char>,
) -> bool {
    match fmt {
        crate::types::PluginType::VST2 => match platform {
            Platform::MacOs => is_dir && ext_is_spec(p, seq!['v', 's', 't']),
            Platform::Windows => is_file && potential_vst2_spec(p),
        },
        crate::types::PluginType::VST3 => (is_dir || is_file) && ext_is_spec(
            p,
            seq!['v', 's', 't', '3'],
        ),
        crate::types::PluginType::AAX => match platform {
            Platform::MacOs => is_dir && ext_is_spec(
                p,
                seq!['a', 'a', 'x', 'p', 'l', 'u', 'g', 'i', 'n'],
            ),
            Platform::Windows => (is_dir && ext_is_spec(
                p,
                seq!['a', 'a', 'x', 'p', 'l', 'u', 'g', 'i', 'n'],
            )) || (is_file && ext_is_spec(p, seq!['a', 'a', 'x'])),
        },
        crate::types::PluginType::AU => match platform {
            Platform::MacOs => is_dir && ext_is_spec(
                p,
                seq!['c', 'o', 'm', 'p', 'o', 'n', 'e', 'n', 't'],
            ),
            Platform::Windows => false,
        },
    }
}

proof fn lemma_file_name_at(p: Seq<char>, cut: int)
    requires
        0 <= cut <= p.len(),
        forall|j: int| cut <= j < p.len() ==> !is_sep(p[j]),
        cut == 0 || is_sep(p[cut - 1]),
    ensures
        file_name_spec(p) == p.skip(cut),
    decreases p.len() - cut,
{
    if cut == p.len() {
        if p.len() > 0 {
            assert(is_sep(p[p.len() - 1]));
            assert(p.skip(cut) =~= Seq::<char>::empty());
        } else {
            assert(p.skip(0) =~= p);
        }
    } else {
        assert(!is_sep(p[p.len() - 1]));
        lemma_file_name_at(p.drop_last(), cut);
        assert(p.drop_last().skip(cut).push(p[p.len() - 1]) =~= p.skip(cut));
    }
}

proof fn lemma_last_dot_skip(f: Seq<char>, i: int)
    requires
        0 <= i <= f.len(),
        forall|j: int| i <= j < f.len() ==> f[j] != '.',
    ensures
        last_dot(f) == last_dot(f.take(i)),
    decreases f.len() - i,
{
    if i == f.len() {
        assert(f.take(i) =~= f);
    } else {
        assert(f[f.len() - 1] != '.');
        lemma_last_dot_skip(f.drop_last(), i);
        assert(f.drop_last().take(i) =~= f.take(i));
    }
}

/// The file name of a path, as characters.
pub fn file_name_chars(p: &Vec<char>) -> (r: Vec<char>)
    ensures
        r@ == file_name_spec(p@),
{
    let n = p.len();
    let mut cut: usize = n;
    while cut > 0 && !(p[cut - 1] == '/' || p[cut - 1] == '\\')
        invariant
            cut <= n,
            n == p@.len(),
            forall|j: int| cut <= j < n ==> !is_sep(p@[j]),
        decreases cut,
    {
        cut = cut - 1;
    }
    proof {
        lemma_file_name_at(p@, cut as int);
    }
    let mut r: Vec<char> = Vec::new();
    let mut i: usize = cut;
    while i < n
        invariant
            cut <= i <= n,
            n == p@.len(),
            r@ == p@.subrange(cut as int, i as int),
        decreases n - i,
    {
        r.push(p[i]);
        proof {
            assert(p@.subrange(cut as int, i + 1 as int) =~= p@.subrange(
                cut as int,
                i as int,
            ).push(p@[i as int]));
        }
        i = i + 1;
    }
    proof {
        assert(p@.subrange(cut as int, n as int) =~= p@.skip(cut as int));
    }
    r
}

/// The index just after the last dot of `f`, or 0 when `f` has no dot.
fn find_last_dot(f: &Vec<char>) -> (r: usize)
    ensures
        r <= f@.len(),
        r == 0 ==> last_dot(f@) == -1 || last_dot(f@) == 0,
        r > 0 ==> last_dot(f@) == r - 1,
{
    let n = f.len();
    let mut i: usize = n;
    while i > 0 && f[i - 1] != '.'
        invariant
            i <= n,
            n == f@.len(),
            forall|j: int| i <= j < n ==> f@[j] != '.',
        decreases i,
    {
        i = i - 1;
    }
    proof {
        lemma_last_dot_skip(f@, i as int);
        if i > 0 {
            assert(f@.take(i as int)[i - 1] == '.');
            assert(f@.take(i as int).len() == i);
        }
    }
    i
}

/// The extension of the path's file name, lower-cased; `None` when the
/// name has none.
pub fn extension_lower(p: &Vec<char>) -> (r: Option<Vec<char>>)
    ensures
        match r {
            Some(e) => ext_spec(p@) is Some && e@ == lower_seq(ext_spec(p@).unwrap()),
            None => ext_spec(p@) is None,
        },
{
    let f = file_name_chars(p);
    let d = find_last_dot(&f);
    if d > 1 {
        let mut e: Vec<char> = Vec::new();
        let mut i: usize = d;
        while i < f.len()
            invariant
                d <= i <= f@.len(),
                e@ == lower_seq(f@.subrange(d as int, i as int)),
            decreases f.len() - i,
        {
            e.push(to_lower(f[i]));
            proof {
                assert(lower_seq(f@.subrange(d as int, i + 1 as int)) =~= lower_seq(
                    f@.subrange(d as int, i as int),
                ).push(lower_char(f@[i as int])));
            }
            i = i + 1;
        }
        proof {
            assert(f@.subrange(d as int, f@.len() as int) =~= f@.skip(d as int));
        }
        Some(e)
    } else {
        None
    }
}

/// The stem of the path's file name: the name up to its last dot.
pub fn stem_chars(p: &Vec<char>) -> (r: Vec<char>)
    ensures
        r@ == stem_spec(p@),
{
    let f = file_name_chars(p);
    let d = find_last_dot(&f);
    if d > 1 {
        let mut r: Vec<char> = Vec::new();
        let mut i: usize = 0;
        while i < d - 1
            invariant
                d <= f@.len(),
                d >= 2,
                i <= d - 1,
                r@ == f@.subrange(0, i as int),
            decreases d - i,
        {
            r.push(f[i]);
            proof {
                assert(f@.subrange(0, i + 1 as int) =~= f@.subrange(0, i as int).push(
                    f@[i as int],
                ));
            }
            i = i + 1;
        }
        proof {
            assert(f@.subrange(0, d - 1 as int) =~= f@.take(d - 1 as int));
        }
        r
    } else {
        f
    }
}

/// Does the path's extension match `t` (`t` must be lower-case)?
pub fn ext_is(p: &Vec<char>, t: &Vec<char>) -> (r: bool)
    requires
        t@ == lower_seq(t@),
    ensures
        r == ext_is_spec(p@, t@),
{
    match extension_lower(p) {
        Some(e) => crate::strutil::chars_eq(&e, t),
        None => false,
    }
}

/// Does `pre` start `v`?
fn starts_with(v: &Vec<char>, pre: &Vec<char>) -> (r: bool)
    ensures
        r == pre@.is_prefix_of(v@),
{
    if pre.len() > v.len() {
        return false;
    }
    let mut i: usize = 0;
    while i < pre.len()
        invariant
            i <= pre@.len() <= v@.len(),
            forall|j: int| 0 <= j < i ==> pre@[j] == v@[j],
        decreases pre.len() - i,
    {
        if pre[i] != v[i] {
            proof {
                assert(!pre@.is_prefix_of(v@));
            }
            return false;
        }
        i = i + 1;
    }
    proof {
        assert(pre@ =~= v@.subrange(0, pre@.len() as int));
    }
    true
}

/// Is the lower-cased file name prefixed by a known system-library name?
fn has_system_prefix(p: &Vec<char>) -> (r: bool)
    ensures
        r == is_system_dll_name(p@),
{
    let name = lower_chars(&file_name_chars(p));
    proof {
        assert(name@ == lower_seq(file_name_spec(p@)));
    }
    let prefixes: Vec<Vec<char>> = vec![
        vec!['m', 's', 'v', 'c', 'r'],
        vec!['m', 's', 'v', 'c', 'p'],
        vec!['v', 'c', 'r', 'u', 'n', 't', 'i', 'm', 'e'],
        vec!['a', 'p', 'i', '-', 'm', 's', '-'],
        vec!['k', 'e', 'r', 'n', 'e', 'l', '3', '2'],
        vec!['u', 's', 'e', 'r', '3', '2'],
        vec!['s', 'h', 'e', 'l', 'l', '3', '2'],
        vec!['o', 'l', 'e', '3', '2'],
        vec!['o', 'l', 'e', 'a', 'u', 't', '3', '2'],
        vec!['c', 'o', 'm', 'c', 't', 'l', '3', '2'],
        vec!['c', 'o', 'm', 'd', 'l', 'g', '3', '2'],
        vec!['g', 'd', 'i', '3', '2'],
        vec!['a', 'd', 'v', 'a', 'p', 'i', '3', '2'],
        vec!['w', 'i', 'n', 'm', 'm'],
        vec!['w', 's', 'o', 'c', 'k', '3', '2'],
        vec!['w', 's', '2', '_', '3', '2'],
        vec!['v', 'e', 'r', 's', 'i', 'o', 'n'],
        vec!['s', 'h', 'l', 'w', 'a', 'p', 'i'],
    ];
    proof {
        assert(prefixes@.len() == system_dll_prefixes().len());
        assert forall|i: int|
            0 <= i < prefixes@.len() implies #[trigger] prefixes@[i]@ == system_dll_prefixes()[i] by {
            assert(prefixes@[i]@ =~= system_dll_prefixes()[i]);
        }
    }
    let mut i: usize = 0;
    while i < prefixes.len()
        invariant
            i <= prefixes@.len(),
            name@ == lower_seq(file_name_spec(p@)),
            prefixes@.len() == system_dll_prefixes().len(),
            forall|k: int|
                0 <= k < prefixes@.len() ==> #[trigger] prefixes@[k]@ == system_dll_prefixes()[k],
            forall|k: int|
                0 <= k < i ==> !(#[trigger] system_dll_prefixes()[k]).is_prefix_of(name@),
        decreases prefixes.len() - i,
    {
        if starts_with(&name, &prefixes[i]) {
            return true;
        }
        i = i + 1;
    }
    false
}

/// A flat `.dll` that may be a VST2 plugin rather than an OS-owned shared
/// library sitting in the same search directory.
pub fn is_potential_vst2_file(path: &str) -> (r: bool)
    ensures
        r == potential_vst2_spec(path@),
{
    let p = str_chars(path);
    let dll = vec!['d', 'l', 'l'];
    proof {
        assert(dll@ =~= seq!['d', 'l', 'l']);
        assert(lower_seq(dll@) =~= dll@);
    }
    if !ext_is(&p, &dll) {
        return false;
    }
    !has_system_prefix(&p)
}

/// One format's acceptance rule, executable form.
pub fn accepts_entry(
    platform: Platform,
    fmt: crate::types::PluginType,
    is_dir: bool,
    is_file: bool,
    path: &str,
) -> (r: bool)
    ensures
        r == accepts_spec(platform, fmt, is_dir, is_file, path@),
{
    let p = str_chars(path);
    match fmt {
        crate::types::PluginType::VST2 => match platform {
            Platform::MacOs => {
                let t = vec!['v', 's', 't'];
                proof {
                    assert(t@ =~= seq!['v', 's', 't']);
                    assert(lower_seq(t@) =~= t@);
                }
                is_dir && ext_is(&p, &t)
            },
            Platform::Windows => is_file && is_potential_vst2_file(path),
        },
        crate::types::PluginType::VST3 => {
            let t = vec!['v', 's', 't', '3'];
            proof {
                assert(t@ =~= seq!['v', 's', 't', '3']);
                assert(lower_seq(t@) =~= t@);
            }
            (is_dir || is_file) && ext_is(&p, &t)
        },
        crate::types::PluginType::AAX => {
            let tb = vec!['a', 'a', 'x', 'p', 'l', 'u', 'g', 'i', 'n'];
            proof {
                assert(tb@ =~= seq!['a', 'a', 'x', 'p', 'l', 'u', 'g', 'i', 'n']);
                assert(lower_seq(tb@) =~= tb@);
            }
            match platform {
                Platform::MacOs => is_dir && ext_is(&p, &tb),
                Platform::Windows => {
                    let tf = vec!['a', 'a', 'x'];
                    proof {
                        assert(tf@ =~= seq!['a', 'a', 'x']);
                        assert(lower_seq(tf@) =~= tf@);
                    }
                    (is_dir && ext_is(&p, &tb)) || (is_file && ext_is(&p, &tf))
                },
            }
        },
        crate::types::PluginType::AU => match platform {
            Platform::MacOs => {
                let t = vec!['c', 'o', 'm', 'p', 'o', 'n', 'e', 'n', 't'];
                proof {
                    assert(t@ =~= seq!['c', 'o', 'm', 'p', 'o', 'n', 'e', 'n', 't']);
                    assert(lower_seq(t@) =~= t@);
                }
                is_dir && ext_is(&p, &t)
            },
            Platform::Windows => false,
        },
    }
}

/// The file-name stem of a path, or "Unknown" when it is empty: the
/// fallback display name of a record.
pub fn stem_or_unknown(path: &str) -> (r: String)
    ensures
        r@ == if stem_spec(path@).len() > 0 {
            stem_spec(path@)
        } else {
            "Unknown"@
        },
{
    let p = str_chars(path);
    let s = stem_chars(&p);
    if s.len() > 0 {
        crate::strutil::chars_string(&s)
    } else {
        <String as vstd::string::StringExecFns>::from_str("Unknown")
    }
}

} // verus!
