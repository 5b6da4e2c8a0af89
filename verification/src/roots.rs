//! Path resolution: the candidate installation roots per plugin format,
//! assembled from environment-reported locations, fixed well-known paths
//! and a registry override, then deduplicated.
//!
//! The environment itself (variables, home directory, registry) is read by
//! the caller and handed in as plain optional strings; absence of any
//! source contributes no paths and is never an error. Nothing here checks
//! that a candidate exists on disk.

use vstd::prelude::*;
use crate::detect::Platform;
use crate::manager::{contains_str, str_set, views_of};
use crate::scan::PluginScanner;
use crate::strutil::push_char;

verus! {

/// What the platform reports to the resolver: the program-files roots and
/// registry overrides on Windows, the home directory on macOS. A source
/// that could not be read is `None`.
pub struct PlatformEnv {
    pub platform: Platform,
    /// The 64-bit program-files root (`ProgramW6432`).
    pub program_files: Option<String>,
    /// The 32-bit program-files root (`ProgramFiles(x86)`).
    pub program_files_x86: Option<String>,
    /// The user's home directory.
    pub home_dir: Option<String>,
    /// The registry-declared VST2 directory (`SOFTWARE\VST`,
    /// `VSTPluginsPath`), if present and readable.
    pub vst2_registry_path: Option<String>,
    /// The registry-declared AAX directory (`SOFTWARE\Avid\Audio\Plug-Ins`,
    /// `InstallDir`), if present and readable.
    pub aax_registry_dir: Option<String>,
}

/// A base path joined with a relative part by the platform's separator.
pub open spec fn join_spec(a: Seq<char>, sep: char, b: Seq<char>) -> Seq<char> {
    a + seq![sep] + b
}

/// A path with its backslashes read as slashes: both separators name the
/// same directory tree, so candidates are compared in this form.
pub open spec fn sep_norm(s: Seq<char>) -> Seq<char> {
    s.map_values(
        |c: char|
            if c == '\\' {
                '/'
            } else {
                c
            },
    )
}

/// Some earlier candidate names the same directory, up to the separator
/// spelling.
pub open spec fn contains_norm(s: Seq<Seq<char>>, x: Seq<char>) -> bool {
    exists|i: int| 0 <= i < s.len() && sep_norm(#[trigger] s[i]) == sep_norm(x)
}

/// First-occurrence deduplication, comparing paths up to the separator
/// spelling.
pub open spec fn dedup_spec(s: Seq<Seq<char>>) -> Seq<Seq<char>>
    decreases s.len(),
{
    if s.len() == 0 {
        Seq::empty()
    } else {
        let d = dedup_spec(s.drop_last());
        if contains_norm(s.drop_last(), s.last()) {
            d
        } else {
            d.push(s.last())
        }
    }
}

/// The VST2 candidate roots, in source order: program-files locations,
/// fixed historical paths, then the registry override.
pub open spec fn vst2_candidates(env: &PlatformEnv) -> Seq<Seq<char>> {
    match env.platform {
        Platform::Windows => (match env.program_files {
            Some(pf) => seq![
                join_spec(pf@, '\\', "VstPlugins"@),
                join_spec(pf@, '\\', "Steinberg\\VstPlugins"@),
                join_spec(pf@, '\\', "Common Files\\VST2"@),
            ],
            None => Seq::empty(),
        }) + (match env.program_files_x86 {
            Some(pf) => seq![
                join_spec(pf@, '\\', "VstPlugins"@),
                join_spec(pf@, '\\', "Steinberg\\VstPlugins"@),
                join_spec(pf@, '\\', "Common Files\\VST2"@),
            ],
            None => Seq::empty(),
        }) + seq![
            "C:\\Program Files\\Common Files\\VST2"@,
            "C:\\Program Files (x86)\\Common Files\\VST2"@,
        ] + (match env.vst2_registry_path {
            Some(rp) => seq![rp@],
            None => Seq::empty(),
        }),
        Platform::MacOs => seq!["/Library/Audio/Plug-Ins/VST"@] + (match env.home_dir {
            Some(h) => seq![join_spec(h@, '/', "Library/Audio/Plug-Ins/VST"@)],
            None => Seq::empty(),
        }),
    }
}

/// The VST3 candidate roots.
pub open spec fn vst3_candidates(env: &PlatformEnv) -> Seq<Seq<char>> {
    match env.platform {
        Platform::Windows => (match env.program_files {
            Some(pf) => seq![join_spec(pf@, '\\', "Common Files\\VST3"@)],
            None => Seq::empty(),
        }) + (match env.program_files_x86 {
            Some(pf) => seq![join_spec(pf@, '\\', "Common Files\\VST3"@)],
            None => Seq::empty(),
        }),
        Platform::MacOs => seq!["/Library/Audio/Plug-Ins/VST3"@] + (match env.home_dir {
            Some(h) => seq![join_spec(h@, '/', "Library/Audio/Plug-Ins/VST3"@)],
            None => Seq::empty(),
        }),
    }
}

/// The AAX candidate roots.
pub open spec fn aax_candidates(env: &PlatformEnv) -> Seq<Seq<char>> {
    match env.platform {
        Platform::Windows => (match env.program_files {
            Some(pf) => seq![join_spec(pf@, '\\', "Common Files\\Avid\\Audio\\Plug-Ins"@)],
            None => Seq::empty(),
        }) + (match env.program_files_x86 {
            Some(pf) => seq![join_spec(pf@, '\\', "Common Files\\Avid\\Audio\\Plug-Ins"@)],
            None => Seq::empty(),
        }) + seq![
            "C:\\Program Files\\Common Files\\Avid\\Audio\\Plug-Ins"@,
            "C:\\Program Files (x86)\\Common Files\\Avid\\Audio\\Plug-Ins"@,
        ] + (match env.aax_registry_dir {
            Some(rp) => seq![rp@],
            None => Seq::empty(),
        }),
        Platform::MacOs => seq!["/Library/Application Support/Avid/Audio/Plug-Ins"@] + (
        match env.home_dir {
            Some(h) => seq![join_spec(h@, '/', "Library/Application Support/Avid/Audio/Plug-Ins"@)],
            None => Seq::empty(),
        }),
    }
}

/// The Audio Unit candidate roots; bundle-style platforms only.
pub open spec fn au_candidates(env: &PlatformEnv) -> Seq<Seq<char>> {
    match env.platform {
        Platform::MacOs => seq!["/Library/Audio/Plug-Ins/Components"@] + (match env.home_dir {
            Some(h) => seq![join_spec(h@, '/', "Library/Audio/Plug-Ins/Components"@)],
            None => Seq::empty(),
        }),
        Platform::Windows => Seq::empty(),
    }
}

/// Joins a base path and a relative part with the given separator.
fn join_path(base: &str, sep: char, rel: &str) -> (r: String)
    ensures
        r@ == join_spec(base@, sep, rel@),
{
    let mut s = <String as vstd::string::StringExecFns>::from_str(base);
    push_char(&mut s, sep);
    <String as vstd::string::StringExecFns>::append(&mut s, rel);
    proof {
        assert(base@.push(sep) + rel@ =~= join_spec(base@, sep, rel@));
    }
    s
}

/// The path with backslashes read as slashes, for comparison.
fn norm_seps(s: &str) -> (r: String)
    ensures
        r@ == sep_norm(s@),
{
    let chars = crate::strutil::str_chars(s);
    let mut out: Vec<char> = Vec::new();
    let mut i: usize = 0;
    while i < chars.len()
        invariant
            i <= chars@.len(),
            chars@ == s@,
            out@ == sep_norm(s@.subrange(0, i as int)),
        decreases chars.len() - i,
    {
        let c = chars[i];
        if c == '\\' {
            out.push('/');
        } else {
            out.push(c);
        }
        proof {
            assert(sep_norm(s@.subrange(0, i + 1 as int)) =~= sep_norm(
                s@.subrange(0, i as int),
            ).push(if s@[i as int] == '\\' {
                '/'
            } else {
                s@[i as int]
            }));
        }
        i = i + 1;
    }
    proof {
        assert(s@.subrange(0, s@.len() as int) =~= s@);
    }
    crate::strutil::chars_string(&out)
}

/// Keeps the first spelling of each distinct directory, comparing paths
/// up to the separator spelling.
fn dedup_strings(v: Vec<String>) -> (r: Vec<String>)
    ensures
        views_of(r@) == dedup_spec(views_of(v@)),
{
    let mut r: Vec<String> = Vec::new();
    let mut norms: Vec<String> = Vec::new();
    let mut i: usize = 0;
    while i < v.len()
        invariant
            i <= v@.len(),
            norms@.len() == i,
            forall|j: int| 0 <= j < i ==> (#[trigger] norms@[j])@ == sep_norm(v@[j]@),
            views_of(r@) == dedup_spec(views_of(v@).subrange(0, i as int)),
        decreases v.len() - i,
    {
        let ghost pre = views_of(v@).subrange(0, i as int);
        let ghost pre1 = views_of(v@).subrange(0, i + 1 as int);
        proof {
            assert(pre1 =~= pre.push(v@[i as int]@));
            assert(pre1.drop_last() =~= pre);
        }
        let nrm = norm_seps(v[i].as_str());
        let dup = contains_str(&norms, nrm.as_str());
        proof {
            if dup {
                let w = choose|w: int|
                    0 <= w < views_of(norms@).len() && views_of(norms@)[w] == nrm@;
                assert(sep_norm(pre[w]) == sep_norm(v@[i as int]@));
                assert(contains_norm(pre, v@[i as int]@));
            } else {
                if contains_norm(pre, v@[i as int]@) {
                    let w = choose|w: int|
                        0 <= w < pre.len() && sep_norm(#[trigger] pre[w]) == sep_norm(
                            v@[i as int]@,
                        );
                    assert(views_of(norms@)[w] == norms@[w]@);
                    assert(str_set(norms@).contains(nrm@));
                    assert(false);
                }
            }
        }
        if !dup {
            let ghost rpre = r@;
            r.push(v[i].clone());
            proof {
                assert(views_of(r@) =~= views_of(rpre).push(v@[i as int]@));
            }
        }
        norms.push(nrm);
        i = i + 1;
    }
    proof {
        assert(views_of(v@).subrange(0, views_of(v@).len() as int) =~= views_of(v@));
    }
    r
}

impl PluginScanner {
    /// The deduplicated VST2 candidate roots for the given environment.
    pub fn get_vst2_paths(&self, env: &PlatformEnv) -> (r: Vec<String>)
        ensures
            views_of(r@) == dedup_spec(vst2_candidates(env)),
    {
        let mut raw: Vec<String> = Vec::new();
        match env.platform {
            Platform::Windows => {
                match &env.program_files {
                    Some(pf) => {
                        raw.push(join_path(pf.as_str(), '\\', "VstPlugins"));
                        raw.push(join_path(pf.as_str(), '\\', "Steinberg\\VstPlugins"));
                        raw.push(join_path(pf.as_str(), '\\', "Common Files\\VST2"));
                    },
                    None => {},
                }
                match &env.program_files_x86 {
                    Some(pf) => {
                        raw.push(join_path(pf.as_str(), '\\', "VstPlugins"));
                        raw.push(join_path(pf.as_str(), '\\', "Steinberg\\VstPlugins"));
                        raw.push(join_path(pf.as_str(), '\\', "Common Files\\VST2"));
                    },
                    None => {},
                }
                raw.push(
                    <String as vstd::string::StringExecFns>::from_str(
                        "C:\\Program Files\\Common Files\\VST2",
                    ),
                );
                raw.push(
                    <String as vstd::string::StringExecFns>::from_str(
                        "C:\\Program Files (x86)\\Common Files\\VST2",
                    ),
                );
                match &env.vst2_registry_path {
                    Some(rp) => {
                        raw.push(rp.clone());
                    },
                    None => {},
                }
            },
            Platform::MacOs => {
                raw.push(
                    <String as vstd::string::StringExecFns>::from_str(
                        "/Library/Audio/Plug-Ins/VST",
                    ),
                );
                match &env.home_dir {
                    Some(h) => {
                        raw.push(join_path(h.as_str(), '/', "Library/Audio/Plug-Ins/VST"));
                    },
                    None => {},
                }
            },
        }
        proof {
            assert(views_of(raw@) =~= vst2_candidates(env));
        }
        dedup_strings(raw)
    }

    /// The deduplicated VST3 candidate roots.
    pub fn get_vst3_paths(&self, env: &PlatformEnv) -> (r: Vec<String>)
        ensures
            views_of(r@) == dedup_spec(vst3_candidates(env)),
    {
        let mut raw: Vec<String> = Vec::new();
        match env.platform {
            Platform::Windows => {
                match &env.program_files {
                    Some(pf) => {
                        raw.push(join_path(pf.as_str(), '\\', "Common Files\\VST3"));
                    },
                    None => {},
                }
                match &env.program_files_x86 {
                    Some(pf) => {
                        raw.push(join_path(pf.as_str(), '\\', "Common Files\\VST3"));
                    },
                    None => {},
                }
            },
            Platform::MacOs => {
                raw.push(
                    <String as vstd::string::StringExecFns>::from_str(
                        "/Library/Audio/Plug-Ins/VST3",
                    ),
                );
                match &env.home_dir {
                    Some(h) => {
                        raw.push(join_path(h.as_str(), '/', "Library/Audio/Plug-Ins/VST3"));
                    },
                    None => {},
                }
            },
        }
        proof {
            assert(views_of(raw@) =~= vst3_candidates(env));
        }
        dedup_strings(raw)
    }

    /// The deduplicated AAX candidate roots.
    pub fn get_aax_paths(&self, env: &PlatformEnv) -> (r: Vec<String>)
        ensures
            views_of(r@) == dedup_spec(aax_candidates(env)),
    {
        let mut raw: Vec<String> = Vec::new();
        match env.platform {
            Platform::Windows => {
                match &env.program_files {
                    Some(pf) => {
                        raw.push(join_path(pf.as_str(), '\\', "Common Files\\Avid\\Audio\\Plug-Ins"));
                    },
                    None => {},
                }
                match &env.program_files_x86 {
                    Some(pf) => {
                        raw.push(join_path(pf.as_str(), '\\', "Common Files\\Avid\\Audio\\Plug-Ins"));
                    },
                    None => {},
                }
                raw.push(
                    <String as vstd::string::StringExecFns>::from_str(
                        "C:\\Program Files\\Common Files\\Avid\\Audio\\Plug-Ins",
                    ),
                );
                raw.push(
                    <String as vstd::string::StringExecFns>::from_str(
                        "C:\\Program Files (x86)\\Common Files\\Avid\\Audio\\Plug-Ins",
                    ),
                );
                match &env.aax_registry_dir {
                    Some(rp) => {
                        raw.push(rp.clone());
                    },
                    None => {},
                }
            },
            Platform::MacOs => {
                raw.push(
                    <String as vstd::string::StringExecFns>::from_str(
                        "/Library/Application Support/Avid/Audio/Plug-Ins",
                    ),
                );
                match &env.home_dir {
                    Some(h) => {
                        raw.push(
                            join_path(h.as_str(), '/', "Library/Application Support/Avid/Audio/Plug-Ins"),
                        );
                    },
                    None => {},
                }
            },
        }
        proof {
            assert(views_of(raw@) =~= aax_candidates(env));
        }
        dedup_strings(raw)
    }

    /// The deduplicated Audio Unit candidate roots.
    pub fn get_au_paths(&self, env: &PlatformEnv) -> (r: Vec<String>)
        ensures
            views_of(r@) == dedup_spec(au_candidates(env)),
    {
        let mut raw: Vec<String> = Vec::new();
        match env.platform {
            Platform::MacOs => {
                raw.push(
                    <String as vstd::string::StringExecFns>::from_str(
                        "/Library/Audio/Plug-Ins/Components",
                    ),
                );
                match &env.home_dir {
                    Some(h) => {
                        raw.push(join_path(h.as_str(), '/', "Library/Audio/Plug-Ins/Components"));
                    },
                    None => {},
                }
            },
            Platform::Windows => {},
        }
        proof {
            assert(views_of(raw@) =~= au_candidates(env));
        }
        dedup_strings(raw)
    }
}

} // verus!
