//! The scanner core: walks' results come in as plain entries (path,
//! shape, depth, readable metadata), and each accepted entry yields
//! exactly one record. Traversal and file reading stay with the caller;
//! every acceptance decision and every record is made here.

use vstd::prelude::*;
use crate::detect::{accepts_entry, accepts_spec, Platform, MAX_SCAN_DEPTH};
use crate::extract::{
    fallback_record_spec, flat_record_spec, info_of_doc, parse_aax_plugin, parse_au_plugin,
    parse_vst2_plugin, parse_vst3_plugin, record_from_fields_spec, vst3_bundle_record_spec,
    MetaInput,
};
use crate::strutil::lemma_filter_push;
use crate::types::{Plugin, PluginModel, PluginType};

verus! {

/// One walked filesystem entry, with whatever metadata source the caller
/// could read for it.
pub struct FsEntry {
    /// The entry's path, kept verbatim: it becomes the record's identity.
    pub path: String,
    /// Nesting depth below the scanned root; the root itself is 0.
    pub depth: u64,
    pub is_dir: bool,
    pub is_file: bool,
    pub meta: MetaInput,
}

/// One scanned root: the format it was enumerated for and the entries the
/// walk yielded.
pub struct RootScan {
    pub platform: Platform,
    pub format: PluginType,
    pub entries: Vec<FsEntry>,
}

/// An entry is classified only within the depth bound, and by its
/// format's shape rule.
pub open spec fn entry_accepted(platform: Platform, fmt: PluginType, e: FsEntry) -> bool {
    e.depth <= MAX_SCAN_DEPTH && accepts_spec(platform, fmt, e.is_dir, e.is_file, e.path@)
}

/// The accepted entries of a walk, in walk order.
pub open spec fn accepted_of(platform: Platform, fmt: PluginType, es: Seq<FsEntry>) -> Seq<
    FsEntry,
> {
    es.filter(|e: FsEntry| entry_accepted(platform, fmt, e))
}

/// What every produced record promises of its source entry: the path is
/// kept verbatim, the format is the scanned one, the name and the
/// manufacturer are never empty, and each kind of metadata source is
/// pinned exactly — the fallback, the flat binary's version resource,
/// the bundle manifest's declared fields, and the bundle directories'
/// source order.
pub open spec fn record_matches(p: PluginModel, e: FsEntry, fmt: PluginType) -> bool {
    &&& p.path == e.path@
    &&& p.plugin_type == fmt
    &&& p.name.len() > 0
    &&& p.manufacturer.len() > 0
    &&& (e.meta is Missing ==> p == fallback_record_spec(e.path@, fmt))
    &&& (e.meta matches MetaInput::BinaryResource(b) ==> p == flat_record_spec(e.path@, fmt, b@))
    &&& (e.meta matches MetaInput::BundleManifest(bytes) ==> p == (match info_of_doc(bytes@) {
        Some((n, m, v)) => record_from_fields_spec(e.path@, fmt, n, m, v),
        None => fallback_record_spec(e.path@, fmt),
    }))
    &&& (fmt == PluginType::VST3 ==> (e.meta matches MetaInput::Vst3Bundle { sidecars, nested }
        ==> p == vst3_bundle_record_spec(e.path@, sidecars@, nested)))
    &&& (fmt == PluginType::AAX ==> (e.meta matches MetaInput::AaxBundle { blocks } ==> p == (
    if blocks@.len() > 0 {
        flat_record_spec(e.path@, fmt, blocks@[0]@)
    } else {
        fallback_record_spec(e.path@, fmt)
    })))
}

/// Some pair of the list holds an entry with the given path.
pub open spec fn pairs_contain_path(ps: Seq<(FsEntry, PluginType)>, p: Seq<char>) -> bool {
    exists|j: int| 0 <= j < ps.len() && (#[trigger] ps[j]).0.path@ == p
}

/// First-occurrence deduplication by entry path: a later pair whose path
/// already appeared is dropped, so the path is the identity key of one
/// scan result.
pub open spec fn dedup_pairs(ps: Seq<(FsEntry, PluginType)>) -> Seq<(FsEntry, PluginType)>
    decreases ps.len(),
{
    if ps.len() == 0 {
        Seq::empty()
    } else {
        let d = dedup_pairs(ps.drop_last());
        if pairs_contain_path(ps.drop_last(), ps.last().0.path@) {
            d
        } else {
            d.push(ps.last())
        }
    }
}

proof fn lemma_dedup_path_set(ps: Seq<(FsEntry, PluginType)>, p: Seq<char>)
    ensures
        pairs_contain_path(dedup_pairs(ps), p) == pairs_contain_path(ps, p),
    decreases ps.len(),
{
    if ps.len() > 0 {
        let dl = ps.drop_last();
        lemma_dedup_path_set(dl, p);
        let d = dedup_pairs(ps);
        if pairs_contain_path(d, p) {
            let j = choose|j: int| 0 <= j < d.len() && (#[trigger] d[j]).0.path@ == p;
            if j < dedup_pairs(dl).len() {
                assert(dedup_pairs(dl)[j].0.path@ == p);
            }
            assert(pairs_contain_path(ps, p) || pairs_contain_path(dl, p));
            if pairs_contain_path(dl, p) {
                let k = choose|k: int| 0 <= k < dl.len() && (#[trigger] dl[k]).0.path@ == p;
                assert(ps[k].0.path@ == p);
            }
        }
        if pairs_contain_path(ps, p) {
            let j = choose|j: int| 0 <= j < ps.len() && (#[trigger] ps[j]).0.path@ == p;
            if j < ps.len() - 1 {
                assert(dl[j].0.path@ == p);
                assert(pairs_contain_path(dl, p));
                let k = choose|k: int|
                    0 <= k < dedup_pairs(dl).len() && (#[trigger] dedup_pairs(dl)[k]).0.path@
                        == p;
                assert(d[k].0.path@ == p || dedup_pairs(dl)[k] == d[k]);
                assert(pairs_contain_path(d, p));
            } else {
                if pairs_contain_path(dl, ps.last().0.path@) {
                    let k = choose|k: int|
                        0 <= k < dedup_pairs(dl).len() && (#[trigger] dedup_pairs(dl)[k]).0.path@
                            == p;
                    assert(pairs_contain_path(d, p));
                } else {
                    assert(d[d.len() - 1].0.path@ == p);
                    assert(pairs_contain_path(d, p));
                }
            }
        }
    }
}

proof fn lemma_dedup_distinct(ps: Seq<(FsEntry, PluginType)>)
    ensures
        forall|i: int, j: int|
            0 <= i < j < dedup_pairs(ps).len() ==> (#[trigger] dedup_pairs(ps)[i]).0.path@ != (
            #[trigger] dedup_pairs(ps)[j]).0.path@,
    decreases ps.len(),
{
    if ps.len() > 0 {
        let dl = ps.drop_last();
        lemma_dedup_distinct(dl);
        let d = dedup_pairs(ps);
        if !pairs_contain_path(dl, ps.last().0.path@) {
            lemma_dedup_path_set(dl, ps.last().0.path@);
            assert forall|i: int, j: int|
                0 <= i < j < d.len() implies (#[trigger] d[i]).0.path@ != (
            #[trigger] d[j]).0.path@ by {
                if j == d.len() - 1 {
                    assert(d[i] == dedup_pairs(dl)[i]);
                    if d[i].0.path@ == ps.last().0.path@ {
                        assert(pairs_contain_path(dedup_pairs(dl), ps.last().0.path@));
                    }
                } else {
                    assert(d[i] == dedup_pairs(dl)[i]);
                    assert(d[j] == dedup_pairs(dl)[j]);
                }
            }
        }
    }
}

/// The accepted entries of all roots, each with its root's format.
pub open spec fn accepted_pairs(roots: Seq<RootScan>) -> Seq<(FsEntry, PluginType)>
    decreases roots.len(),
{
    if roots.len() == 0 {
        Seq::empty()
    } else {
        accepted_pairs(roots.drop_last()) + accepted_of(
            roots.last().platform,
            roots.last().format,
            roots.last().entries@,
        ).map_values(|e: FsEntry| (e, roots.last().format))
    }
}

/// Beyond the depth bound nothing is ever classified, whatever the
/// entry's name or shape.
pub proof fn lemma_depth_bound(platform: Platform, fmt: PluginType, e: FsEntry)
    requires
        e.depth > MAX_SCAN_DEPTH,
    ensures
        !entry_accepted(platform, fmt, e),
{
}

/// Stateless scanner facade.
pub struct PluginScanner;

impl PluginScanner {
    pub fn new() -> (r: Self) {
        PluginScanner
    }

    /// Classifies one walk's entries for a format and turns each accepted
    /// entry into a record, in walk order.
    #[verifier::rlimit(100)]
    pub fn scan_directory(
        &self,
        platform: Platform,
        fmt: PluginType,
        entries: &Vec<FsEntry>,
    ) -> (r: Vec<Plugin>)
        ensures
            r@.len() == accepted_of(platform, fmt, entries@).len(),
            forall|i: int|
                0 <= i < r@.len() ==> record_matches(
                    #[trigger] r@[i]@,
                    accepted_of(platform, fmt, entries@)[i],
                    fmt,
                ),
    {
        let mut r: Vec<Plugin> = Vec::new();
        let mut i: usize = 0;
        while i < entries.len()
            invariant
                i <= entries@.len(),
                r@.len() == accepted_of(platform, fmt, entries@.subrange(0, i as int)).len(),
                forall|k: int|
                    0 <= k < r@.len() ==> record_matches(
                        #[trigger] r@[k]@,
                        accepted_of(platform, fmt, entries@.subrange(0, i as int))[k],
                        fmt,
                    ),
            decreases entries.len() - i,
        {
            let e = &entries[i];
            proof {
                let pre = entries@.subrange(0, i as int);
                let pre1 = entries@.subrange(0, i + 1 as int);
                assert(pre1 =~= pre.push(entries@[i as int]));
                lemma_filter_push(
                    pre,
                    entries@[i as int],
                    |q: FsEntry| entry_accepted(platform, fmt, q),
                );
            }
            if e.depth <= MAX_SCAN_DEPTH && accepts_entry(
                platform,
                fmt,
                e.is_dir,
                e.is_file,
                e.path.as_str(),
            ) {
                let p = match fmt {
                    PluginType::VST2 => parse_vst2_plugin(e.path.as_str(), &e.meta),
                    PluginType::VST3 => parse_vst3_plugin(e.path.as_str(), &e.meta),
                    PluginType::AU => parse_au_plugin(e.path.as_str(), &e.meta),
                    PluginType::AAX => parse_aax_plugin(e.path.as_str(), &e.meta),
                };
                let ghost pre_r = r@;
                r.push(p);
                proof {
                    let pre = entries@.subrange(0, i as int);
                    let pre1 = entries@.subrange(0, i + 1 as int);
                    let accpre = accepted_of(platform, fmt, pre);
                    let acc1 = accepted_of(platform, fmt, pre1);
                    assert(acc1 == accpre.push(entries@[i as int]));
                    assert(record_matches(r@[r@.len() - 1]@, entries@[i as int], fmt));
                    assert forall|k: int| 0 <= k < r@.len() implies record_matches(
                        #[trigger] r@[k]@,
                        acc1[k],
                        fmt,
                    ) by {
                        if k < pre_r.len() {
                            assert(r@[k] == pre_r[k]);
                            assert(acc1[k] == accpre[k]);
                        } else {
                            assert(acc1[k] == entries@[i as int]);
                        }
                    }
                }
            }
            i = i + 1;
        }
        proof {
            assert(entries@.subrange(0, entries@.len() as int) =~= entries@);
        }
        r
    }

    /// One record per accepted entry across all scanned roots — roots in
    /// order, records in walk order within each root — with a later
    /// record dropped when an earlier one already carries its path: the
    /// path is the identity key of one scan result, also when candidate
    /// roots overlap or nest.
    #[verifier::rlimit(60)]
    pub fn scan_all_plugins(&self, roots: &Vec<RootScan>) -> (r: Vec<Plugin>)
        ensures
            r@.len() == dedup_pairs(accepted_pairs(roots@)).len(),
            forall|i: int|
                0 <= i < r@.len() ==> record_matches(
                    #[trigger] r@[i]@,
                    dedup_pairs(accepted_pairs(roots@))[i].0,
                    dedup_pairs(accepted_pairs(roots@))[i].1,
                ),
            forall|i: int, j: int| 0 <= i < j < r@.len() ==> r@[i]@.path != r@[j]@.path,
            roots@.len() == 0 ==> r@.len() == 0,
    {
        let mut r: Vec<Plugin> = Vec::new();
        let mut i: usize = 0;
        while i < roots.len()
            invariant
                i <= roots@.len(),
                r@.len() == accepted_pairs(roots@.subrange(0, i as int)).len(),
                forall|k: int|
                    0 <= k < r@.len() ==> record_matches(
                        #[trigger] r@[k]@,
                        accepted_pairs(roots@.subrange(0, i as int))[k].0,
                        accepted_pairs(roots@.subrange(0, i as int))[k].1,
                    ),
            decreases roots.len() - i,
        {
            let root = &roots[i];
            let mut part = self.scan_directory(root.platform, root.format, &root.entries);
            let ghost pre_r = r@;
            let ghost part_seq = part@;
            r.append(&mut part);
            proof {
                let pre = roots@.subrange(0, i as int);
                let pre1 = roots@.subrange(0, i + 1 as int);
                assert(pre1 =~= pre.push(roots@[i as int]));
                assert(pre1.drop_last() =~= pre);
                let acc = accepted_of(
                    roots@[i as int].platform,
                    roots@[i as int].format,
                    roots@[i as int].entries@,
                );
                let mapped = acc.map_values(|e: FsEntry| (e, roots@[i as int].format));
                assert(accepted_pairs(pre1) =~= accepted_pairs(pre) + mapped);
                assert forall|k: int| 0 <= k < r@.len() implies record_matches(
                    #[trigger] r@[k]@,
                    accepted_pairs(pre1)[k].0,
                    accepted_pairs(pre1)[k].1,
                ) by {
                    if k < pre_r.len() {
                        assert(r@[k] == pre_r[k]);
                        assert(accepted_pairs(pre1)[k] == accepted_pairs(pre)[k]);
                    } else {
                        assert(r@[k] == part_seq[k - pre_r.len()]);
                        assert(accepted_pairs(pre1)[k] == mapped[k - pre_r.len()]);
                        assert(mapped[k - pre_r.len()].0 == acc[k - pre_r.len()]);
                        assert(record_matches(
                            part_seq[k - pre_r.len()]@,
                            acc[k - pre_r.len()],
                            roots@[i as int].format,
                        ));
                    }
                }
            }
            i = i + 1;
        }
        proof {
            assert(roots@.subrange(0, roots@.len() as int) =~= roots@);
        }
        let raw = r;
        let ghost all = accepted_pairs(roots@);
        let mut out: Vec<Plugin> = Vec::new();
        let mut seen: Vec<String> = Vec::new();
        let mut j: usize = 0;
        while j < raw.len()
            invariant
                j <= raw@.len(),
                all == accepted_pairs(roots@),
                raw@.len() == all.len(),
                forall|k: int|
                    0 <= k < raw@.len() ==> record_matches(
                        #[trigger] raw@[k]@,
                        all[k].0,
                        all[k].1,
                    ),
                seen@.len() == j,
                forall|k: int| 0 <= k < j ==> (#[trigger] seen@[k])@ == all[k].0.path@,
                out@.len() == dedup_pairs(all.take(j as int)).len(),
                forall|k: int|
                    0 <= k < out@.len() ==> record_matches(
                        #[trigger] out@[k]@,
                        dedup_pairs(all.take(j as int))[k].0,
                        dedup_pairs(all.take(j as int))[k].1,
                    ),
            decreases raw.len() - j,
        {
            let p = raw[j].clone();
            let dup = crate::manager::contains_str(&seen, p.path.as_str());
            proof {
                let pre = all.take(j as int);
                let pre1 = all.take(j + 1 as int);
                assert(pre1 =~= pre.push(all[j as int]));
                assert(pre1.drop_last() =~= pre);
                assert(p@.path == all[j as int].0.path@);
                if dup {
                    let w = choose|w: int|
                        0 <= w < crate::manager::views_of(seen@).len()
                            && crate::manager::views_of(seen@)[w] == p.path@;
                    assert(seen@[w]@ == all[w].0.path@);
                    assert(pre[w].0.path@ == p@.path);
                    assert(pairs_contain_path(pre, all[j as int].0.path@));
                } else {
                    if pairs_contain_path(pre, all[j as int].0.path@) {
                        let w = choose|w: int|
                            0 <= w < pre.len() && (#[trigger] pre[w]).0.path@ == all[
                                j as int
                            ].0.path@;
                        assert(crate::manager::views_of(seen@)[w] == seen@[w]@);
                        assert(crate::manager::str_set(seen@).contains(p.path@));
                        assert(false);
                    }
                }
            }
            let path_copy = p.path.clone();
            if !dup {
                out.push(p);
            }
            seen.push(path_copy);
            j = j + 1;
        }
        proof {
            assert(all.take(all.len() as int) =~= all);
            lemma_dedup_distinct(all);
            assert forall|a: int, b: int|
                0 <= a < b < out@.len() implies out@[a]@.path != out@[b]@.path by {
                assert(out@[a]@.path == dedup_pairs(all)[a].0.path@);
                assert(out@[b]@.path == dedup_pairs(all)[b].0.path@);
            }
        }
        out
    }
}

/// The conventional VST3 module-description sidecars, in priority order,
/// relative to the bundle root.
pub fn vst3_sidecar_relpaths() -> (r: Vec<String>)
    ensures
        r@.len() == 2,
        r@[0]@ == "Contents/moduleinfo.json"@,
        r@[1]@ == "Contents/plugin.json"@,
{
    let mut r: Vec<String> = Vec::new();
    r.push(<String as vstd::string::StringExecFns>::from_str("Contents/moduleinfo.json"));
    r.push(<String as vstd::string::StringExecFns>::from_str("Contents/plugin.json"));
    r
}

/// Where a VST3 bundle keeps its architecture-specific binary, relative
/// to the bundle root: `Contents/<arch>/<file_name>`.
pub fn vst3_nested_relpath(file_name: &str, arch64: bool) -> (r: String)
    ensures
        arch64 ==> r@ == "Contents/x86_64-win/"@ + file_name@,
        !arch64 ==> r@ == "Contents/x86-win/"@ + file_name@,
{
    let mut s = if arch64 {
        <String as vstd::string::StringExecFns>::from_str("Contents/x86_64-win/")
    } else {
        <String as vstd::string::StringExecFns>::from_str("Contents/x86-win/")
    };
    <String as vstd::string::StringExecFns>::append(&mut s, file_name);
    s
}

/// Where an AAX bundle may keep its architecture-specific binary: one
/// candidate per conventional architecture folder, in priority order.
pub fn aax_candidate_relpaths(file_name: &str, arch64: bool) -> (r: Vec<String>)
    ensures
        arch64 ==> r@.len() == 3 && r@[0]@ == "Contents/x64/"@ + file_name@ && r@[1]@
            == "Contents/Win64/"@ + file_name@ && r@[2]@ == "Contents/x86_64/"@ + file_name@,
        !arch64 ==> r@.len() == 2 && r@[0]@ == "Contents/Win32/"@ + file_name@ && r@[1]@
            == "Contents/x86/"@ + file_name@,
{
    let mut r: Vec<String> = Vec::new();
    if arch64 {
        let mut a = <String as vstd::string::StringExecFns>::from_str("Contents/x64/");
        <String as vstd::string::StringExecFns>::append(&mut a, file_name);
        r.push(a);
        let mut b = <String as vstd::string::StringExecFns>::from_str("Contents/Win64/");
        <String as vstd::string::StringExecFns>::append(&mut b, file_name);
        r.push(b);
        let mut c = <String as vstd::string::StringExecFns>::from_str("Contents/x86_64/");
        <String as vstd::string::StringExecFns>::append(&mut c, file_name);
        r.push(c);
    } else {
        let mut a = <String as vstd::string::StringExecFns>::from_str("Contents/Win32/");
        <String as vstd::string::StringExecFns>::append(&mut a, file_name);
        r.push(a);
        let mut b = <String as vstd::string::StringExecFns>::from_str("Contents/x86/");
        <String as vstd::string::StringExecFns>::append(&mut b, file_name);
        r.push(b);
    }
    r
}

/// A file inside an AAX bundle's `Contents` tree that may be the real
/// binary: extension `aaxplugin`, `aax` or `dll`, case-insensitively.
pub fn is_aax_inner_binary(path: &str, is_file: bool) -> (r: bool)
    ensures
        r == (is_file && (crate::detect::ext_is_spec(
            path@,
            seq!['a', 'a', 'x', 'p', 'l', 'u', 'g', 'i', 'n'],
        ) || crate::detect::ext_is_spec(path@, seq!['a', 'a', 'x'])
            || crate::detect::ext_is_spec(path@, seq!['d', 'l', 'l']))),
{
    if !is_file {
        return false;
    }
    let p = crate::strutil::str_chars(path);
    let tb = vec!['a', 'a', 'x', 'p', 'l', 'u', 'g', 'i', 'n'];
    let tf = vec!['a', 'a', 'x'];
    let td = vec!['d', 'l', 'l'];
    proof {
        assert(tb@ =~= seq!['a', 'a', 'x', 'p', 'l', 'u', 'g', 'i', 'n']);
        assert(crate::strutil::lower_seq(tb@) =~= tb@);
        assert(tf@ =~= seq!['a', 'a', 'x']);
        assert(crate::strutil::lower_seq(tf@) =~= tf@);
        assert(td@ =~= seq!['d', 'l', 'l']);
        assert(crate::strutil::lower_seq(td@) =~= td@);
    }
    crate::detect::ext_is(&p, &tb) || crate::detect::ext_is(&p, &tf) || crate::detect::ext_is(
        &p,
        &td,
    )
}

} // verus!
