//! Metadata extraction: one best-effort record per accepted entry. Each
//! format's declared metadata source is handed in as plain values (bundle
//! manifest bytes, version-resource bytes, sidecar text); parse failures
//! degrade to a fallback record named after the filename stem, never an
//! error.

use vstd::prelude::*;
use crate::detect::{stem_or_unknown, stem_spec};
use crate::resource::{
    flat_manufacturer_spec, flat_name_spec, parse_version_block, version_string_spec,
};
use crate::strutil::{chars_string, str_chars, trim_spec};
use crate::types::{Plugin, PluginModel, PluginType};

verus! {

/// What could be read for one accepted entry, before interpretation.
pub enum MetaInput {
    /// No metadata source was readable.
    Missing,
    /// The bytes of a bundle's `Contents/Info.plist`.
    BundleManifest(Vec<u8>),
    /// The bytes of a flat binary's version-information resource.
    BinaryResource(Vec<u8>),
    /// A VST3 bundle directory: the texts of its JSON sidecars in priority
    /// order, and the version resource of its nested architecture-specific
    /// binary, when one exists.
    Vst3Bundle { sidecars: Vec<String>, nested: Option<Vec<u8>> },
    /// An AAX bundle directory: the version resources of its candidate
    /// binaries, in priority order.
    AaxBundle { blocks: Vec<Vec<u8>> },
}

/// The view of an optional string.
pub open spec fn opt_view(o: Option<String>) -> Option<Seq<char>> {
    match o {
        Some(s) => Some(s@),
        None => None,
    }
}

/// The fallback display name: the filename stem, or "Unknown".
pub open spec fn default_name_spec(p: Seq<char>) -> Seq<char> {
    if stem_spec(p).len() > 0 {
        stem_spec(p)
    } else {
        "Unknown"@
    }
}

/// The record produced when no metadata source yielded anything.
pub open spec fn fallback_record_spec(p: Seq<char>, fmt: PluginType) -> PluginModel {
    PluginModel {
        name: default_name_spec(p),
        manufacturer: "Unknown"@,
        version: None,
        path: p,
        plugin_type: fmt,
    }
}

/// The record assembled from extracted fields: each missing (or empty)
/// field falls back — the name to the filename stem, the manufacturer to
/// "Unknown".
pub open spec fn record_from_fields_spec(
    p: Seq<char>,
    fmt: PluginType,
    name: Option<Seq<char>>,
    manufacturer: Option<Seq<char>>,
    version: Option<Seq<char>>,
) -> PluginModel {
    PluginModel {
        name: match name {
            Some(n) => if n.len() > 0 {
                n
            } else {
                default_name_spec(p)
            },
            None => default_name_spec(p),
        },
        manufacturer: match manufacturer {
            Some(m) => if m.len() > 0 {
                m
            } else {
                "Unknown"@
            },
            None => "Unknown"@,
        },
        version,
        path: p,
        plugin_type: fmt,
    }
}

/// The record read off a flat binary's version resource.
pub open spec fn flat_record_spec(p: Seq<char>, fmt: PluginType, b: Seq<u8>) -> PluginModel {
    record_from_fields_spec(
        p,
        fmt,
        flat_name_spec(b),
        flat_manufacturer_spec(b),
        version_string_spec(b),
    )
}

/// Assembles one record from extracted metadata fields, with the
/// documented fallbacks.
pub fn record_from_fields(
    path: &str,
    fmt: PluginType,
    name: Option<String>,
    manufacturer: Option<String>,
    version: Option<String>,
) -> (r: Plugin)
    ensures
        r@ == record_from_fields_spec(
            path@,
            fmt,
            opt_view(name),
            opt_view(manufacturer),
            opt_view(version),
        ),
{
    proof {
        reveal_strlit("Unknown");
    }
    let rname = match name {
        Some(n) => if !n.as_str().is_empty() {
            n
        } else {
            stem_or_unknown(path)
        },
        None => stem_or_unknown(path),
    };
    let rman = match manufacturer {
        Some(m) => if !m.as_str().is_empty() {
            m
        } else {
            <String as vstd::string::StringExecFns>::from_str("Unknown")
        },
        None => <String as vstd::string::StringExecFns>::from_str("Unknown"),
    };
    Plugin {
        name: rname,
        manufacturer: rman,
        version,
        path: <String as vstd::string::StringExecFns>::from_str(path),
        plugin_type: fmt,
    }
}

/// The fallback record for an entry without readable metadata.
pub fn fallback_record(path: &str, fmt: PluginType) -> (r: Plugin)
    ensures
        r@ == fallback_record_spec(path@, fmt),
{
    record_from_fields(path, fmt, None, None, None)
}

// --- the nesting gate on property-list documents ---

/// Documents that may nest deeper than this are refused before parsing:
/// the deserializer recurses once per nesting level, so a bound keeps a
/// crafted, deeply nested document from exhausting the stack.
pub const MAX_PLIST_NESTING: usize = 128;

/// The bytes open with the binary property-list magic `bplist00`.
pub open spec fn is_binary_plist(b: Seq<u8>) -> bool {
    b.len() >= 8 && b[0] == 0x62 && b[1] == 0x70 && b[2] == 0x6c && b[3] == 0x69 && b[4] == 0x73
        && b[5] == 0x74 && b[6] == 0x30 && b[7] == 0x30
}

/// A byte that can open one nesting level of a textual property list:
/// the `<` of an `<array>` or `<dict>` tag in the XML form, or a `(` or
/// `{` of the legacy text form.
pub open spec fn text_nest_token(b: Seq<u8>, i: int) -> bool {
    b[i] == 0x28 || b[i] == 0x7b || (b[i] == 0x3c && i + 1 < b.len() && (b[i + 1] == 0x61 || b[
        i + 1
    ] == 0x64))
}

/// A byte that can be the marker of a binary-plist container object
/// (arrays, sets and dictionaries mark with a high nibble of 0xA, 0xC
/// or 0xD).
pub open spec fn bin_nest_token(b: Seq<u8>, i: int) -> bool {
    0xA0 <= b[i] && b[i] <= 0xDF
}

/// How many of the first `i` bytes could open a nesting level.
pub open spec fn nest_tokens_upto(b: Seq<u8>, bin: bool, i: int) -> int
    decreases i,
{
    if i <= 0 {
        0
    } else {
        nest_tokens_upto(b, bin, i - 1) + (if (bin && bin_nest_token(b, i - 1)) || (!bin
            && text_nest_token(b, i - 1)) {
            1int
        } else {
            0int
        })
    }
}

/// An upper bound on how deep the document can nest. Every nesting level
/// of a parsed document consumes one counted byte: in the binary form
/// each nested container is a distinct object starting with a marker
/// byte (and the reader refuses cyclic references), in the XML form each
/// level needs its own `<array`/`<dict` open tag, and in the legacy text
/// form its own `(` or `{`.
pub open spec fn plist_nest_bound(b: Seq<u8>) -> int {
    nest_tokens_upto(b, is_binary_plist(b), b.len() as int)
}

/// Does the document pass the nesting gate?
fn plist_nesting_ok(bytes: &Vec<u8>) -> (r: bool)
    ensures
        r == (plist_nest_bound(bytes@) <= MAX_PLIST_NESTING),
{
    let n = bytes.len();
    let bin = n >= 8 && bytes[0] == 0x62 && bytes[1] == 0x70 && bytes[2] == 0x6c && bytes[3]
        == 0x69 && bytes[4] == 0x73 && bytes[5] == 0x74 && bytes[6] == 0x30 && bytes[7] == 0x30;
    let mut cnt: usize = 0;
    let mut i: usize = 0;
    while i < n
        invariant
            i <= n,
            n == bytes@.len(),
            cnt <= i,
            bin == is_binary_plist(bytes@),
            cnt == nest_tokens_upto(bytes@, bin, i as int),
        decreases n - i,
    {
        let hit = if bin {
            0xA0 <= bytes[i] && bytes[i] <= 0xDF
        } else {
            bytes[i] == 0x28 || bytes[i] == 0x7b || (bytes[i] == 0x3c && i + 1 < n && (bytes[i
                + 1] == 0x61 || bytes[i + 1] == 0x64))
        };
        if hit {
            cnt = cnt + 1;
        }
        i = i + 1;
    }
    cnt <= MAX_PLIST_NESTING
}

// --- trusted declarations for the property-list crate ---

#[verifier::external_type_specification]
#[verifier::external_body]
pub struct ExPlistValue(plist::Value);

/// A property-list value held as plain data: exactly what the extractor
/// reads — strings, arrays, dictionaries — with every other kind of
/// value collapsed to `Other`.
pub enum PlistNode {
    Str(String),
    List(Vec<PlistNode>),
    Dict(Vec<(String, PlistNode)>),
    Other,
}

/// The parsed form of a property-list document: a function of the bytes
/// alone (the parse is deterministic and the dictionary keeps its entry
/// order), `None` when the bytes parse as no property list.
pub uninterp spec fn plist_doc_of(b: Seq<u8>) -> Option<PlistNode>;

/// Relies on plist::from_bytes: parses a property list (binary, XML or
/// legacy text) out of raw bytes, converted by `plist_to_node`; the
/// result is named `plist_doc_of`. The crate's readers are iterative and
/// its binary reader refuses cyclic references, but the serde-side
/// deserializer recurses once per nesting level without a limit of its
/// own, so the caller keeps the document's possible nesting under
/// `MAX_PLIST_NESTING` (see `plist_nest_bound`).
#[verifier::external_body]
fn plist_document(bytes: &Vec<u8>) -> (r: Option<PlistNode>)
    requires
        plist_nest_bound(bytes@) <= MAX_PLIST_NESTING,
    ensures
        r == plist_doc_of(bytes@),
{
    match plist::from_bytes::<plist::Value>(bytes.as_slice()) {
        Ok(v) => Some(plist_to_node(&v)),
        Err(_) => None,
    }
}

/// The conversion step of `plist_document`, trusted with it as one unit.
/// Relies on plist::Value's public variants and plist::Dictionary::iter
/// (insertion order): copies each string, converts each array element and
/// each dictionary entry in order, and collapses every other variant to
/// `Other`. It recurses once per nesting level of the value, which stays
/// under `MAX_PLIST_NESTING` because the value came out of the gated
/// parse.
#[verifier::external_body]
fn plist_to_node(v: &plist::Value) -> (r: PlistNode) {
    match v {
        plist::Value::String(s) => PlistNode::Str(s.clone()),
        plist::Value::Array(a) => PlistNode::List(a.iter().map(plist_to_node).collect()),
        plist::Value::Dictionary(d) => PlistNode::Dict(
            d.iter().map(|(k, x)| (k.clone(), plist_to_node(x))).collect(),
        ),
        _ => PlistNode::Other,
    }
}

// --- trusted declarations for the JSON crate ---

#[verifier::external_type_specification]
#[verifier::external_body]
pub struct ExJsonValue(serde_json::Value);

/// The entries of a JSON object document, each string value kept and
/// every non-string value as `None`: a function of the text alone,
/// `None` when the text is no JSON object.
pub uninterp spec fn json_object_of(s: Seq<char>) -> Option<Seq<(String, Option<String>)>>;

/// Relies on serde_json::from_str, Value::as_object and Value::as_str:
/// parses the document (the deserializer bounds its own recursion depth,
/// so no gate is needed) and hands back the object's entries in order;
/// the result is named `json_object_of`.
#[verifier::external_body]
fn json_object(text: &str) -> (r: Option<Vec<(String, Option<String>)>>)
    ensures
        match r {
            Some(e) => json_object_of(text@) == Some(e@),
            None => json_object_of(text@) is None,
        },
{
    match serde_json::from_str::<serde_json::Value>(text) {
        Ok(v) => match v.as_object() {
            Some(map) => Some(
                map.iter().map(|(k, x)| (k.clone(), x.as_str().map(|t| t.to_string()))).collect(),
            ),
            None => None,
        },
        Err(_) => None,
    }
}

// --- exactly-specified interpretation of extracted strings ---

/// The index of the first occurrence of `c`, or -1.
pub open spec fn first_index_of(s: Seq<char>, c: char) -> int
    decreases s.len(),
{
    if s.len() == 0 {
        -1
    } else if s[0] == c {
        0
    } else if first_index_of(s.drop_first(), c) < 0 {
        -1
    } else {
        1 + first_index_of(s.drop_first(), c)
    }
}

/// What splitting a declared component name at its first colon yields:
/// the manufacturer before it and the plugin name after it, both trimmed.
pub open spec fn colon_split_spec(s: Seq<char>) -> Option<(Seq<char>, Seq<char>)> {
    let i = first_index_of(s, ':');
    if i < 0 {
        None
    } else {
        Some((trim_spec(s.take(i)), trim_spec(s.skip(i + 1))))
    }
}

/// The second dot-separated segment of a reverse-DNS identifier, when the
/// identifier has at least two segments.
pub open spec fn second_segment_spec(s: Seq<char>) -> Option<Seq<char>> {
    let i = first_index_of(s, '.');
    if i < 0 {
        None
    } else {
        let rest = s.skip(i + 1);
        let j = first_index_of(rest, '.');
        if j < 0 {
            Some(rest)
        } else {
            Some(rest.take(j))
        }
    }
}

proof fn lemma_first_index_at(s: Seq<char>, c: char, i: int)
    requires
        0 <= i <= s.len(),
        forall|j: int| 0 <= j < i ==> s[j] != c,
        i == s.len() || s[i] == c,
    ensures
        first_index_of(s, c) == if i == s.len() {
            -1
        } else {
            i
        },
    decreases i,
{
    if s.len() == 0 {
    } else if i == 0 {
    } else {
        assert(s[0] != c);
        lemma_first_index_at(s.drop_first(), c, i - 1);
    }
}

/// Finds the first occurrence of `c`.
fn find_char(v: &Vec<char>, c: char) -> (r: Option<usize>)
    ensures
        match r {
            Some(i) => i < v@.len() && first_index_of(v@, c) == i,
            None => first_index_of(v@, c) == -1,
        },
{
    let mut i: usize = 0;
    while i < v.len()
        invariant
            i <= v@.len(),
            forall|j: int| 0 <= j < i ==> v@[j] != c,
        decreases v.len() - i,
    {
        if v[i] == c {
            proof {
                lemma_first_index_at(v@, c, i as int);
            }
            return Some(i);
        }
        i = i + 1;
    }
    proof {
        lemma_first_index_at(v@, c, v@.len() as int);
    }
    None
}

/// Copies `v[from..to]`.
fn copy_range(v: &Vec<char>, from: usize, to: usize) -> (r: Vec<char>)
    requires
        from <= to <= v@.len(),
    ensures
        r@ == v@.subrange(from as int, to as int),
{
    let mut r: Vec<char> = Vec::new();
    let mut i: usize = from;
    while i < to
        invariant
            from <= i <= to <= v@.len(),
            r@ == v@.subrange(from as int, i as int),
        decreases to - i,
    {
        r.push(v[i]);
        proof {
            assert(v@.subrange(from as int, i + 1 as int) =~= v@.subrange(
                from as int,
                i as int,
            ).push(v@[i as int]));
        }
        i = i + 1;
    }
    r
}

/// Splits a declared component name of the shape `manufacturer: name` at
/// its first colon, trimming both sides.
pub fn split_component_name(s: &str) -> (r: Option<(String, String)>)
    ensures
        match r {
            Some((m, n)) => colon_split_spec(s@) == Some((m@, n@)),
            None => colon_split_spec(s@) is None,
        },
{
    let v = str_chars(s);
    match find_char(&v, ':') {
        None => None,
        Some(i) => {
            let n = v.len();
            let head = copy_range(&v, 0, i);
            let tail = copy_range(&v, i + 1, n);
            proof {
                assert(head@ =~= v@.take(i as int));
                assert(tail@ =~= v@.skip(i + 1));
            }
            let m = crate::names::trim_chars(&head);
            let n = crate::names::trim_chars(&tail);
            Some((chars_string(&m), chars_string(&n)))
        },
    }
}

/// The manufacturer implied by a reverse-DNS bundle identifier: its
/// second dot-separated segment, when it has one.
pub fn manufacturer_from_identifier(s: &str) -> (r: Option<String>)
    ensures
        match r {
            Some(m) => second_segment_spec(s@) == Some(m@),
            None => second_segment_spec(s@) is None,
        },
{
    let v = str_chars(s);
    match find_char(&v, '.') {
        None => None,
        Some(i) => {
            let n = v.len();
            let rest = copy_range(&v, i + 1, n);
            proof {
                assert(rest@ =~= v@.skip(i + 1));
            }
            match find_char(&rest, '.') {
                None => Some(chars_string(&rest)),
                Some(j) => {
                    let seg = copy_range(&rest, 0, j);
                    proof {
                        assert(seg@ =~= rest@.take(j as int));
                    }
                    Some(chars_string(&seg))
                },
            }
        },
    }
}

// --- exactly-specified reading of manifest and sidecar fields ---

/// The text behind a string node.
pub open spec fn node_string(n: PlistNode) -> Option<Seq<char>> {
    match n {
        PlistNode::Str(s) => Some(s@),
        _ => None,
    }
}

/// The first entry of a dictionary under the given key.
pub open spec fn dict_node_get(entries: Seq<(String, PlistNode)>, key: Seq<char>) -> Option<
    PlistNode,
>
    decreases entries.len(),
{
    if entries.len() == 0 {
        None
    } else if entries[0].0@ == key {
        Some(entries[0].1)
    } else {
        dict_node_get(entries.drop_first(), key)
    }
}

/// The declared audio-component name: the `name` string of the first
/// entry of the `AudioComponents` array.
pub open spec fn component_name_spec(root: Seq<(String, PlistNode)>) -> Option<Seq<char>> {
    match dict_node_get(root, "AudioComponents"@) {
        Some(PlistNode::List(items)) => if items@.len() > 0 {
            match items@[0] {
                PlistNode::Dict(e2) => match dict_node_get(e2@, "name"@) {
                    Some(v) => node_string(v),
                    None => None,
                },
                _ => None,
            }
        } else {
            None
        },
        _ => None,
    }
}

/// What a bundle manifest declares, field by field: the audio-component
/// descriptor's `manufacturer: name` pair first; then the name from
/// `CFBundleName`, falling back to `CFBundleDisplayName` only when the
/// key is absent; the manufacturer from the identifier's second
/// reverse-DNS segment; the version from `CFBundleShortVersionString`,
/// falling back to `CFBundleVersion`. `None` when the root is not a
/// dictionary.
pub open spec fn info_fields_spec(n: PlistNode) -> Option<
    (Option<Seq<char>>, Option<Seq<char>>, Option<Seq<char>>),
> {
    match n {
        PlistNode::Dict(entries) => {
            let root = entries@;
            let split = match component_name_spec(root) {
                Some(full) => colon_split_spec(full),
                None => None,
            };
            let name = match split {
                Some((mf, nm)) => Some(nm),
                None => match dict_node_get(root, "CFBundleName"@) {
                    Some(v) => node_string(v),
                    None => match dict_node_get(root, "CFBundleDisplayName"@) {
                        Some(v) => node_string(v),
                        None => None,
                    },
                },
            };
            let manufacturer = match split {
                Some((mf, nm)) => Some(mf),
                None => match dict_node_get(root, "CFBundleIdentifier"@) {
                    Some(v) => match node_string(v) {
                        Some(id) => second_segment_spec(id),
                        None => None,
                    },
                    None => None,
                },
            };
            let version = match dict_node_get(root, "CFBundleShortVersionString"@) {
                Some(v) => node_string(v),
                None => match dict_node_get(root, "CFBundleVersion"@) {
                    Some(v) => node_string(v),
                    None => None,
                },
            };
            Some((name, manufacturer, version))
        },
        _ => None,
    }
}

/// The views of an optional field triple.
pub open spec fn triple_view(t: (Option<String>, Option<String>, Option<String>)) -> (
    Option<Seq<char>>,
    Option<Seq<char>>,
    Option<Seq<char>>,
) {
    (opt_view(t.0), opt_view(t.1), opt_view(t.2))
}

proof fn lemma_dict_get_skip(entries: Seq<(String, PlistNode)>, key: Seq<char>, i: int)
    requires
        0 <= i <= entries.len(),
        forall|j: int| 0 <= j < i ==> (#[trigger] entries[j]).0@ != key,
    ensures
        dict_node_get(entries, key) == dict_node_get(entries.skip(i), key),
    decreases i,
{
    if i > 0 {
        assert(entries[0].0@ != key);
        lemma_dict_get_skip(entries.drop_first(), key, i - 1);
        assert(entries.drop_first().skip(i - 1) =~= entries.skip(i));
    } else {
        assert(entries.skip(0) =~= entries);
    }
}

/// Looks a key up in a dictionary node's entries.
fn dict_find<'a>(entries: &'a Vec<(String, PlistNode)>, key: &str) -> (r: Option<
    &'a PlistNode,
>)
    ensures
        match r {
            Some(v) => dict_node_get(entries@, key@) == Some(*v),
            None => dict_node_get(entries@, key@) is None,
        },
{
    let mut i: usize = 0;
    while i < entries.len()
        invariant
            i <= entries@.len(),
            forall|j: int| 0 <= j < i ==> (#[trigger] entries@[j]).0@ != key@,
        decreases entries.len() - i,
    {
        if crate::manager::str_eq(entries[i].0.as_str(), key) {
            proof {
                lemma_dict_get_skip(entries@, key@, i as int);
                assert(entries@.skip(i as int)[0] == entries@[i as int]);
            }
            return Some(&entries[i].1);
        }
        i = i + 1;
    }
    proof {
        lemma_dict_get_skip(entries@, key@, entries@.len() as int);
        assert(entries@.skip(entries@.len() as int) =~= Seq::<(String, PlistNode)>::empty());
    }
    None
}

/// The copied text of a string node.
fn node_str(n: &PlistNode) -> (r: Option<String>)
    ensures
        opt_view(r) == node_string(*n),
{
    match n {
        PlistNode::Str(s) => Some(s.clone()),
        _ => None,
    }
}

/// Reads the declared name, manufacturer and version off a converted
/// bundle manifest, exactly as `info_fields_spec` states.
pub fn info_from_node(n: &PlistNode) -> (r: Option<
    (Option<String>, Option<String>, Option<String>),
>)
    ensures
        match r {
            Some(t) => info_fields_spec(*n) == Some(triple_view(t)),
            None => info_fields_spec(*n) is None,
        },
{
    let entries = match n {
        PlistNode::Dict(entries) => entries,
        _ => {
            return None;
        },
    };
    let mut name: Option<String> = None;
    let mut manufacturer: Option<String> = None;
    match dict_find(entries, "AudioComponents") {
        Some(PlistNode::List(items)) => {
            if items.len() > 0 {
                match &items[0] {
                    PlistNode::Dict(e2) => match dict_find(e2, "name") {
                        Some(v) => match node_str(v) {
                            Some(full) => match split_component_name(full.as_str()) {
                                Some((m, nm)) => {
                                    manufacturer = Some(m);
                                    name = Some(nm);
                                },
                                None => {},
                            },
                            None => {},
                        },
                        None => {},
                    },
                    _ => {},
                }
            }
        },
        _ => {},
    }
    if name.is_none() {
        name = match dict_find(entries, "CFBundleName") {
            Some(v) => node_str(v),
            None => match dict_find(entries, "CFBundleDisplayName") {
                Some(v) => node_str(v),
                None => None,
            },
        };
    }
    if manufacturer.is_none() {
        manufacturer = match dict_find(entries, "CFBundleIdentifier") {
            Some(v) => match node_str(v) {
                Some(id) => manufacturer_from_identifier(id.as_str()),
                None => None,
            },
            None => None,
        };
    }
    let version = match dict_find(entries, "CFBundleShortVersionString") {
        Some(v) => node_str(v),
        None => match dict_find(entries, "CFBundleVersion") {
            Some(v) => node_str(v),
            None => None,
        },
    };
    Some((name, manufacturer, version))
}

/// An optional field triple carries exactly the given optional spec
/// triple.
pub open spec fn fields_match(
    r: Option<(Option<String>, Option<String>, Option<String>)>,
    s: Option<(Option<Seq<char>>, Option<Seq<char>>, Option<Seq<char>>)>,
) -> bool {
    match r {
        Some(t) => s == Some(triple_view(t)),
        None => s is None,
    }
}

/// What a bundle manifest's bytes declare: the fields of the parsed
/// document, `None` when the nesting gate, the parse or the dictionary
/// test refuses.
pub open spec fn info_of_doc(b: Seq<u8>) -> Option<
    (Option<Seq<char>>, Option<Seq<char>>, Option<Seq<char>>),
> {
    if plist_nest_bound(b) <= MAX_PLIST_NESTING {
        match plist_doc_of(b) {
            Some(n) => info_fields_spec(n),
            None => None,
        }
    } else {
        None
    }
}

/// Reads the declared fields out of a bundle manifest, exactly as
/// `info_of_doc` states: the document is refused by the nesting gate,
/// the parser or the dictionary test, or its fields are read off the
/// parsed document.
fn parse_info_plist(bytes: &Vec<u8>) -> (r: Option<
    (Option<String>, Option<String>, Option<String>),
>)
    ensures
        fields_match(r, info_of_doc(bytes@)),
{
    if !plist_nesting_ok(bytes) {
        return None;
    }
    let node = match plist_document(bytes) {
        Some(n) => n,
        None => {
            return None;
        },
    };
    info_from_node(&node)
}

/// The value under the first present of a JSON object's keys; the
/// entry's value even when it is not a string, matching a reader that
/// never falls through on a present key.
pub open spec fn assoc_get(entries: Seq<(String, Option<String>)>, key: Seq<char>) -> Option<
    Option<Seq<char>>,
>
    decreases entries.len(),
{
    if entries.len() == 0 {
        None
    } else if entries[0].0@ == key {
        Some(opt_view(entries[0].1))
    } else {
        assoc_get(entries.drop_first(), key)
    }
}

/// What a module-description sidecar object declares: the name under
/// `Name` or `name`, the vendor under `Vendor`, `vendor`, `Company` or
/// `company`, the version under `Version` or `version` — each key list
/// in order, a later key tried only when the earlier is absent — and
/// `Some` only when a name or a vendor string is declared.
pub open spec fn sidecar_fields_spec(entries: Seq<(String, Option<String>)>) -> Option<
    (Option<Seq<char>>, Option<Seq<char>>, Option<Seq<char>>),
> {
    let name = match assoc_get(entries, "Name"@) {
        Some(v) => v,
        None => match assoc_get(entries, "name"@) {
            Some(v) => v,
            None => None,
        },
    };
    let vendor = match assoc_get(entries, "Vendor"@) {
        Some(v) => v,
        None => match assoc_get(entries, "vendor"@) {
            Some(v) => v,
            None => match assoc_get(entries, "Company"@) {
                Some(v) => v,
                None => match assoc_get(entries, "company"@) {
                    Some(v) => v,
                    None => None,
                },
            },
        },
    };
    let version = match assoc_get(entries, "Version"@) {
        Some(v) => v,
        None => match assoc_get(entries, "version"@) {
            Some(v) => v,
            None => None,
        },
    };
    if name is Some || vendor is Some {
        Some((name, vendor, version))
    } else {
        None
    }
}

proof fn lemma_assoc_get_skip(entries: Seq<(String, Option<String>)>, key: Seq<char>, i: int)
    requires
        0 <= i <= entries.len(),
        forall|j: int| 0 <= j < i ==> (#[trigger] entries[j]).0@ != key,
    ensures
        assoc_get(entries, key) == assoc_get(entries.skip(i), key),
    decreases i,
{
    if i > 0 {
        assert(entries[0].0@ != key);
        lemma_assoc_get_skip(entries.drop_first(), key, i - 1);
        assert(entries.drop_first().skip(i - 1) =~= entries.skip(i));
    } else {
        assert(entries.skip(0) =~= entries);
    }
}

/// Looks a key up among a JSON object's converted entries.
fn assoc_find(entries: &Vec<(String, Option<String>)>, key: &str) -> (r: Option<Option<String>>)
    ensures
        match r {
            Some(v) => assoc_get(entries@, key@) == Some(opt_view(v)),
            None => assoc_get(entries@, key@) is None,
        },
{
    let mut i: usize = 0;
    while i < entries.len()
        invariant
            i <= entries@.len(),
            forall|j: int| 0 <= j < i ==> (#[trigger] entries@[j]).0@ != key@,
        decreases entries.len() - i,
    {
        if crate::manager::str_eq(entries[i].0.as_str(), key) {
            proof {
                lemma_assoc_get_skip(entries@, key@, i as int);
                assert(entries@.skip(i as int)[0] == entries@[i as int]);
            }
            let v = match &entries[i].1 {
                Some(t) => Some(t.clone()),
                None => None,
            };
            return Some(v);
        }
        i = i + 1;
    }
    proof {
        lemma_assoc_get_skip(entries@, key@, entries@.len() as int);
        assert(entries@.skip(entries@.len() as int) =~= Seq::<(String, Option<String>)>::empty());
    }
    None
}

/// Reads the sidecar fields off a converted JSON object, exactly as
/// `sidecar_fields_spec` states.
pub fn sidecar_from_fields(entries: &Vec<(String, Option<String>)>) -> (r: Option<
    (Option<String>, Option<String>, Option<String>),
>)
    ensures
        match r {
            Some(t) => sidecar_fields_spec(entries@) == Some(triple_view(t)),
            None => sidecar_fields_spec(entries@) is None,
        },
{
    let name = match assoc_find(entries, "Name") {
        Some(v) => v,
        None => match assoc_find(entries, "name") {
            Some(v) => v,
            None => None,
        },
    };
    let vendor = match assoc_find(entries, "Vendor") {
        Some(v) => v,
        None => match assoc_find(entries, "vendor") {
            Some(v) => v,
            None => match assoc_find(entries, "Company") {
                Some(v) => v,
                None => match assoc_find(entries, "company") {
                    Some(v) => v,
                    None => None,
                },
            },
        },
    };
    let version = match assoc_find(entries, "Version") {
        Some(v) => v,
        None => match assoc_find(entries, "version") {
            Some(v) => v,
            None => None,
        },
    };
    if name.is_some() || vendor.is_some() {
        Some((name, vendor, version))
    } else {
        None
    }
}

/// What one sidecar text declares: the fields of the parsed JSON
/// object, `None` when the text is no JSON object.
pub open spec fn sidecar_of_text(s: Seq<char>) -> Option<
    (Option<Seq<char>>, Option<Seq<char>>, Option<Seq<char>>),
> {
    match json_object_of(s) {
        Some(e) => sidecar_fields_spec(e),
        None => None,
    }
}

/// Reads name, vendor and version out of one sidecar text, exactly as
/// `sidecar_of_text` states.
fn parse_sidecar(text: &str) -> (r: Option<(Option<String>, Option<String>, Option<String>)>)
    ensures
        fields_match(r, sidecar_of_text(text@)),
{
    let entries = match json_object(text) {
        Some(e) => e,
        None => {
            return None;
        },
    };
    sidecar_from_fields(&entries)
}

// --- the per-format extractors ---

/// One record for an accepted VST2 entry.
pub fn parse_vst2_plugin(path: &str, meta: &MetaInput) -> (r: Plugin)
    ensures
        r@.path == path@,
        r@.plugin_type == PluginType::VST2,
        r@.name.len() > 0,
        r@.manufacturer.len() > 0,
        meta is Missing ==> r@ == fallback_record_spec(path@, PluginType::VST2),
        (*meta) matches MetaInput::BinaryResource(b) ==> r@ == flat_record_spec(
            path@,
            PluginType::VST2,
            b@,
        ),
        (*meta) matches MetaInput::BundleManifest(bytes) ==> r@ == (match info_of_doc(bytes@) {
            Some((n, m, v)) => record_from_fields_spec(path@, PluginType::VST2, n, m, v),
            None => fallback_record_spec(path@, PluginType::VST2),
        }),
{
    parse_single_source(path, PluginType::VST2, meta)
}

/// One record for an accepted Audio Unit entry.
pub fn parse_au_plugin(path: &str, meta: &MetaInput) -> (r: Plugin)
    ensures
        r@.path == path@,
        r@.plugin_type == PluginType::AU,
        r@.name.len() > 0,
        r@.manufacturer.len() > 0,
        meta is Missing ==> r@ == fallback_record_spec(path@, PluginType::AU),
        (*meta) matches MetaInput::BinaryResource(b) ==> r@ == flat_record_spec(
            path@,
            PluginType::AU,
            b@,
        ),
        (*meta) matches MetaInput::BundleManifest(bytes) ==> r@ == (match info_of_doc(bytes@) {
            Some((n, m, v)) => record_from_fields_spec(path@, PluginType::AU, n, m, v),
            None => fallback_record_spec(path@, PluginType::AU),
        }),
{
    parse_single_source(path, PluginType::AU, meta)
}

/// Shared body of the single-source formats: the manifest or resource is
/// read when present, anything else degrades to the fallback record.
fn parse_single_source(path: &str, fmt: PluginType, meta: &MetaInput) -> (r: Plugin)
    ensures
        r@.path == path@,
        r@.plugin_type == fmt,
        r@.name.len() > 0,
        r@.manufacturer.len() > 0,
        meta is Missing ==> r@ == fallback_record_spec(path@, fmt),
        (*meta) matches MetaInput::BinaryResource(b) ==> r@ == flat_record_spec(path@, fmt, b@),
        (*meta) matches MetaInput::BundleManifest(bytes) ==> r@ == (match info_of_doc(bytes@) {
            Some((n, m, v)) => record_from_fields_spec(path@, fmt, n, m, v),
            None => fallback_record_spec(path@, fmt),
        }),
{
    proof {
        reveal_strlit("Unknown");
    }
    match meta {
        MetaInput::BundleManifest(bytes) => match parse_info_plist(bytes) {
            Some((n, m, v)) => record_from_fields(path, fmt, n, m, v),
            None => fallback_record(path, fmt),
        },
        MetaInput::BinaryResource(bytes) => {
            let (n, m, v) = parse_version_block(bytes);
            record_from_fields(path, fmt, n, m, v)
        },
        _ => fallback_record(path, fmt),
    }
}

/// The first declared outcome of a list of tries, in order.
pub open spec fn first_some_spec(
    outs: Seq<Option<(Option<String>, Option<String>, Option<String>)>>,
) -> Option<(Option<String>, Option<String>, Option<String>)>
    decreases outs.len(),
{
    if outs.len() == 0 {
        None
    } else {
        match outs[0] {
            Some(t) => Some(t),
            None => first_some_spec(outs.drop_first()),
        }
    }
}

proof fn lemma_first_some_skip(
    outs: Seq<Option<(Option<String>, Option<String>, Option<String>)>>,
    i: int,
)
    requires
        0 <= i <= outs.len(),
        forall|j: int| 0 <= j < i ==> (#[trigger] outs[j]) is None,
    ensures
        first_some_spec(outs) == first_some_spec(outs.skip(i)),
    decreases i,
{
    if i > 0 {
        assert(outs[0] is None);
        lemma_first_some_skip(outs.drop_first(), i - 1);
        assert(outs.drop_first().skip(i - 1) =~= outs.skip(i));
    } else {
        assert(outs.skip(0) =~= outs);
    }
}

/// Selects the fields of the first sidecar that declared any: a failing
/// try falls through to the next, exactly as `first_some_spec` states.
pub fn first_declared(
    outs: Vec<Option<(Option<String>, Option<String>, Option<String>)>>,
) -> (r: Option<(Option<String>, Option<String>, Option<String>)>)
    ensures
        r == first_some_spec(outs@),
{
    let mut rest = outs;
    let ghost outs0 = rest@;
    let ghost mut i: int = 0;
    while rest.len() > 0
        invariant
            outs@ == outs0,
            0 <= i,
            i + rest@.len() == outs0.len(),
            forall|a: int| 0 <= a < rest@.len() ==> #[trigger] rest@[a] == outs0[i + a],
            forall|j: int| 0 <= j < i ==> (#[trigger] outs0[j]) is None,
        decreases rest.len(),
    {
        let ghost pre = rest@;
        let o = rest.remove(0);
        proof {
            assert(o == pre[0]);
            assert(pre[0] == outs0[i + 0]);
        }
        match o {
            Some(t) => {
                proof {
                    lemma_first_some_skip(outs0, i);
                    assert(outs0.skip(i)[0] == outs0[i + 0]);
                }
                return Some(t);
            },
            None => {},
        }
        proof {
            i = i + 1;
        }
    }
    proof {
        lemma_first_some_skip(outs0, outs0.len() as int);
        assert(outs0.skip(outs0.len() as int) =~= Seq::<
            Option<(Option<String>, Option<String>, Option<String>)>,
        >::empty());
    }
    None
}

/// The per-sidecar outcomes, in priority order: outcome `i` is what
/// sidecar `i` declares.
fn sidecar_outcomes(sidecars: &Vec<String>) -> (r: Vec<
    Option<(Option<String>, Option<String>, Option<String>)>,
>)
    ensures
        r@.len() == sidecars@.len(),
        forall|i: int|
            0 <= i < r@.len() ==> fields_match(
                #[trigger] r@[i],
                sidecar_of_text(sidecars@[i]@),
            ),
{
    let mut r: Vec<Option<(Option<String>, Option<String>, Option<String>)>> = Vec::new();
    let mut i: usize = 0;
    while i < sidecars.len()
        invariant
            i <= sidecars@.len(),
            r@.len() == i,
            forall|j: int|
                0 <= j < i ==> fields_match(#[trigger] r@[j], sidecar_of_text(sidecars@[j]@)),
        decreases sidecars.len() - i,
    {
        r.push(parse_sidecar(sidecars[i].as_str()));
        i = i + 1;
    }
    r
}

/// What each sidecar of a bundle declares, in priority order.
pub open spec fn sidecar_results(sidecars: Seq<String>) -> Seq<
    Option<(Option<Seq<char>>, Option<Seq<char>>, Option<Seq<char>>)>,
> {
    sidecars.map_values(|s: String| sidecar_of_text(s@))
}

/// The first declared field set, in order; a failing sidecar falls
/// through to the next.
pub open spec fn first_fields(
    outs: Seq<Option<(Option<Seq<char>>, Option<Seq<char>>, Option<Seq<char>>)>>,
) -> Option<(Option<Seq<char>>, Option<Seq<char>>, Option<Seq<char>>)>
    decreases outs.len(),
{
    if outs.len() == 0 {
        None
    } else {
        match outs[0] {
            Some(t) => Some(t),
            None => first_fields(outs.drop_first()),
        }
    }
}

/// The record a VST3 bundle directory yields: the first sidecar that
/// declares fields wins; with none, the nested architecture-specific
/// binary's version resource; with neither, the filename fallback.
pub open spec fn vst3_bundle_record_spec(
    p: Seq<char>,
    sidecars: Seq<String>,
    nested: Option<Vec<u8>>,
) -> PluginModel {
    match first_fields(sidecar_results(sidecars)) {
        Some((n, m, v)) => record_from_fields_spec(p, PluginType::VST3, n, m, v),
        None => match nested {
            Some(bb) => flat_record_spec(p, PluginType::VST3, bb@),
            None => fallback_record_spec(p, PluginType::VST3),
        },
    }
}

proof fn lemma_first_matches(
    outs: Seq<Option<(Option<String>, Option<String>, Option<String>)>>,
    specs: Seq<Option<(Option<Seq<char>>, Option<Seq<char>>, Option<Seq<char>>)>>,
)
    requires
        outs.len() == specs.len(),
        forall|i: int| 0 <= i < outs.len() ==> fields_match(#[trigger] outs[i], specs[i]),
    ensures
        fields_match(first_some_spec(outs), first_fields(specs)),
    decreases outs.len(),
{
    if outs.len() > 0 {
        assert(fields_match(outs[0], specs[0]));
        match outs[0] {
            Some(t) => {},
            None => {
                assert forall|i: int|
                    0 <= i < outs.drop_first().len() implies fields_match(
                    #[trigger] outs.drop_first()[i],
                    specs.drop_first()[i],
                ) by {
                    assert(outs.drop_first()[i] == outs[i + 1]);
                    assert(specs.drop_first()[i] == specs[i + 1]);
                }
                lemma_first_matches(outs.drop_first(), specs.drop_first());
            },
        }
    }
}

/// One record for an accepted VST3 entry. A flat entry carries its own
/// version resource; a bundle is read sidecar-first — the first sidecar
/// that declared fields wins, the others fall through — then through its
/// nested architecture-specific binary.
pub fn parse_vst3_plugin(path: &str, meta: &MetaInput) -> (r: Plugin)
    ensures
        r@.path == path@,
        r@.plugin_type == PluginType::VST3,
        r@.name.len() > 0,
        r@.manufacturer.len() > 0,
        meta is Missing ==> r@ == fallback_record_spec(path@, PluginType::VST3),
        (*meta) matches MetaInput::BinaryResource(b) ==> r@ == flat_record_spec(
            path@,
            PluginType::VST3,
            b@,
        ),
        (*meta) matches MetaInput::BundleManifest(bytes) ==> r@ == (match info_of_doc(bytes@) {
            Some((n, m, v)) => record_from_fields_spec(path@, PluginType::VST3, n, m, v),
            None => fallback_record_spec(path@, PluginType::VST3),
        }),
        (*meta) matches MetaInput::Vst3Bundle { sidecars, nested } ==> r@
            == vst3_bundle_record_spec(path@, sidecars@, nested),
{
    proof {
        reveal_strlit("Unknown");
    }
    match meta {
        MetaInput::Vst3Bundle { sidecars, nested } => {
            let outs = sidecar_outcomes(sidecars);
            proof {
                let specs = sidecar_results(sidecars@);
                assert(specs.len() == sidecars@.len());
                assert forall|i: int|
                    0 <= i < outs@.len() implies fields_match(
                    #[trigger] outs@[i],
                    specs[i],
                ) by {
                    assert(specs[i] == sidecar_of_text(sidecars@[i]@));
                }
                lemma_first_matches(outs@, specs);
            }
            match first_declared(outs) {
                Some((n, m, v)) => {
                    return record_from_fields(path, PluginType::VST3, n, m, v);
                },
                None => {},
            }
            match nested {
                Some(bytes) => {
                    let (n, m, v) = parse_version_block(bytes);
                    record_from_fields(path, PluginType::VST3, n, m, v)
                },
                None => fallback_record(path, PluginType::VST3),
            }
        },
        _ => parse_single_source(path, PluginType::VST3, meta),
    }
}

/// One record for an accepted AAX entry. A bundle is read through the
/// first of its candidate binaries that yielded a version resource.
pub fn parse_aax_plugin(path: &str, meta: &MetaInput) -> (r: Plugin)
    ensures
        r@.path == path@,
        r@.plugin_type == PluginType::AAX,
        r@.name.len() > 0,
        r@.manufacturer.len() > 0,
        meta is Missing ==> r@ == fallback_record_spec(path@, PluginType::AAX),
        (*meta) matches MetaInput::BinaryResource(b) ==> r@ == flat_record_spec(
            path@,
            PluginType::AAX,
            b@,
        ),
        (*meta) matches MetaInput::BundleManifest(bytes) ==> r@ == (match info_of_doc(bytes@) {
            Some((n, m, v)) => record_from_fields_spec(path@, PluginType::AAX, n, m, v),
            None => fallback_record_spec(path@, PluginType::AAX),
        }),
        (*meta) matches MetaInput::AaxBundle { blocks } ==> r@ == (if blocks@.len() > 0 {
            flat_record_spec(path@, PluginType::AAX, blocks@[0]@)
        } else {
            fallback_record_spec(path@, PluginType::AAX)
        }),
{
    proof {
        reveal_strlit("Unknown");
    }
    match meta {
        MetaInput::AaxBundle { blocks } => {
            if blocks.len() > 0 {
                let (n, m, v) = parse_version_block(&blocks[0]);
                record_from_fields(path, PluginType::AAX, n, m, v)
            } else {
                fallback_record(path, PluginType::AAX)
            }
        },
        _ => parse_single_source(path, PluginType::AAX, meta),
    }
}

} // verus!
