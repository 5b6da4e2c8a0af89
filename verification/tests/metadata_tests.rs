use plugin_inventory::parse_aax_plugin;
use plugin_inventory::parse_au_plugin;
use plugin_inventory::parse_vst2_plugin;
use plugin_inventory::parse_vst3_plugin;
use plugin_inventory::MetaInput;
use plugin_inventory::PluginType;

fn p16(v: &mut Vec<u8>, x: u16) {
    v.push((x & 0xff) as u8);
    v.push((x >> 8) as u8);
}

fn p32(v: &mut Vec<u8>, x: u32) {
    p16(v, (x & 0xffff) as u16);
    p16(v, (x >> 16) as u16);
}

fn pkey(v: &mut Vec<u8>, s: &str) {
    for c in s.chars() {
        p16(v, c as u16);
    }
    p16(v, 0);
}

fn pad4(v: &mut Vec<u8>) {
    while v.len() % 4 != 0 {
        v.push(0);
    }
}

fn patch16(v: &mut Vec<u8>, off: usize, x: u16) {
    v[off] = (x & 0xff) as u8;
    v[off + 1] = (x >> 8) as u8;
}

/// A minimal well-formed version-information resource with the given
/// file-version words: CompanyName "Acme Corp", ProductName "SuperVerb",
/// one US-English translation entry.
fn version_block_with(version_ms: u32, version_ls: u32) -> Vec<u8> {
    let mut b: Vec<u8> = Vec::new();
    p16(&mut b, 0); // root length, patched last
    p16(&mut b, 52);
    p16(&mut b, 0);
    pkey(&mut b, "VS_VERSION_INFO");
    pad4(&mut b);
    p32(&mut b, 0xFEEF04BD);
    p32(&mut b, 0x00010000);
    p32(&mut b, version_ms);
    p32(&mut b, version_ls);
    for _ in 0..9 {
        p32(&mut b, 0);
    }
    let sfi = b.len();
    p16(&mut b, 0);
    p16(&mut b, 0);
    p16(&mut b, 1);
    pkey(&mut b, "StringFileInfo");
    pad4(&mut b);
    let st = b.len();
    p16(&mut b, 0);
    p16(&mut b, 0);
    p16(&mut b, 1);
    pkey(&mut b, "040904B0");
    pad4(&mut b);
    let s1 = b.len();
    p16(&mut b, 0);
    p16(&mut b, 10); // "Acme Corp" plus its terminator, in units
    p16(&mut b, 1);
    pkey(&mut b, "CompanyName");
    pad4(&mut b);
    pkey(&mut b, "Acme Corp");
    let s1_len = (b.len() - s1) as u16;
    patch16(&mut b, s1, s1_len);
    pad4(&mut b);
    let s2 = b.len();
    p16(&mut b, 0);
    p16(&mut b, 10);
    p16(&mut b, 1);
    pkey(&mut b, "ProductName");
    pad4(&mut b);
    pkey(&mut b, "SuperVerb");
    let s2_len = (b.len() - s2) as u16;
    patch16(&mut b, s2, s2_len);
    pad4(&mut b);
    let st_len = (b.len() - st) as u16;
    patch16(&mut b, st, st_len);
    let sfi_len = (b.len() - sfi) as u16;
    patch16(&mut b, sfi, sfi_len);
    pad4(&mut b);
    let vfi = b.len();
    p16(&mut b, 0);
    p16(&mut b, 0);
    p16(&mut b, 1);
    pkey(&mut b, "VarFileInfo");
    pad4(&mut b);
    let tr = b.len();
    p16(&mut b, 0);
    p16(&mut b, 4);
    p16(&mut b, 0);
    pkey(&mut b, "Translation");
    pad4(&mut b);
    p16(&mut b, 0x0409);
    p16(&mut b, 0x04B0);
    let tr_len = (b.len() - tr) as u16;
    patch16(&mut b, tr, tr_len);
    let vfi_len = (b.len() - vfi) as u16;
    patch16(&mut b, vfi, vfi_len);
    let total = b.len() as u16;
    patch16(&mut b, 0, total);
    b
}

/// File version 1.2.3.4.
fn sample_version_block() -> Vec<u8> {
    version_block_with(0x00010002, 0x00030004)
}

#[test]
fn version_digits_are_decimal_without_leading_zeros() {
    let block = version_block_with(0xFFFF_0000, 0x000A_0100);
    let p = parse_vst2_plugin("C:/VstPlugins/big.dll", &MetaInput::BinaryResource(block));
    assert_eq!(p.version, Some("65535.0.10.256".to_string()));
}

#[test]
fn version_resource_yields_all_fields() {
    let block = sample_version_block();
    let p = parse_vst2_plugin("C:/VstPlugins/verb.dll", &MetaInput::BinaryResource(block));
    assert_eq!(p.name, "SuperVerb");
    assert_eq!(p.manufacturer, "Acme Corp");
    assert_eq!(p.version, Some("1.2.3.4".to_string()));
    assert_eq!(p.path, "C:/VstPlugins/verb.dll");
    assert_eq!(p.plugin_type, PluginType::VST2);
}

#[test]
fn garbage_bytes_degrade_to_fallback() {
    let block = vec![0u8, 1, 2, 3, 4, 5, 6, 7];
    let p = parse_vst2_plugin("C:/VstPlugins/odd.dll", &MetaInput::BinaryResource(block));
    assert_eq!(p.name, "odd");
    assert_eq!(p.manufacturer, "Unknown");
    assert_eq!(p.version, None);
}

#[test]
fn missing_metadata_falls_back_to_stem() {
    let p = parse_au_plugin("/L/Components/NiceSynth.component", &MetaInput::Missing);
    assert_eq!(p.name, "NiceSynth");
    assert_eq!(p.manufacturer, "Unknown");
    assert_eq!(p.version, None);
    assert_eq!(p.plugin_type, PluginType::AU);
}

#[test]
fn bundle_manifest_component_name_splits_on_colon() {
    let xml = "<?xml version=\"1.0\" encoding=\"UTF-8\"?>\n<plist version=\"1.0\"><dict><key>AudioComponents</key><array><dict><key>name</key><string>Acme: SuperSynth</string></dict></array><key>CFBundleShortVersionString</key><string>2.0.1</string></dict></plist>";
    let p = parse_au_plugin(
        "/L/Components/SuperSynth.component",
        &MetaInput::BundleManifest(xml.as_bytes().to_vec()),
    );
    assert_eq!(p.name, "SuperSynth");
    assert_eq!(p.manufacturer, "Acme");
    assert_eq!(p.version, Some("2.0.1".to_string()));
}

#[test]
fn bundle_manifest_identifier_supplies_manufacturer() {
    let xml = "<?xml version=\"1.0\" encoding=\"UTF-8\"?>\n<plist version=\"1.0\"><dict><key>CFBundleName</key><string>NamedSynth</string><key>CFBundleIdentifier</key><string>com.acme.synth</string><key>CFBundleVersion</key><string>7</string></dict></plist>";
    let p = parse_vst2_plugin(
        "/L/VST/Named.vst",
        &MetaInput::BundleManifest(xml.as_bytes().to_vec()),
    );
    assert_eq!(p.name, "NamedSynth");
    assert_eq!(p.manufacturer, "acme");
    assert_eq!(p.version, Some("7".to_string()));
}

#[test]
fn deeply_nested_manifest_is_refused() {
    // A small document with thousands of nested arrays would otherwise
    // drive the parser's recursion; the nesting gate turns it into the
    // fallback record instead.
    let mut xml = String::from("<?xml version=\"1.0\"?><plist version=\"1.0\">");
    for _ in 0..4000 {
        xml.push_str("<array>");
    }
    for _ in 0..4000 {
        xml.push_str("</array>");
    }
    xml.push_str("</plist>");
    let p = parse_vst2_plugin(
        "/L/VST/Deep.vst",
        &MetaInput::BundleManifest(xml.into_bytes()),
    );
    assert_eq!(p.name, "Deep");
    assert_eq!(p.manufacturer, "Unknown");
}

#[test]
fn shallow_manifests_pass_the_nesting_gate() {
    // An ordinary manifest with some non-ASCII text and a handful of
    // containers stays far below the bound.
    let xml = "<?xml version=\"1.0\"?><plist version=\"1.0\"><dict><key>CFBundleName</key><string>S\u{00FC}per Synthesizer \u{00E9}</string><key>CFBundleIdentifier</key><string>com.acme.synth</string></dict></plist>";
    let p = parse_vst2_plugin(
        "/L/VST/Umlaut.vst",
        &MetaInput::BundleManifest(xml.as_bytes().to_vec()),
    );
    assert_eq!(p.name, "S\u{00FC}per Synthesizer \u{00E9}");
    assert_eq!(p.manufacturer, "acme");
}

#[test]
fn unparseable_manifest_falls_back() {
    let p = parse_vst3_plugin(
        "/L/VST3/Broken.vst3",
        &MetaInput::BundleManifest(b"not a plist at all".to_vec()),
    );
    assert_eq!(p.name, "Broken");
    assert_eq!(p.manufacturer, "Unknown");
}

#[test]
fn vst3_sidecar_declares_the_record() {
    let meta = MetaInput::Vst3Bundle {
        sidecars: vec![
            "{\"Name\":\"JSynth\",\"Vendor\":\"JVendor\",\"Version\":\"1.0\"}".to_string(),
        ],
        nested: None,
    };
    let p = parse_vst3_plugin("C:/VST3/JSynth.vst3", &meta);
    assert_eq!(p.name, "JSynth");
    assert_eq!(p.manufacturer, "JVendor");
    assert_eq!(p.version, Some("1.0".to_string()));
}

#[test]
fn vst3_sidecar_accepts_lower_case_keys() {
    let meta = MetaInput::Vst3Bundle {
        sidecars: vec![
            "{}".to_string(),
            "{\"name\":\"LowSynth\",\"company\":\"LowCo Inc\"}".to_string(),
        ],
        nested: None,
    };
    let p = parse_vst3_plugin("C:/VST3/LowSynth.vst3", &meta);
    assert_eq!(p.name, "LowSynth");
    assert_eq!(p.manufacturer, "LowCo Inc");
    assert_eq!(p.version, None);
}

#[test]
fn vst3_bundle_without_sources_falls_back() {
    let meta = MetaInput::Vst3Bundle { sidecars: Vec::new(), nested: None };
    let p = parse_vst3_plugin("C:/VST3/Plain.vst3", &meta);
    assert_eq!(p.name, "Plain");
    assert_eq!(p.manufacturer, "Unknown");
}

#[test]
fn vst3_nested_binary_is_the_last_resort() {
    let meta = MetaInput::Vst3Bundle {
        sidecars: vec!["not json".to_string()],
        nested: Some(sample_version_block()),
    };
    let p = parse_vst3_plugin("C:/VST3/Nested.vst3", &meta);
    assert_eq!(p.name, "SuperVerb");
    assert_eq!(p.manufacturer, "Acme Corp");
    assert_eq!(p.version, Some("1.2.3.4".to_string()));
}

#[test]
fn aax_uses_first_candidate_binary() {
    let meta = MetaInput::AaxBundle { blocks: vec![sample_version_block()] };
    let p = parse_aax_plugin("C:/Avid/Verb.aaxplugin", &meta);
    assert_eq!(p.name, "SuperVerb");
    assert_eq!(p.manufacturer, "Acme Corp");
    assert_eq!(p.plugin_type, PluginType::AAX);
}

#[test]
fn aax_without_candidates_falls_back() {
    let meta = MetaInput::AaxBundle { blocks: Vec::new() };
    let p = parse_aax_plugin("C:/Avid/Empty.aaxplugin", &meta);
    assert_eq!(p.name, "Empty");
    assert_eq!(p.manufacturer, "Unknown");
}
