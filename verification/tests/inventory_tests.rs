use plugin_inventory::build_inventory;
use plugin_inventory::Plugin;
use plugin_inventory::PluginType;

fn record(name: &str, manufacturer: &str, path: &str) -> Plugin {
    Plugin {
        name: name.to_string(),
        manufacturer: manufacturer.to_string(),
        version: None,
        path: path.to_string(),
        plugin_type: PluginType::VST3,
    }
}

#[test]
fn empty_scan_builds_empty_inventory() {
    let inv = build_inventory(Vec::new());
    assert_eq!(inv.len(), 0);
}

#[test]
fn records_sorted_case_insensitively_by_name() {
    let records = vec![
        record("beta", "Acme", "/a/1"),
        record("Alpha", "Acme", "/a/2"),
        record("gamma", "Acme", "/a/3"),
    ];
    let inv = build_inventory(records);
    assert_eq!(inv.len(), 1);
    let names: Vec<&str> = inv[0].plugins.iter().map(|p| p.name.as_str()).collect();
    assert_eq!(names, vec!["Alpha", "beta", "gamma"]);
}

#[test]
fn groups_sorted_by_display_name() {
    let records = vec![
        record("P1", "Zeta", "/a/1"),
        record("P2", "Alpha", "/a/2"),
        record("P3", "Mid", "/a/3"),
    ];
    let inv = build_inventory(records);
    let groups: Vec<&str> = inv.iter().map(|g| g.manufacturer.as_str()).collect();
    assert_eq!(groups, vec!["Alpha", "Mid", "Zeta"]);
}

#[test]
fn paths_kept_verbatim() {
    let records = vec![
        record("P1", "Acme", "/odd//path/../p1.vst3"),
        record("P2", "Acme", "C:\\Plug-Ins\\p2.vst3"),
    ];
    let inv = build_inventory(records);
    assert_eq!(inv.len(), 1);
    let mut paths: Vec<&str> = inv[0].plugins.iter().map(|p| p.path.as_str()).collect();
    paths.sort();
    assert_eq!(paths, vec!["/odd//path/../p1.vst3", "C:\\Plug-Ins\\p2.vst3"]);
}

#[test]
fn majority_spelling_wins() {
    let records = vec![
        record("P1", "Acme Audio", "/a/1"),
        record("P2", "ACME AUDIO", "/a/2"),
        record("P3", "Acme Audio", "/a/3"),
    ];
    let inv = build_inventory(records);
    assert_eq!(inv.len(), 1);
    assert_eq!(inv[0].manufacturer, "Acme Audio");
}

#[test]
fn rebuilding_from_same_records_is_identical() {
    let make = || {
        vec![
            record("Synth", "Foo Ltd", "/a/1"),
            record("Verb", "Foo-Ltd", "/a/2"),
            record("Comp", "Bar Inc", "/a/3"),
        ]
    };
    let inv1 = build_inventory(make());
    let inv2 = build_inventory(make());
    assert_eq!(inv1.len(), inv2.len());
    for (g1, g2) in inv1.iter().zip(inv2.iter()) {
        assert_eq!(g1.manufacturer, g2.manufacturer);
        assert_eq!(g1.plugins.len(), g2.plugins.len());
        for (p1, p2) in g1.plugins.iter().zip(g2.plugins.iter()) {
            assert_eq!(p1.name, p2.name);
            assert_eq!(p1.manufacturer, p2.manufacturer);
            assert_eq!(p1.path, p2.path);
        }
    }
}
