use plugin_inventory::build_inventory;
use plugin_inventory::clean_manufacturer_name;
use plugin_inventory::Plugin;
use plugin_inventory::PluginType;

fn record(name: &str, manufacturer: &str, path: &str) -> Plugin {
    Plugin {
        name: name.to_string(),
        manufacturer: manufacturer.to_string(),
        version: None,
        path: path.to_string(),
        plugin_type: PluginType::VST2,
    }
}

#[test]
fn strips_comma_and_period_suffix() {
    assert_eq!(clean_manufacturer_name("Example, Inc."), "Example");
}

#[test]
fn strips_plain_suffix() {
    assert_eq!(clean_manufacturer_name("Example Inc"), "Example");
}

#[test]
fn strips_upper_case_suffix() {
    assert_eq!(clean_manufacturer_name("EXAMPLE INC."), "EXAMPLE");
}

#[test]
fn strips_each_known_token() {
    assert_eq!(clean_manufacturer_name("Foo Ltd"), "Foo");
    assert_eq!(clean_manufacturer_name("Foo LLC"), "Foo");
    assert_eq!(clean_manufacturer_name("Foo LCC"), "Foo");
    assert_eq!(clean_manufacturer_name("Foo GmbH"), "Foo");
    assert_eq!(clean_manufacturer_name("Foo Corp"), "Foo");
    assert_eq!(clean_manufacturer_name("Foo Co"), "Foo");
    assert_eq!(clean_manufacturer_name("Foo AG"), "Foo");
    assert_eq!(clean_manufacturer_name("Foo A/S."), "Foo");
}

#[test]
fn strips_stacked_suffixes() {
    // One or more trailing tokens go, each with its separator run and
    // optional period.
    assert_eq!(clean_manufacturer_name("Example Co Ltd."), "Example");
    assert_eq!(clean_manufacturer_name("Example Ltd Inc"), "Example");
    assert_eq!(clean_manufacturer_name("Plugin Works, Inc. Ltd."), "Plugin Works");
}

#[test]
fn tokens_inside_words_are_kept() {
    // A token only counts at a word boundary, never inside a name.
    assert_eq!(clean_manufacturer_name("Semico"), "Semico");
    assert_eq!(clean_manufacturer_name("Zinc"), "Zinc");
    assert_eq!(clean_manufacturer_name("Narco"), "Narco");
    assert_eq!(clean_manufacturer_name("Montag"), "Montag");
}

#[test]
fn keeps_names_without_suffix() {
    assert_eq!(clean_manufacturer_name("Plain Name"), "Plain Name");
    assert_eq!(clean_manufacturer_name(""), "");
}

#[test]
fn trims_whitespace() {
    // The suffix match is anchored at the very end, so trailing spaces
    // shield the token; the whitespace itself is still trimmed.
    assert_eq!(clean_manufacturer_name("  Spaced Out Ltd  "), "Spaced Out Ltd");
    assert_eq!(clean_manufacturer_name("  Spaced Out Ltd"), "Spaced Out");
}

#[test]
fn hyphen_bound_suffix_is_stripped() {
    // The separator before the token is optional, so the token goes even
    // after a hyphen; the hyphen itself stays for the grouping key to drop.
    assert_eq!(clean_manufacturer_name("Example-Inc"), "Example-");
}

#[test]
fn grouping_merges_cosmetic_variants() {
    let records = vec![
        record("P1", "Example, Inc.", "/a/p1.dll"),
        record("P2", "Example Inc", "/a/p2.dll"),
        record("P3", "EXAMPLE INC.", "/a/p3.dll"),
        record("P4", "Example-Inc", "/a/p4.dll"),
    ];
    let inv = build_inventory(records);
    assert_eq!(inv.len(), 1);
    assert_eq!(inv[0].manufacturer, "Example");
    assert_eq!(inv[0].plugins.len(), 4);
    for p in &inv[0].plugins {
        assert_eq!(p.manufacturer, "Example");
    }
}

#[test]
fn stacked_suffixes_share_the_group() {
    // "Example Co Ltd" keys as "example", like the bare name.
    let records = vec![
        record("P1", "Example Co Ltd", "/a/p1.dll"),
        record("P2", "Example", "/a/p2.dll"),
        record("P3", "Example", "/a/p3.dll"),
    ];
    let inv = build_inventory(records);
    assert_eq!(inv.len(), 1);
    assert_eq!(inv[0].manufacturer, "Example");
    assert_eq!(inv[0].plugins.len(), 3);
}

#[test]
fn tie_break_prefers_majority_then_no_hyphen() {
    let records = vec![
        record("P1", "Foo Ltd", "/a/p1.dll"),
        record("P2", "Foo Ltd", "/a/p2.dll"),
        record("P3", "Foo-Ltd", "/a/p3.dll"),
    ];
    let inv = build_inventory(records);
    assert_eq!(inv.len(), 1);
    assert_eq!(inv[0].manufacturer, "Foo");
    assert_eq!(inv[0].plugins.len(), 3);
}

#[test]
fn tie_break_prefers_shorter_on_equal_count() {
    let records = vec![
        record("P1", "Acme Incorporated", "/a/p1.dll"),
        record("P2", "Acme", "/a/p2.dll"),
    ];
    // Keys differ ("acmeincorporated" vs "acme"), so these form two groups.
    let inv = build_inventory(records);
    assert_eq!(inv.len(), 2);

    // Within one key, equal counts fall back to the shorter spelling.
    let records = vec![
        record("P1", "A B Corp", "/a/p1.dll"),
        record("P2", "AB Corp", "/a/p2.dll"),
    ];
    let inv = build_inventory(records);
    assert_eq!(inv.len(), 1);
    assert_eq!(inv[0].manufacturer, "AB");
}
