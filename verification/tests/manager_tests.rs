use plugin_inventory::Plugin;
use plugin_inventory::PluginManager;
use plugin_inventory::PluginType;

fn record(name: &str, manufacturer: &str, path: &str) -> Plugin {
    Plugin {
        name: name.to_string(),
        manufacturer: manufacturer.to_string(),
        version: None,
        path: path.to_string(),
        plugin_type: PluginType::VST2,
    }
}

fn manager_with(records: Vec<Plugin>) -> PluginManager {
    let mut m = PluginManager::new();
    m.apply_scan_results(records);
    m
}

#[test]
fn new_manager_is_empty() {
    let m = PluginManager::new();
    assert_eq!(m.plugins.len(), 0);
    assert_eq!(m.selected_plugins.len(), 0);
    assert_eq!(m.selected_manufacturers.len(), 0);
    assert!(!m.scanning);
    assert!(!m.show_confirmation);
    assert!(m.deletion_error.is_none());
}

#[test]
fn applying_a_scan_rebuilds_and_clears_selection() {
    let mut m = manager_with(vec![record("Synth", "Acme", "/a/1")]);
    let plugin = m.plugins[0].plugins[0].clone();
    m.toggle_plugin(&plugin);
    assert_eq!(m.selected_plugins.len(), 1);
    m.apply_scan_results(vec![record("Verb", "Bang", "/b/1")]);
    assert_eq!(m.plugins.len(), 1);
    assert_eq!(m.plugins[0].manufacturer, "Bang");
    assert_eq!(m.selected_plugins.len(), 0);
    assert_eq!(m.selected_manufacturers.len(), 0);
    assert!(m.deletion_error.is_none());
}

#[test]
fn toggling_a_plugin_selects_and_deselects() {
    let mut m = manager_with(vec![
        record("Synth", "Acme", "/a/1"),
        record("Verb", "Acme", "/a/2"),
    ]);
    let first = m.plugins[0].plugins[0].clone();
    m.toggle_plugin(&first);
    assert_eq!(m.selected_plugins, vec![first.path.clone()]);
    // one of two selected: the manufacturer is not fully selected
    assert_eq!(m.selected_manufacturers.len(), 0);
    m.toggle_plugin(&first);
    assert_eq!(m.selected_plugins.len(), 0);
}

#[test]
fn selecting_every_record_selects_the_manufacturer() {
    let mut m = manager_with(vec![
        record("Synth", "Acme", "/a/1"),
        record("Verb", "Acme", "/a/2"),
    ]);
    let first = m.plugins[0].plugins[0].clone();
    let second = m.plugins[0].plugins[1].clone();
    m.toggle_plugin(&first);
    m.toggle_plugin(&second);
    assert_eq!(m.selected_manufacturers, vec!["Acme".to_string()]);
    m.toggle_plugin(&second);
    assert_eq!(m.selected_manufacturers.len(), 0);
}

#[test]
fn toggling_a_manufacturer_selects_its_records() {
    let mut m = manager_with(vec![
        record("Synth", "Acme", "/a/1"),
        record("Verb", "Acme", "/a/2"),
        record("Comp", "Zed", "/z/1"),
    ]);
    m.toggle_manufacturer("Acme");
    assert_eq!(m.selected_manufacturers, vec!["Acme".to_string()]);
    let mut selected = m.selected_plugins.clone();
    selected.sort();
    assert_eq!(selected, vec!["/a/1".to_string(), "/a/2".to_string()]);
    m.toggle_manufacturer("Acme");
    assert_eq!(m.selected_plugins.len(), 0);
    assert_eq!(m.selected_manufacturers.len(), 0);
}

#[test]
fn deletion_reconciliation_three_paths_two_gone() {
    // Three selected records; the deletion primitive reports failure and
    // only two of the three are gone afterwards.
    let mut m = manager_with(vec![
        record("Synth", "Acme", "/a/1"),
        record("Verb", "Acme", "/a/2"),
        record("Comp", "Acme", "/a/3"),
    ]);
    m.toggle_manufacturer("Acme");
    let attempted = m.selected_paths();
    assert_eq!(attempted.len(), 3);
    let deleted: Vec<String> = attempted
        .iter()
        .filter(|p| p.as_str() != "/a/2")
        .cloned()
        .collect();
    assert_eq!(deleted.len(), 2);
    m.reconcile_deletion(&attempted, &deleted, true);

    // exactly the two vanished records left the inventory
    assert_eq!(m.plugins.len(), 1);
    assert_eq!(m.plugins[0].plugins.len(), 1);
    assert_eq!(m.plugins[0].plugins[0].path, "/a/2");
    // the selection retains none of the three
    assert_eq!(m.selected_plugins.len(), 0);
    assert_eq!(m.selected_manufacturers.len(), 0);
    // and the user-facing error is raised
    assert!(m.deletion_error.is_some());
}

#[test]
fn deletion_of_a_whole_group_drops_it() {
    let mut m = manager_with(vec![
        record("Synth", "Acme", "/a/1"),
        record("Comp", "Zed", "/z/1"),
    ]);
    m.toggle_manufacturer("Acme");
    let attempted = m.selected_paths();
    m.reconcile_deletion(&attempted, &attempted, false);
    assert_eq!(m.plugins.len(), 1);
    assert_eq!(m.plugins[0].manufacturer, "Zed");
    assert!(m.deletion_error.is_none());
}

#[test]
fn successful_deletion_raises_no_error() {
    let mut m = manager_with(vec![record("Synth", "Acme", "/a/1")]);
    m.toggle_manufacturer("Acme");
    let attempted = m.selected_paths();
    m.reconcile_deletion(&attempted, &attempted, false);
    assert!(m.deletion_error.is_none());
    assert_eq!(m.plugins.len(), 0);
}

#[test]
fn nothing_deleted_changes_nothing_but_the_error() {
    let mut m = manager_with(vec![record("Synth", "Acme", "/a/1")]);
    m.toggle_manufacturer("Acme");
    let attempted = m.selected_paths();
    let deleted: Vec<String> = Vec::new();
    m.reconcile_deletion(&attempted, &deleted, true);
    assert_eq!(m.plugins.len(), 1);
    assert_eq!(m.selected_plugins.len(), 1);
    assert!(m.deletion_error.is_some());
}

#[test]
fn dismissing_the_error_clears_it() {
    let mut m = manager_with(vec![record("Synth", "Acme", "/a/1")]);
    m.toggle_manufacturer("Acme");
    let attempted = m.selected_paths();
    let deleted: Vec<String> = Vec::new();
    m.reconcile_deletion(&attempted, &deleted, true);
    assert!(m.deletion_error.is_some());
    m.dismiss_deletion_error();
    assert!(m.deletion_error.is_none());
}
