use plugin_inventory::is_potential_vst2_file;
use plugin_inventory::FsEntry;
use plugin_inventory::MetaInput;
use plugin_inventory::PlatformEnv;
use plugin_inventory::Platform;
use plugin_inventory::PluginScanner;
use plugin_inventory::PluginType;
use plugin_inventory::RootScan;

fn dir_entry(path: &str, depth: u64) -> FsEntry {
    FsEntry {
        path: path.to_string(),
        depth,
        is_dir: true,
        is_file: false,
        meta: MetaInput::Missing,
    }
}

fn file_entry(path: &str, depth: u64) -> FsEntry {
    FsEntry {
        path: path.to_string(),
        depth,
        is_dir: false,
        is_file: true,
        meta: MetaInput::Missing,
    }
}

#[test]
fn vst2_bundle_accepted_on_macos() {
    let scanner = PluginScanner::new();
    let entries = vec![
        dir_entry("/Library/Audio/Plug-Ins/VST/Synth.vst", 1),
        file_entry("/Library/Audio/Plug-Ins/VST/readme.txt", 1),
        file_entry("/Library/Audio/Plug-Ins/VST/Flat.vst", 1),
    ];
    let found = scanner.scan_directory(Platform::MacOs, PluginType::VST2, &entries);
    assert_eq!(found.len(), 1);
    assert_eq!(found[0].path, "/Library/Audio/Plug-Ins/VST/Synth.vst");
    assert_eq!(found[0].plugin_type, PluginType::VST2);
}

#[test]
fn fallback_record_uses_stem_and_unknown() {
    let scanner = PluginScanner::new();
    let entries = vec![dir_entry("/Plug-Ins/GreatSynth.vst", 1)];
    let found = scanner.scan_directory(Platform::MacOs, PluginType::VST2, &entries);
    assert_eq!(found.len(), 1);
    assert_eq!(found[0].name, "GreatSynth");
    assert_eq!(found[0].manufacturer, "Unknown");
    assert_eq!(found[0].version, None);
}

#[test]
fn depth_bound_excludes_deep_entries() {
    let scanner = PluginScanner::new();
    let entries = vec![
        dir_entry("/a/b/c/d/e/f/Deep.vst", 6),
        dir_entry("/a/Shallow.vst", 1),
    ];
    let found = scanner.scan_directory(Platform::MacOs, PluginType::VST2, &entries);
    assert_eq!(found.len(), 1);
    assert_eq!(found[0].path, "/a/Shallow.vst");
}

#[test]
fn vst3_accepts_files_and_directories() {
    let scanner = PluginScanner::new();
    let entries = vec![
        file_entry("C:/Common Files/VST3/Flat.vst3", 1),
        dir_entry("C:/Common Files/VST3/Bundle.VST3", 1),
        file_entry("C:/Common Files/VST3/other.dll", 1),
    ];
    let found = scanner.scan_directory(Platform::Windows, PluginType::VST3, &entries);
    assert_eq!(found.len(), 2);
    assert_eq!(found[0].path, "C:/Common Files/VST3/Flat.vst3");
    assert_eq!(found[1].path, "C:/Common Files/VST3/Bundle.VST3");
}

#[test]
fn aax_shape_rules_on_windows() {
    let scanner = PluginScanner::new();
    let entries = vec![
        dir_entry("C:/Avid/Plug-Ins/Bundle.aaxplugin", 1),
        file_entry("C:/Avid/Plug-Ins/Flat.aax", 1),
        file_entry("C:/Avid/Plug-Ins/NotAPlugin.aaxplugin", 1),
        dir_entry("C:/Avid/Plug-Ins/NotAPlugin.aax", 1),
    ];
    let found = scanner.scan_directory(Platform::Windows, PluginType::AAX, &entries);
    assert_eq!(found.len(), 2);
    assert_eq!(found[0].path, "C:/Avid/Plug-Ins/Bundle.aaxplugin");
    assert_eq!(found[1].path, "C:/Avid/Plug-Ins/Flat.aax");
}

#[test]
fn audio_units_are_bundles_only_on_macos() {
    let scanner = PluginScanner::new();
    let entries = vec![
        dir_entry("/Library/Audio/Plug-Ins/Components/Good.component", 1),
        file_entry("/Library/Audio/Plug-Ins/Components/Flat.component", 1),
    ];
    let found = scanner.scan_directory(Platform::MacOs, PluginType::AU, &entries);
    assert_eq!(found.len(), 1);
    assert_eq!(found[0].plugin_type, PluginType::AU);
    let none = scanner.scan_directory(Platform::Windows, PluginType::AU, &entries);
    assert_eq!(none.len(), 0);
}

#[test]
fn system_libraries_are_never_vst2_candidates() {
    assert!(is_potential_vst2_file("C:/VstPlugins/GreatSynth.dll"));
    assert!(is_potential_vst2_file("C:/VstPlugins/LOUD.DLL"));
    assert!(!is_potential_vst2_file("C:/VstPlugins/msvcr120.dll"));
    assert!(!is_potential_vst2_file("C:/VstPlugins/KERNEL32.dll"));
    assert!(!is_potential_vst2_file("C:/VstPlugins/api-ms-win-core.dll"));
    assert!(!is_potential_vst2_file("C:/VstPlugins/notes.txt"));
}

#[test]
fn scan_without_roots_is_empty() {
    let scanner = PluginScanner::new();
    let roots: Vec<RootScan> = Vec::new();
    let found = scanner.scan_all_plugins(&roots);
    assert_eq!(found.len(), 0);
}

#[test]
fn scan_all_concatenates_roots_in_order() {
    let scanner = PluginScanner::new();
    let roots = vec![
        RootScan {
            platform: Platform::MacOs,
            format: PluginType::VST2,
            entries: vec![dir_entry("/L/VST/A.vst", 1)],
        },
        RootScan {
            platform: Platform::MacOs,
            format: PluginType::AU,
            entries: vec![dir_entry("/L/Components/B.component", 1)],
        },
    ];
    let found = scanner.scan_all_plugins(&roots);
    assert_eq!(found.len(), 2);
    assert_eq!(found[0].path, "/L/VST/A.vst");
    assert_eq!(found[0].plugin_type, PluginType::VST2);
    assert_eq!(found[1].path, "/L/Components/B.component");
    assert_eq!(found[1].plugin_type, PluginType::AU);
}

#[test]
fn duplicate_paths_across_roots_collapse() {
    // A registry-declared root nested inside another root hands the same
    // entry in twice; the path is the identity key, so one record stays.
    let scanner = PluginScanner::new();
    let roots = vec![
        RootScan {
            platform: Platform::MacOs,
            format: PluginType::VST2,
            entries: vec![
                dir_entry("/L/VST/A.vst", 1),
                dir_entry("/L/VST/B.vst", 1),
            ],
        },
        RootScan {
            platform: Platform::MacOs,
            format: PluginType::VST2,
            entries: vec![dir_entry("/L/VST/A.vst", 0)],
        },
    ];
    let found = scanner.scan_all_plugins(&roots);
    let paths: Vec<&str> = found.iter().map(|p| p.path.as_str()).collect();
    assert_eq!(paths, vec!["/L/VST/A.vst", "/L/VST/B.vst"]);
}

#[test]
fn macos_candidate_roots() {
    let scanner = PluginScanner::new();
    let env = PlatformEnv {
        platform: Platform::MacOs,
        program_files: None,
        program_files_x86: None,
        home_dir: Some("/Users/tester".to_string()),
        vst2_registry_path: None,
        aax_registry_dir: None,
    };
    let vst2 = scanner.get_vst2_paths(&env);
    assert_eq!(
        vst2,
        vec![
            "/Library/Audio/Plug-Ins/VST".to_string(),
            "/Users/tester/Library/Audio/Plug-Ins/VST".to_string(),
        ]
    );
    let au = scanner.get_au_paths(&env);
    assert_eq!(
        au,
        vec![
            "/Library/Audio/Plug-Ins/Components".to_string(),
            "/Users/tester/Library/Audio/Plug-Ins/Components".to_string(),
        ]
    );
}

#[test]
fn windows_candidate_roots_deduplicate() {
    let scanner = PluginScanner::new();
    let env = PlatformEnv {
        platform: Platform::Windows,
        program_files: Some("C:\\Program Files".to_string()),
        program_files_x86: None,
        home_dir: None,
        vst2_registry_path: Some("C:\\Program Files/VstPlugins".to_string()),
        aax_registry_dir: None,
    };
    let vst2 = scanner.get_vst2_paths(&env);
    // The environment-derived join produces the same directory as the
    // fixed historical path, and the registry names the first entry with
    // mixed separators: both collapse, spellings compared as directories.
    assert_eq!(
        vst2,
        vec![
            "C:\\Program Files\\VstPlugins".to_string(),
            "C:\\Program Files\\Steinberg\\VstPlugins".to_string(),
            "C:\\Program Files\\Common Files\\VST2".to_string(),
            "C:\\Program Files (x86)\\Common Files\\VST2".to_string(),
        ]
    );
    let vst3 = scanner.get_vst3_paths(&env);
    assert_eq!(vst3, vec!["C:\\Program Files\\Common Files\\VST3".to_string()]);
}
