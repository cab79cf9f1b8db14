use mod_manager::resource::{
    extraction_subdir, extraction_target, root_to_strip, file_extension, is_cfg_file, is_plugins_category, is_zip_file_name, resource_url, single_root,
    zip_stem, ExtractTarget,
};

fn path(parts: &[&str]) -> Vec<String> {
    parts.iter().map(|s| s.to_string()).collect()
}

#[test]
fn resource_address() {
    assert_eq!(
        resource_url("plugins", "Mod.zip"),
        "https://softsuccubus.github.io/ManakaStaticWeb/uploads/plugins/Mod.zip"
    );
}

#[test]
fn archives_by_name() {
    assert!(is_zip_file_name("Mod.zip"));
    assert!(is_zip_file_name("MOD.ZIP"));
    assert!(is_zip_file_name("x.Zip"));
    assert!(!is_zip_file_name("Mod.dll"));
    assert!(!is_zip_file_name("zip"));
}

#[test]
fn plugin_category() {
    assert!(is_plugins_category("plugins"));
    assert!(!is_plugins_category("clothes"));
}

#[test]
fn archive_stems() {
    assert_eq!(zip_stem("Pack.zip"), "Pack");
    assert_eq!(zip_stem("Pack.ZIP"), "Pack");
    assert_eq!(zip_stem("Pack.Zip"), "Pack");
    assert_eq!(zip_stem("Pack.zIp"), "Pack");
    assert_eq!(zip_stem(".zip"), "");
    assert_eq!(zip_stem("Pack.zap"), "Pack.zap");
    assert_eq!(zip_stem("zip"), "zip");
    assert_eq!(zip_stem("Pack"), "Pack");
}

#[test]
fn single_top_level_directory() {
    assert_eq!(
        single_root(&vec![(path(&["Pack"]), true), (path(&["Pack", "a.dll"]), false), (path(&["Pack", "b", "c.txt"]), false)]),
        Some("Pack".to_string())
    );
    assert_eq!(single_root(&vec![(path(&["Pack", "a.dll"]), false), (path(&["Other", "b"]), false)]), None);
    assert_eq!(single_root(&vec![]), None);
    assert_eq!(single_root(&vec![(path(&[]), false), (path(&["Only", "x"]), false)]), Some("Only".to_string()));
}

#[test]
fn a_lone_file_is_no_top_level_directory() {
    assert_eq!(single_root(&vec![(path(&["readme.txt"]), false)]), None);
    assert_eq!(single_root(&vec![(path(&["Pack"]), false), (path(&["Pack", "a"]), false)]), None);
    assert_eq!(single_root(&vec![(path(&["Pack"]), true)]), Some("Pack".to_string()));
}

#[test]
fn extensions_as_path_reads_them() {
    for name in ["a.cfg", ".cfg", "a.", "a", "..", "a.b.c", "..cfg", "."] {
        let expected = std::path::Path::new(name).extension().map(|e| e.to_string_lossy().to_string());
        assert_eq!(file_extension(name), expected, "name {:?}", name);
    }
}

#[test]
fn config_files_of_plugins() {
    assert!(is_cfg_file("plugin.cfg"));
    assert!(is_cfg_file("plugin.CFG"));
    assert!(!is_cfg_file(".cfg"));
    assert!(!is_cfg_file("plugin.cfgx"));
}

#[test]
fn targets_without_root() {
    let none: Option<String> = None;
    assert_eq!(extraction_target(path(&["a", "b.dll"]), &none, false), Some(ExtractTarget::ExtractDir(path(&["a", "b.dll"]))));
    assert_eq!(extraction_target(path(&["x.cfg"]), &none, false), Some(ExtractTarget::ExtractDir(path(&["x.cfg"]))));
    assert_eq!(extraction_target(path(&["sub", "x.Cfg"]), &none, true), Some(ExtractTarget::ConfigDir("x.Cfg".to_string())));
    assert_eq!(extraction_target(path(&[]), &none, true), None);
}

#[test]
fn targets_with_root_stripped() {
    let root = Some("Pack".to_string());
    assert_eq!(extraction_target(path(&["Pack"]), &root, false), None);
    assert_eq!(extraction_target(path(&["Pack", "a", "b.png"]), &root, false), Some(ExtractTarget::ExtractDir(path(&["a", "b.png"]))));
    assert_eq!(extraction_target(path(&["Other", "c"]), &root, false), Some(ExtractTarget::ExtractDir(path(&["Other", "c"]))));
}

#[test]
fn plugins_extract_in_place() {
    assert_eq!(extraction_subdir("Pack.zip", true), None);
    assert_eq!(extraction_subdir("Pack.zip", false), Some("Pack".to_string()));
    let entries = vec![(path(&["Pack", "a.dll"]), false)];
    assert_eq!(root_to_strip(&entries, true), None);
    assert_eq!(root_to_strip(&entries, false), Some("Pack".to_string()));
}
