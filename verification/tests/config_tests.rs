use mod_manager::config::{collect_config_entries, config_entry, is_config_file_name, npc_config_entry, ConfigEntry, ConfigFileInfo};

fn file(name: &str, is_dir: bool, size: u64) -> ConfigFileInfo {
    ConfigFileInfo { name: name.to_string(), is_dir, size }
}

#[test]
fn config_names_by_extension() {
    assert!(is_config_file_name("com.example.plugin.cfg"));
    assert!(is_config_file_name("SETTINGS.CFG"));
    assert!(is_config_file_name("data.Json"));
    assert!(!is_config_file_name("readme.txt"));
    assert!(!is_config_file_name("cfg"));
    assert!(!is_config_file_name("a.cfg.bak"));
}

#[test]
fn config_entry_paths() {
    assert_eq!(
        config_entry("a.cfg".to_string(), 12),
        ConfigEntry { name: "a.cfg".to_string(), rel_path: "BepInEx/config/a.cfg".to_string(), size: 12 }
    );
    assert_eq!(
        npc_config_entry(7),
        ConfigEntry { name: "config.txt".to_string(), rel_path: "NPCBehaviorMod/config.txt".to_string(), size: 7 }
    );
}

#[test]
fn listing_keeps_config_files_and_sorts_by_name() {
    let found = vec![
        file("b.cfg", false, 1),
        file("notes.txt", false, 2),
        file("A.json", false, 3),
        file("dir.cfg", true, 4),
        file("d.CFG", false, 5),
    ];
    let listed = collect_config_entries(found, Some(9));
    let names: Vec<&str> = listed.iter().map(|e| e.name.as_str()).collect();
    assert_eq!(names, vec!["A.json", "b.cfg", "config.txt", "d.CFG"]);
    let npc = listed.iter().find(|e| e.name == "config.txt").unwrap();
    assert_eq!(npc.rel_path, "NPCBehaviorMod/config.txt");
    assert_eq!(npc.size, 9);
    assert_eq!(listed[0].rel_path, "BepInEx/config/A.json");
}

#[test]
fn listing_without_npc_config() {
    let listed = collect_config_entries(vec![file("x.cfg", false, 1)], None);
    assert_eq!(listed.len(), 1);
    assert!(collect_config_entries(Vec::new(), None).is_empty());
}
