use mod_manager::mods::{
    parse_descriptions,
    is_trashed_copy_of, live_mod_entry, mod_rank, now_secs, parse_trash_name, sort_mod_entries,
    trash_dir_name, trash_entry_name, trash_subdir_name, trashed_mod_entry, ModEntry,
};

fn entry(name: &str, is_dir: bool, deleted: bool) -> ModEntry {
    ModEntry { name: name.to_string(), is_dir, size: 1, deleted, deleted_at: if deleted { Some(1) } else { None } }
}

#[test]
fn trash_entry_name_joins_time_and_name() {
    assert_eq!(trash_entry_name(1700000000, "ModA"), "1700000000__ModA");
    assert_eq!(trash_entry_name(0, "x"), "0__x");
}

#[test]
fn parse_trash_name_reads_time_and_name() {
    assert_eq!(parse_trash_name("1700000000__ModA"), (Some(1700000000), "ModA".to_string()));
    assert_eq!(parse_trash_name("1__a__b"), (Some(1), "a__b".to_string()));
    assert_eq!(parse_trash_name("abc__X"), (Some(0), "X".to_string()));
    assert_eq!(parse_trash_name("__X"), (Some(0), "X".to_string()));
    assert_eq!(parse_trash_name("plain"), (None, "plain".to_string()));
}

#[test]
fn trash_name_roundtrip_on_examples() {
    for (t, name) in [(0u64, "a"), (1718000000, "My Mod__v2"), (u64::MAX, ""), (42, "中文.dll")] {
        let raw = trash_entry_name(t, name);
        assert_eq!(parse_trash_name(&raw), (Some(t), name.to_string()));
        assert!(is_trashed_copy_of(&raw, name));
    }
}

#[test]
fn trashed_copy_matches_original_name_only() {
    assert!(is_trashed_copy_of("1700000000__ModA", "ModA"));
    assert!(!is_trashed_copy_of("1700000000__ModA", "ModB"));
    assert!(!is_trashed_copy_of("ModA", "ModA"));
    assert!(is_trashed_copy_of("1__a__b", "a__b"));
}

#[test]
fn trash_directory_names() {
    assert_eq!(trash_dir_name(), ".trans");
    assert_eq!(trash_subdir_name(Some("plugins".to_string())), "plugins");
    assert_eq!(trash_subdir_name(None), "default");
}

#[test]
fn ranks_of_entries() {
    assert_eq!(mod_rank(false, true), 0);
    assert_eq!(mod_rank(false, false), 1);
    assert_eq!(mod_rank(true, true), 2);
    assert_eq!(mod_rank(true, false), 3);
}

#[test]
fn entries_from_listing() {
    let live = live_mod_entry("A.dll".to_string(), false, 10);
    assert_eq!(live, ModEntry { name: "A.dll".to_string(), is_dir: false, size: 10, deleted: false, deleted_at: None });
    let gone = trashed_mod_entry("1700000000__B", true, 5);
    assert_eq!(gone, ModEntry { name: "B".to_string(), is_dir: true, size: 5, deleted: true, deleted_at: Some(1700000000) });
    let odd = trashed_mod_entry("noseparator", false, 0);
    assert_eq!(odd.name, "noseparator");
    assert_eq!(odd.deleted_at, None);
}

#[test]
fn listing_order_is_rank_then_lowercase_name() {
    let entries = vec![
        entry("zeta.dll", false, true),
        entry("beta", true, false),
        entry("Alpha.dll", false, false),
        entry("gamma", true, true),
        entry("alpha", true, false),
        entry("BETA.dll", false, false),
    ];
    let sorted = sort_mod_entries(entries);
    let names: Vec<&str> = sorted.iter().map(|e| e.name.as_str()).collect();
    assert_eq!(names, vec!["alpha", "beta", "Alpha.dll", "BETA.dll", "gamma", "zeta.dll"]);
}

#[test]
fn listing_order_is_stable_for_equal_names() {
    let mut a = entry("Mod", false, false);
    a.size = 1;
    let mut b = entry("mod", false, false);
    b.size = 2;
    let mut c = entry("MOD", false, false);
    c.size = 3;
    let sorted = sort_mod_entries(vec![a, b, c]);
    let sizes: Vec<u64> = sorted.iter().map(|e| e.size).collect();
    assert_eq!(sizes, vec![1, 2, 3]);
}

#[test]
fn empty_listing_stays_empty() {
    assert!(sort_mod_entries(Vec::new()).is_empty());
}

#[test]
fn clock_reads_after_2020() {
    assert!(now_secs() > 1_577_836_800);
}

#[test]
fn restore_finds_what_listing_shows() {
    for raw in ["1700000000__ModA", "x__y__z", "plain", "__"] {
        let listed = trashed_mod_entry(raw, false, 0);
        assert_eq!(is_trashed_copy_of(raw, &listed.name), listed.deleted_at.is_some(), "raw {:?}", raw);
    }
}

#[test]
fn descriptions_are_read_from_json() {
    let m = parse_descriptions("{\"plugins\": {\"ModA\": \"does A\", \"ModB\": \"does B\"}, \"clothes\": {}}").unwrap();
    assert_eq!(m.len(), 2);
    assert_eq!(m["plugins"]["ModA"], "does A");
    assert!(m["clothes"].is_empty());
}

#[test]
fn invalid_descriptions_are_reported() {
    let err = parse_descriptions("{not json").unwrap_err();
    assert!(err.starts_with("Invalid JSON: "));
    assert!(parse_descriptions("{\"plugins\": [\"a\"]}").is_err());
}
