use mod_manager::bepinex::{
    artifact_for_link, bepinex_log_candidates, bepinex_required_items, check_result, is_preserved_framework_entry,
    newest_builds, parse_bepinex_builds, removal_action, strip_build_metadata, unique_links, version_in_log,
    BepInExArtifact, RemovalAction,
};

fn artifact(build: u64, tag: &str) -> BepInExArtifact {
    BepInExArtifact { name: tag.to_string(), url: String::new(), version: String::new(), build_number: build }
}

#[test]
fn required_items_are_the_framework_files() {
    assert_eq!(
        bepinex_required_items(),
        vec!["BepInEx", "dotnet", ".doorstop_version", "doorstop_config.ini", "winhttp.dll"]
    );
}

#[test]
fn check_lists_missing_items_in_order() {
    let items = bepinex_required_items();
    let r = check_result(&items, &vec![true, false, true, false, true]);
    assert_eq!(r.missing, vec!["dotnet", "doorstop_config.ini"]);
    assert!(!r.ok);
    let all = check_result(&items, &vec![true; 5]);
    assert!(all.missing.is_empty());
    assert!(all.ok);
}

#[test]
fn removal_actions() {
    assert_eq!(removal_action("BepInEx", false, true), RemovalAction::Skip);
    assert_eq!(removal_action("BepInEx", true, true), RemovalAction::ClearFrameworkDir);
    assert_eq!(removal_action("BepInEx", true, false), RemovalAction::RemoveFile);
    assert_eq!(removal_action("dotnet", true, true), RemovalAction::RemoveDir);
    assert_eq!(removal_action("winhttp.dll", true, false), RemovalAction::RemoveFile);
}

#[test]
fn user_directories_are_preserved() {
    assert!(is_preserved_framework_entry("plugins"));
    assert!(is_preserved_framework_entry("config"));
    assert!(!is_preserved_framework_entry("core"));
    assert!(!is_preserved_framework_entry("Plugins"));
}

#[test]
fn links_are_kept_once_in_order() {
    let caps = vec![Some("/a".to_string()), Some("/b".to_string()), None, Some("/a".to_string()), Some("/c".to_string())];
    assert_eq!(unique_links(caps), vec!["/a", "/b", "/c"]);
}

#[test]
fn build_metadata_is_stripped() {
    assert_eq!(strip_build_metadata("6.0.0-be.783+c58c42d"), "6.0.0-be.783");
    assert_eq!(strip_build_metadata("6.0.0-be.783%2Bc58c42d"), "6.0.0-be.783");
    assert_eq!(strip_build_metadata("6.0.0-be.783"), "6.0.0-be.783");
}

#[test]
fn artifact_from_link_parts() {
    let a = artifact_for_link("/builds/783/x.zip", Some("6.0.0-be.783%2Bc58c42d".to_string()), Some("783".to_string()));
    assert_eq!(a.name, "BepInEx IL2CPP win-x64 6.0.0-be.783");
    assert_eq!(a.url, "https://builds.bepinex.dev/builds/783/x.zip");
    assert_eq!(a.version, "6.0.0-be.783");
    assert_eq!(a.build_number, 783);
    let b = artifact_for_link("/x.zip", None, None);
    assert_eq!(b.version, "unknown");
    assert_eq!(b.build_number, 0);
    let c = artifact_for_link("/x.zip", None, Some("99999999999999999999".to_string()));
    assert_eq!(c.build_number, 0);
}

#[test]
fn newest_five_builds_first() {
    let found = vec![artifact(3, "a"), artifact(9, "b"), artifact(1, "c"), artifact(9, "d"), artifact(5, "e"), artifact(7, "f"), artifact(2, "g")];
    let offered = newest_builds(found);
    let tags: Vec<&str> = offered.iter().map(|a| a.name.as_str()).collect();
    assert_eq!(tags, vec!["b", "d", "f", "e", "a"]);
    assert!(newest_builds(Vec::new()).is_empty());
}

#[test]
fn build_page_is_parsed() {
    let body = [
        "<a href=\"/projects/bepinex_be/artifacts/BepInEx-Unity.Mono-win-x64-6.0.0-be.783.zip\">mono</a>",
        "<a href=\"/builds/783/download/BepInEx-Unity.IL2CPP-win-x64-6.0.0-be.783%2Bc58c42d.zip\">il2cpp</a>",
        "<a href=\"/builds/790/download/BepInEx-Unity.IL2CPP-win-x64-6.0.0-be.790%2Bd1e2f3a.zip\">il2cpp</a>",
        "<a href=\"/builds/783/download/BepInEx-Unity.IL2CPP-win-x64-6.0.0-be.783%2Bc58c42d.zip\">again</a>",
        "<a href=\"/other/BepInEx-Unity.IL2CPP-win-x86-6.0.0-be.700.zip\">x86</a>",
    ]
    .join("");
    let builds = parse_bepinex_builds(&body).unwrap();
    assert_eq!(builds.len(), 2);
    assert_eq!(builds[0].build_number, 790);
    assert_eq!(builds[0].version, "6.0.0-be.790");
    assert_eq!(builds[0].name, "BepInEx IL2CPP win-x64 6.0.0-be.790");
    assert_eq!(
        builds[0].url,
        "https://builds.bepinex.dev/builds/790/download/BepInEx-Unity.IL2CPP-win-x64-6.0.0-be.790%2Bd1e2f3a.zip"
    );
    assert_eq!(builds[1].build_number, 783);
    assert!(parse_bepinex_builds("no links").unwrap().is_empty());
}

#[test]
fn log_candidates_in_order() {
    assert_eq!(bepinex_log_candidates(), vec!["BepInEx/LogOutput.log", "BepInEx/LogOutput.txt"]);
}

#[test]
fn version_read_from_log() {
    let log = "[Message:   BepInEx] BepInEx 6.0.0-be.783+c58c42d - SecretFlasherManaka\n";
    assert_eq!(version_in_log(log).unwrap(), Some("6.0.0-be.783".to_string()));
    assert_eq!(version_in_log("nothing here").unwrap(), None);
    assert_eq!(version_in_log("BepInEx 5.4.21 ]").unwrap(), Some("5.4.21".to_string()));
    assert_eq!(version_in_log("BepInEx 5.4.2 x").unwrap(), None);
}

#[test]
fn check_right_after_removal() {
    let items = bepinex_required_items();
    let after: Vec<bool> = items
        .iter()
        .map(|item| removal_action(item, true, item == "BepInEx" || item == "dotnet") == RemovalAction::ClearFrameworkDir)
        .collect();
    let r = check_result(&items, &after);
    assert_eq!(r.missing, vec!["dotnet", ".doorstop_version", "doorstop_config.ini", "winhttp.dll"]);
    assert!(!r.ok);
    let again: Vec<RemovalAction> = items.iter().zip(after.iter()).map(|(item, e)| removal_action(item, *e, item == "BepInEx")).collect();
    assert_eq!(again, vec![RemovalAction::ClearFrameworkDir, RemovalAction::Skip, RemovalAction::Skip, RemovalAction::Skip, RemovalAction::Skip]);
}
