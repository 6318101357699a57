use linux_mod_manager::installed::{
    add_mod, is_enabled, managed_entry, manifest_path, remove_mod, GameManifest, InstalledMod,
};

fn entry(id: &str, name: &str) -> InstalledMod {
    InstalledMod {
        id: id.to_string(),
        name: name.to_string(),
        version: "1.0".to_string(),
        nexus_mod_id: None,
        nexus_file_id: None,
        components: vec![format!("/game/{name}")],
    }
}

fn ids(m: &GameManifest) -> Vec<String> {
    m.mods.iter().map(|e| e.id.clone()).collect()
}

#[test]
fn default_manifest_is_empty() {
    let m = GameManifest::default();
    assert!(m.mods.is_empty());
}

#[test]
fn add_mod_appends_new_entry() {
    let mut m = GameManifest::default();
    add_mod(&mut m, entry("1_1", "A"));
    add_mod(&mut m, entry("2_2", "B"));
    assert_eq!(ids(&m), vec!["1_1".to_string(), "2_2".to_string()]);
}

#[test]
fn add_mod_replaces_same_id_and_moves_it_last() {
    let mut m = GameManifest::default();
    add_mod(&mut m, entry("1_1", "A"));
    add_mod(&mut m, entry("2_2", "B"));
    add_mod(&mut m, entry("1_1", "A2"));
    assert_eq!(ids(&m), vec!["2_2".to_string(), "1_1".to_string()]);
    assert_eq!(m.mods[1].name, "A2");
}

#[test]
fn add_mod_twice_is_idempotent() {
    let mut m = GameManifest::default();
    add_mod(&mut m, entry("1_1", "A"));
    add_mod(&mut m, entry("1_1", "A"));
    assert_eq!(ids(&m), vec!["1_1".to_string()]);
}

#[test]
fn remove_mod_drops_entry() {
    let mut m = GameManifest::default();
    add_mod(&mut m, entry("1_1", "A"));
    add_mod(&mut m, entry("2_2", "B"));
    remove_mod(&mut m, "1_1");
    assert_eq!(ids(&m), vec!["2_2".to_string()]);
}

#[test]
fn remove_unknown_mod_changes_nothing() {
    let mut m = GameManifest::default();
    add_mod(&mut m, entry("1_1", "A"));
    remove_mod(&mut m, "9_9");
    assert_eq!(ids(&m), vec!["1_1".to_string()]);
    remove_mod(&mut m, "1_1");
    remove_mod(&mut m, "1_1");
    assert!(m.mods.is_empty());
}

#[test]
fn remove_after_add_leaves_other_ids() {
    let mut m = GameManifest::default();
    add_mod(&mut m, entry("2_2", "B"));
    add_mod(&mut m, entry("3_3", "C"));
    add_mod(&mut m, entry("1_1", "A"));
    remove_mod(&mut m, "1_1");
    assert_eq!(ids(&m), vec!["2_2".to_string(), "3_3".to_string()]);
}

#[test]
fn managed_entry_id_is_mod_and_file() {
    let e = managed_entry(6945, 12345, "Mod".to_string(), "2.0".to_string(), vec!["/g/x".to_string()]);
    assert_eq!(e.id, "6945_12345");
    assert_eq!(e.name, "Mod");
    assert_eq!(e.version, "2.0");
    assert_eq!(e.nexus_mod_id, Some(6945));
    assert_eq!(e.nexus_file_id, Some(12345));
    assert_eq!(e.components, vec!["/g/x".to_string()]);
}

#[test]
fn managed_entry_zero_ids() {
    let e = managed_entry(0, 0, String::new(), String::new(), Vec::new());
    assert_eq!(e.id, "0_0");
}

#[test]
fn manifest_path_below_home() {
    assert_eq!(
        manifest_path("/home/u", "1091500"),
        "/home/u/.config/linux-mod-manager/mods_1091500.json"
    );
    assert_eq!(
        manifest_path("/home/u/", "1091500"),
        "/home/u/.config/linux-mod-manager/mods_1091500.json"
    );
}

#[test]
fn is_enabled_when_first_component_present() {
    let comps = vec!["/p/a".to_string(), "/p/b".to_string()];
    assert!(is_enabled(&comps, &["/p/a".to_string()]));
}

#[test]
fn is_disabled_when_only_disabled_variant_present() {
    let comps = vec!["/p/a".to_string()];
    assert!(!is_enabled(&comps, &["/p/a.disabled".to_string()]));
}

#[test]
fn is_disabled_when_neither_present() {
    let comps = vec!["/p/a".to_string()];
    assert!(!is_enabled(&comps, &[]));
}

#[test]
fn no_components_is_disabled() {
    assert!(!is_enabled(&[], &["/p/a".to_string()]));
}
