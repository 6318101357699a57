use linux_mod_manager::display::{
    list_display_mods, removal_error, removal_for, toggle_plan, unmanaged_groups, DisplayMod, Removal,
};
use linux_mod_manager::installed::{GameManifest, InstalledMod};
use linux_mod_manager::modding::{Mod, ModType};

fn scanned(name: &str, path: &str, enabled: bool) -> Mod {
    Mod { name: name.to_string(), mod_type: ModType::Archive, path: path.to_string(), enabled }
}

fn managed(id: &str, name: &str, components: &[&str]) -> InstalledMod {
    InstalledMod {
        id: id.to_string(),
        name: name.to_string(),
        version: "1.0".to_string(),
        nexus_mod_id: None,
        nexus_file_id: None,
        components: components.iter().map(|s| s.to_string()).collect(),
    }
}

type Row = (String, String, String, bool, bool, Vec<String>);

fn rows(v: &[DisplayMod]) -> Vec<Row> {
    v.iter()
        .map(|d| (d.id.clone(), d.name.clone(), d.version.clone(), d.enabled, d.managed, d.components.clone()))
        .collect()
}

fn row(id: &str, name: &str, version: &str, enabled: bool, is_managed: bool, comps: &[&str]) -> Row {
    (
        id.to_string(),
        name.to_string(),
        version.to_string(),
        enabled,
        is_managed,
        comps.iter().map(|s| s.to_string()).collect(),
    )
}

#[test]
fn managed_and_unmanaged_rows_sorted_by_name() {
    let manifest = GameManifest {
        mods: vec![
            managed("10_1", "Zed Mod", &["/g/archive/pc/mod/zed.archive"]),
            managed("11_2", "beta", &["/g/mods/Beta", "/g/archive/pc/mod/beta.archive"]),
        ],
    };
    let present = vec!["/g/archive/pc/mod/zed.archive".to_string()];
    let scan = vec![
        scanned("zed", "/g/archive/pc/mod/zed.archive", true),
        scanned("Beta", "/g/archive/pc/mod/beta.archive.disabled", false),
        scanned("Alpha", "/g/archive/pc/mod/alpha.archive", true),
        scanned("Alpha", "/g/archive/pc/mod/alpha.xl.disabled", false),
        scanned("Gamma", "/g/archive/pc/mod/gamma.archive", true),
    ];
    let out = list_display_mods(&manifest, &present, &scan);
    assert_eq!(
        rows(&out),
        vec![
            row(
                "/g/archive/pc/mod/alpha.archive",
                "Alpha",
                "",
                false,
                false,
                &["/g/archive/pc/mod/alpha.archive", "/g/archive/pc/mod/alpha.xl.disabled"],
            ),
            row("11_2", "beta", "1.0", false, true, &["/g/mods/Beta", "/g/archive/pc/mod/beta.archive"]),
            row("/g/archive/pc/mod/gamma.archive", "Gamma", "", true, false, &["/g/archive/pc/mod/gamma.archive"]),
            row("10_1", "Zed Mod", "1.0", true, true, &["/g/archive/pc/mod/zed.archive"]),
        ]
    );
}

#[test]
fn empty_lists() {
    let out = list_display_mods(&GameManifest { mods: Vec::new() }, &[], &[]);
    assert!(out.is_empty());
}

#[test]
fn managed_mod_without_components_is_disabled() {
    let manifest = GameManifest { mods: vec![managed("1_1", "Empty", &[])] };
    let out = list_display_mods(&manifest, &[], &[]);
    assert_eq!(rows(&out), vec![row("1_1", "Empty", "1.0", false, true, &[])]);
}

#[test]
fn equal_lowercase_names_keep_their_order() {
    let scan = vec![scanned("b", "/p/1", true), scanned("B", "/p/2", true), scanned("a", "/p/3", true)];
    let out = list_display_mods(&GameManifest { mods: Vec::new() }, &[], &scan);
    let names: Vec<String> = out.iter().map(|d| d.name.clone()).collect();
    assert_eq!(names, vec!["a".to_string(), "b".to_string(), "B".to_string()]);
}

#[test]
fn groups_in_order_of_first_appearance() {
    let scan = vec![
        scanned("X", "/p/x1", true),
        scanned("Y", "/p/y1", false),
        scanned("X", "/p/x2", true),
    ];
    let groups = unmanaged_groups(&Vec::new(), &scan);
    assert_eq!(
        rows(&groups),
        vec![
            row("/p/x1", "X", "", true, false, &["/p/x1", "/p/x2"]),
            row("/p/y1", "Y", "", false, false, &["/p/y1"]),
        ]
    );
}

#[test]
fn toggle_plan_renames() {
    let comps = vec!["/g/a".to_string(), "/g/b".to_string()];
    assert_eq!(
        toggle_plan(&comps, false),
        vec![
            ("/g/a".to_string(), "/g/a.disabled".to_string()),
            ("/g/b".to_string(), "/g/b.disabled".to_string()),
        ]
    );
    assert_eq!(
        toggle_plan(&comps, true),
        vec![
            ("/g/a.disabled".to_string(), "/g/a".to_string()),
            ("/g/b.disabled".to_string(), "/g/b".to_string()),
        ]
    );
    assert!(toggle_plan(&Vec::new(), true).is_empty());
}

#[test]
fn toggle_plan_round_trip() {
    let comps = vec!["/g/a".to_string()];
    let off = toggle_plan(&comps, false);
    let on = toggle_plan(&comps, true);
    assert_eq!(off[0].1, on[0].0);
    assert_eq!(off[0].0, on[0].1);
}

#[test]
fn removal_decisions() {
    assert_eq!(removal_for(false, true), Removal::Skip);
    assert_eq!(removal_for(false, false), Removal::Skip);
    assert_eq!(removal_for(true, true), Removal::RemoveDir);
    assert_eq!(removal_for(true, false), Removal::RemoveFile);
    assert_eq!(removal_error("/g/a", "denied"), "Cannot remove /g/a: denied");
}
