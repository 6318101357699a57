use linux_mod_manager::modding::cyberpunk;
use linux_mod_manager::modding::{derive_components, is_cyberpunk_app, list_mods, toggle_mod, FsEntry, InstallTree, Mod, ModType};

fn file(name: &str) -> FsEntry {
    FsEntry { name: name.to_string(), exists: true, is_file: true, is_dir: false, children: Vec::new() }
}

fn dir(name: &str, children: Vec<FsEntry>) -> FsEntry {
    FsEntry { name: name.to_string(), exists: true, is_file: false, is_dir: true, children }
}

fn empty_tree() -> InstallTree {
    InstallTree {
        archive_mod: Vec::new(),
        mods: Vec::new(),
        cet_mods: Vec::new(),
        red4ext_plugins: Vec::new(),
        r6_scripts: Vec::new(),
        r6_tweaks: Vec::new(),
    }
}

fn sample_tree() -> InstallTree {
    InstallTree {
        archive_mod: vec![
            file("a.archive"),
            file("a.archive.xl"),
            file("b.archive.xl.disabled"),
            file("readme.txt"),
            dir("sub.archive", Vec::new()),
        ],
        mods: vec![dir("CoolRedmod", vec![file("info.json")]), dir("NoInfo", Vec::new())],
        cet_mods: vec![dir("cet_thing.disabled", Vec::new()), file("x.lua")],
        red4ext_plugins: vec![dir("Plugin", vec![file("plugin.DLL")]), dir("Empty", vec![file("a.txt")])],
        r6_scripts: vec![dir("Scripts", vec![dir("inner", vec![file("x.reds")])]), dir("NoReds", vec![file("x.txt")])],
        r6_tweaks: vec![file("tweak.yaml"), dir("TweakDir", Vec::new()), file("other.txt")],
    }
}

fn summary(mods: &[Mod]) -> Vec<(String, ModType, String, bool)> {
    mods.iter().map(|m| (m.name.clone(), m.mod_type, m.path.clone(), m.enabled)).collect()
}

#[test]
fn scanner_finds_each_kind_in_order() {
    let mods = list_mods("1091500", "/game", &sample_tree());
    let expected = vec![
        ("a".to_string(), ModType::Archive, "/game/archive/pc/mod/a.archive".to_string(), true),
        ("b".to_string(), ModType::Archive, "/game/archive/pc/mod/b.archive.xl.disabled".to_string(), false),
        (
            "cet thing".to_string(),
            ModType::Cet,
            "/game/bin/x64/plugins/cyber_engine_tweaks/mods/cet_thing.disabled".to_string(),
            false,
        ),
        ("Plugin".to_string(), ModType::Red4ext, "/game/red4ext/plugins/Plugin".to_string(), true),
        ("Cool Redmod".to_string(), ModType::Redmod, "/game/mods/CoolRedmod".to_string(), true),
        ("Scripts".to_string(), ModType::Redscript, "/game/r6/scripts/Scripts".to_string(), true),
        ("tweak".to_string(), ModType::Tweak, "/game/r6/tweaks/tweak.yaml".to_string(), true),
        ("Tweak Dir".to_string(), ModType::Tweak, "/game/r6/tweaks/TweakDir".to_string(), true),
    ];
    assert_eq!(summary(&mods), expected);
}

#[test]
fn scanner_of_cyberpunk_module_matches_dispatch() {
    let a = cyberpunk::list_mods("/game", &sample_tree());
    let b = list_mods("1091500", "/game", &sample_tree());
    assert_eq!(summary(&a), summary(&b));
}

#[test]
fn other_games_have_no_scanner() {
    assert!(list_mods("730", "/game", &sample_tree()).is_empty());
}

#[test]
fn empty_install_has_no_mods() {
    assert!(list_mods("1091500", "/game", &empty_tree()).is_empty());
}

#[test]
fn sidecar_without_parent_is_listed() {
    let mut tree = empty_tree();
    tree.archive_mod = vec![file("Only.archive.xl")];
    let mods = list_mods("1091500", "/g", &tree);
    assert_eq!(mods.len(), 1);
    assert_eq!(mods[0].name, "Only");
}

#[test]
fn sidecar_with_disabled_parent_is_skipped() {
    let mut tree = empty_tree();
    tree.archive_mod = vec![file("P.archive.disabled"), file("P.archive.xl")];
    let mods = list_mods("1091500", "/g", &tree);
    assert_eq!(mods.len(), 1);
    assert_eq!(mods[0].path, "/g/archive/pc/mod/P.archive.disabled");
    assert!(!mods[0].enabled);
}

#[test]
fn archive_kind_sorts_by_lowercase_name() {
    let mut tree = empty_tree();
    tree.archive_mod = vec![file("zeta.archive"), file("Alpha.archive"), file("beta.archive")];
    let mods = list_mods("1091500", "/g", &tree);
    let names: Vec<String> = mods.iter().map(|m| m.name.clone()).collect();
    assert_eq!(names, vec!["Alpha".to_string(), "beta".to_string(), "zeta".to_string()]);
}

#[test]
fn install_dir_with_trailing_slash() {
    let mut tree = empty_tree();
    tree.cet_mods = vec![dir("Mod", Vec::new())];
    let mods = list_mods("1091500", "/g/", &tree);
    assert_eq!(mods[0].path, "/g/bin/x64/plugins/cyber_engine_tweaks/mods/Mod");
}

#[test]
fn derive_components_dedups_and_sorts() {
    let extracted: Vec<String> = vec![
        "archive/pc/mod/x.archive",
        "bin\\x64\\plugins\\cyber_engine_tweaks\\mods\\Foo\\init.lua",
        "bin/x64/plugins/cyber_engine_tweaks/mods/Foo/data.json",
        "red4ext/plugins/P/p.dll",
        "r6/scripts/S/a.reds",
        "r6/scripts/S/b.reds",
        "r6/tweaks/t.yaml",
        "mods/M/info.json",
        "engine/config/x.ini",
        "mods/",
    ]
    .into_iter()
    .map(String::from)
    .collect();
    let comps = derive_components("1091500", "/game", &extracted);
    assert_eq!(
        comps,
        vec![
            "/game/archive/pc/mod/x.archive".to_string(),
            "/game/bin/x64/plugins/cyber_engine_tweaks/mods/Foo".to_string(),
            "/game/mods/M".to_string(),
            "/game/r6/scripts/S".to_string(),
            "/game/r6/tweaks/t.yaml".to_string(),
            "/game/red4ext/plugins/P".to_string(),
        ]
    );
    assert_eq!(cyberpunk::derive_components("/game", &extracted), comps);
}

#[test]
fn derive_components_of_other_game_is_empty() {
    let extracted = vec!["archive/pc/mod/x.archive".to_string()];
    assert!(derive_components("730", "/game", &extracted).is_empty());
}

#[test]
fn toggle_mod_enable_strips_suffix() {
    assert_eq!(
        toggle_mod("/g/x.archive.disabled", &ModType::Archive, true),
        Ok("/g/x.archive".to_string())
    );
}

#[test]
fn toggle_mod_enable_without_suffix_fails() {
    assert_eq!(
        toggle_mod("/g/x.archive", &ModType::Archive, true),
        Err("path does not end in .disabled: /g/x.archive".to_string())
    );
}

#[test]
fn toggle_mod_disable_appends_suffix() {
    assert_eq!(toggle_mod("/g/Mod", &ModType::Cet, false), Ok("/g/Mod.disabled".to_string()));
}

#[test]
fn toggle_mod_round_trip() {
    let disabled = toggle_mod("/g/mods/M", &ModType::Redmod, false).unwrap();
    assert_eq!(toggle_mod(&disabled, &ModType::Redmod, true), Ok("/g/mods/M".to_string()));
}

#[test]
fn components_are_the_paths_the_scanner_reports() {
    let extracted = vec![
        "r6/scripts/S/inner/a.reds".to_string(),
        "archive/pc/mod/x.archive".to_string(),
        "red4ext/plugins/P/p.dll".to_string(),
    ];
    let comps = derive_components("1091500", "/game", &extracted);
    let mut tree = empty_tree();
    tree.r6_scripts = vec![dir("S", vec![dir("inner", vec![file("a.reds")])])];
    tree.archive_mod = vec![file("x.archive")];
    tree.red4ext_plugins = vec![dir("P", vec![file("p.dll")])];
    let mut scanned: Vec<String> = list_mods("1091500", "/game", &tree).into_iter().map(|m| m.path).collect();
    scanned.sort();
    assert_eq!(comps, scanned);
}

#[test]
fn only_cyberpunk_has_a_scanner() {
    assert!(is_cyberpunk_app("1091500"));
    assert!(!is_cyberpunk_app("730"));
    assert!(!is_cyberpunk_app(""));
    assert!(!is_cyberpunk_app("10915000"));
}

#[test]
fn redmod_info_json_of_any_kind_counts() {
    let special = FsEntry { name: "info.json".to_string(), exists: true, is_file: false, is_dir: false, children: Vec::new() };
    let broken = FsEntry { name: "info.json".to_string(), exists: false, is_file: false, is_dir: false, children: Vec::new() };
    let mut tree = empty_tree();
    tree.mods = vec![dir("Fifo", vec![special]), dir("Broken", vec![broken])];
    let mods = list_mods("1091500", "/g", &tree);
    assert_eq!(mods.len(), 1);
    assert_eq!(mods[0].path, "/g/mods/Fifo");
}
