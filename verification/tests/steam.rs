use linux_mod_manager::modding::FsEntry;
use linux_mod_manager::steam::{
    cover_candidate, cover_data_url, cover_data_url_from, dedup_keep_first, distinct_present, game_from_manifest,
    is_app_manifest_file, is_real_game, settings_path, sort_games, steam_root_candidates, vdf_get,
    vdf_get_first, Game,
};

const LIBRARY_FOLDERS: &str = "\"libraryfolders\"\r\n{\r\n\t\"0\"\r\n\t{\r\n\t\t\"path\"\t\t\"/home/u/.local/share/Steam\"\r\n\t\t\"label\"\t\t\"\"\r\n\t}\r\n\t\"1\"\r\n\t{\r\n\t\t\"path\"\t\t\"/mnt/games/SteamLibrary\"\r\n\t}\r\n}\r\n";

fn manifest(state: &str, name: &str) -> String {
    format!(
        "\"AppState\"\n{{\n\t\"appid\"\t\t\"1091500\"\n\t\"name\"\t\t\"{name}\"\n\t\"StateFlags\"\t\t\"{state}\"\n\t\"installdir\"\t\t\"Cyberpunk 2077\"\n\t\"SizeOnDisk\"\t\t\"71234567890\"\n}}\n"
    )
}

#[test]
fn vdf_values_in_order() {
    assert_eq!(
        vdf_get(LIBRARY_FOLDERS, "path"),
        vec!["/home/u/.local/share/Steam".to_string(), "/mnt/games/SteamLibrary".to_string()]
    );
    assert_eq!(vdf_get(LIBRARY_FOLDERS, "label"), vec!["".to_string()]);
    assert!(vdf_get(LIBRARY_FOLDERS, "missing").is_empty());
}

#[test]
fn vdf_first_value() {
    assert_eq!(vdf_get_first(LIBRARY_FOLDERS, "path"), Some("/home/u/.local/share/Steam".to_string()));
    assert_eq!(vdf_get_first(LIBRARY_FOLDERS, "nothing"), None);
}

#[test]
fn vdf_line_needs_quoted_value() {
    assert!(vdf_get("\"key\" value", "key").is_empty());
    assert!(vdf_get("\"key\" \"", "key").is_empty());
    assert_eq!(vdf_get("  \"key\"   \"v\"  ", "key"), vec!["v".to_string()]);
    assert_eq!(vdf_get("\"keyx\" \"v\"", "key"), Vec::<String>::new());
}

#[test]
fn steam_tools_are_not_games() {
    assert!(!is_real_game("Proton 8.0"));
    assert!(!is_real_game("Proton Experimental"));
    assert!(!is_real_game("Steam Linux Runtime 3.0 (sniper)"));
    assert!(!is_real_game("Steamworks Common Redistributables"));
    assert!(!is_real_game("SteamVR"));
    assert!(!is_real_game("Steam OST Player"));
    assert!(is_real_game("Cyberpunk 2077"));
    assert!(is_real_game("Protonic Games"));
}

#[test]
fn app_manifest_file_names() {
    assert!(is_app_manifest_file("appmanifest_1091500.acf"));
    assert!(!is_app_manifest_file("appmanifest_1091500.acf.tmp"));
    assert!(!is_app_manifest_file("libraryfolders.vdf"));
}

#[test]
fn installed_game_from_manifest() {
    let g = game_from_manifest(&manifest("4", "Cyberpunk 2077"), "/mnt/games/SteamLibrary").unwrap();
    assert_eq!(g.app_id, "1091500");
    assert_eq!(g.name, "Cyberpunk 2077");
    assert_eq!(g.install_dir, "Cyberpunk 2077");
    assert_eq!(g.library_path, "/mnt/games/SteamLibrary");
    assert_eq!(g.size_on_disk, 71234567890);
    assert_eq!(g.cover_path, None);
}

#[test]
fn manifest_that_is_not_installed_or_a_tool() {
    assert!(game_from_manifest(&manifest("6", "Cyberpunk 2077"), "/lib").is_none());
    assert!(game_from_manifest(&manifest("4", "Proton 9.0"), "/lib").is_none());
    assert!(game_from_manifest(&manifest("4", ""), "/lib").is_none());
    assert!(game_from_manifest("\"StateFlags\" \"4\"", "/lib").is_none());
}

#[test]
fn manifest_with_absent_fields() {
    let g = game_from_manifest("\"StateFlags\" \"4\"\n\"name\" \"Game\"\n\"SizeOnDisk\" \"big\"", "/lib").unwrap();
    assert_eq!(g.app_id, "");
    assert_eq!(g.install_dir, "");
    assert_eq!(g.size_on_disk, 0);
}

fn game(name: &str) -> Game {
    Game {
        app_id: String::new(),
        name: name.to_string(),
        install_dir: String::new(),
        library_path: String::new(),
        size_on_disk: 0,
        cover_path: None,
    }
}

#[test]
fn games_sorted_by_lowercase_name_stably() {
    let mut second = game("alpha");
    second.app_id = "2".to_string();
    let mut first = game("Alpha");
    first.app_id = "1".to_string();
    let sorted = sort_games(vec![game("zeta"), first, game("Beta"), second]);
    let names: Vec<(String, String)> = sorted.iter().map(|g| (g.name.clone(), g.app_id.clone())).collect();
    assert_eq!(
        names,
        vec![
            ("Alpha".to_string(), "1".to_string()),
            ("alpha".to_string(), "2".to_string()),
            ("Beta".to_string(), String::new()),
            ("zeta".to_string(), String::new()),
        ]
    );
}

#[test]
fn paths_below_home() {
    assert_eq!(settings_path("/home/u"), "/home/u/.config/linux-mod-manager/settings.json");
    assert_eq!(
        steam_root_candidates("/home/u"),
        vec![
            "/home/u/.steam/steam".to_string(),
            "/home/u/.steam/root".to_string(),
            "/home/u/.local/share/Steam".to_string(),
            "/home/u/.var/app/com.valvesoftware.Steam/data/Steam".to_string(),
            "/home/u/snap/steam/common/.local/share/Steam".to_string(),
        ]
    );
}

#[test]
fn dedup_keeps_first_occurrence() {
    let v: Vec<String> = ["b", "a", "b", "c", "a"].iter().map(|s| s.to_string()).collect();
    assert_eq!(dedup_keep_first(v), vec!["b".to_string(), "a".to_string(), "c".to_string()]);
    assert!(dedup_keep_first(Vec::new()).is_empty());
}

fn file(name: &str) -> FsEntry {
    FsEntry { name: name.to_string(), exists: true, is_file: true, is_dir: false, children: Vec::new() }
}

fn dir(name: &str, children: Vec<FsEntry>) -> FsEntry {
    FsEntry { name: name.to_string(), exists: true, is_file: false, is_dir: true, children }
}

#[test]
fn cover_prefers_flat_portrait_then_header() {
    let es = vec![file("header.jpg"), file("library_600x900.jpg")];
    assert_eq!(cover_candidate(&es), Some("library_600x900.jpg".to_string()));
    let es = vec![file("header.jpg"), dir("abc", vec![file("library_600x900.jpg")])];
    assert_eq!(cover_candidate(&es), Some("header.jpg".to_string()));
}

#[test]
fn cover_in_hashed_subdirectories() {
    let es = vec![
        dir("h1", vec![file("library_capsule.jpg")]),
        dir("h2", vec![file("library_600x900.jpg")]),
    ];
    assert_eq!(cover_candidate(&es), Some("h2/library_600x900.jpg".to_string()));
    let es = vec![dir("h1", vec![file("library_header.jpg")]), dir("h2", vec![file("library_capsule.jpg")])];
    assert_eq!(cover_candidate(&es), Some("h2/library_capsule.jpg".to_string()));
    let es = vec![dir("h1", vec![file("library_header.jpg")])];
    assert_eq!(cover_candidate(&es), Some("h1/library_header.jpg".to_string()));
}

#[test]
fn no_cover() {
    assert_eq!(cover_candidate(&Vec::new()), None);
    let es = vec![file("other.png"), dir("h", vec![file("icon.jpg")])];
    assert_eq!(cover_candidate(&es), None);
}

#[test]
fn cover_data_urls() {
    assert_eq!(cover_data_url_from("/c/a.jpg", "QUJD"), "data:image/jpeg;base64,QUJD");
    assert_eq!(cover_data_url_from("/c/a.jpeg", "x"), "data:image/jpeg;base64,x");
    assert_eq!(cover_data_url_from("/c/a.png", "x"), "data:image/png;base64,x");
    assert_eq!(cover_data_url("/c/a.jpg", b"ABC"), "data:image/jpeg;base64,QUJD");
    assert_eq!(cover_data_url("/c/a.png", b"hi"), "data:image/png;base64,aGk=");
    assert_eq!(cover_data_url("/c/a", b""), "data:image/png;base64,");
}

#[test]
fn present_candidates_each_once() {
    let found = vec![
        None,
        Some("/a".to_string()),
        Some("/b".to_string()),
        None,
        Some("/a".to_string()),
    ];
    assert_eq!(distinct_present(&found), vec!["/a".to_string(), "/b".to_string()]);
    assert!(distinct_present(&vec![None, None]).is_empty());
}
