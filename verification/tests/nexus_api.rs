use linux_mod_manager::nexusmods::{
    api_key_header, archive_entry_name, collection_archive_name, collection_bundle_link,
    collection_from_bundle, collection_manifest, mod_archive_name, detect_install_strategy, download_link_error,
    download_link_url, download_progress, first_cdn_link, first_download_link, game_info_url,
    destination_for, entry_destination, is_7z_header, is_collection_manifest, mod_files_from_api, mod_files_url,
    mod_info_from_api, mod_info_url, mod_page_url, parse_collection_ref, parse_mod_ref,
    ApiFileEntry, BundleMod, BundleModSource, GqlCollection, GqlReply, GqlRevision,
    InstallStrategy,
};

fn strings(v: &[&str]) -> Vec<String> {
    v.iter().map(|s| s.to_string()).collect()
}

// ── Install layout ────────────────────────────────────────────────────

#[test]
fn game_relative_layout() {
    let e = strings(&["archive/pc/mod/x.archive", "readme.txt"]);
    assert_eq!(detect_install_strategy(&e), Ok(InstallStrategy::GameRelative));
    let e = strings(&["engine/config/x.ini"]);
    assert_eq!(detect_install_strategy(&e), Ok(InstallStrategy::GameRelative));
}

#[test]
fn loose_archive_files_layout() {
    let e = strings(&["x.archive", "y.xl", "sub/", "sub/z.archive.xl"]);
    assert_eq!(detect_install_strategy(&e), Ok(InstallStrategy::DropIntoArchiveMod));
}

#[test]
fn empty_archive_is_loose_layout() {
    assert_eq!(detect_install_strategy(&[]), Ok(InstallStrategy::DropIntoArchiveMod));
}

#[test]
fn unknown_layout_lists_top_level() {
    let e = strings(&["readme.txt", "docs/b.md", "docs/a.md"]);
    assert_eq!(
        detect_install_strategy(&e),
        Err("Unrecognised mod structure. Top-level entries: docs, readme.txt. Please install this mod manually."
            .to_string())
    );
}

#[test]
fn unknown_layout_lists_at_most_eight() {
    let e = strings(&["j/x", "i/x", "h/x", "g/x", "f/x", "e/x", "d/x", "c/x", "b/x", "a/x"]);
    assert_eq!(
        detect_install_strategy(&e),
        Err("Unrecognised mod structure. Top-level entries: a, b, c, d, e, f, g, h. Please install this mod manually."
            .to_string())
    );
}

#[test]
fn destinations_by_layout() {
    assert_eq!(
        entry_destination(InstallStrategy::DropIntoArchiveMod, "x.archive"),
        Some("archive/pc/mod/x.archive".to_string())
    );
    assert_eq!(entry_destination(InstallStrategy::DropIntoArchiveMod, "sub/"), None);
    assert_eq!(entry_destination(InstallStrategy::GameRelative, "archive/"), None);
    assert_eq!(
        entry_destination(InstallStrategy::GameRelative, "archive/pc/mod/x.archive"),
        Some("archive/pc/mod/x.archive".to_string())
    );
    assert_eq!(destination_for(InstallStrategy::GameRelative, "r6/scripts/a.reds"), "r6/scripts/a.reds");
    assert_eq!(destination_for(InstallStrategy::DropIntoArchiveMod, "y.xl"), "archive/pc/mod/y.xl");
}

#[test]
fn archive_entry_names_use_slashes() {
    assert_eq!(archive_entry_name("a\\b\\c.archive"), "a/b/c.archive");
    assert_eq!(archive_entry_name("plain"), "plain");
}

#[test]
fn seven_zip_magic() {
    assert!(is_7z_header(&[0x37, 0x7A, 0xBC, 0xAF, 0x27, 0x1C]));
    assert!(is_7z_header(&[0x37, 0x7A, 0xBC, 0xAF, 0x27, 0x1C, 0x00]));
    assert!(!is_7z_header(&[0x37, 0x7A, 0xBC, 0xAF, 0x27]));
    assert!(!is_7z_header(&[b'P', b'K', 3, 4, 0, 0]));
    assert!(!is_7z_header(&[]));
}

// ── Mod information and files ─────────────────────────────────────────

#[test]
fn mod_info_defaults() {
    let i = mod_info_from_api(7, "N".to_string(), None, Some("1.2".to_string()), None);
    assert_eq!(i.mod_id, 7);
    assert_eq!(i.name, "N");
    assert_eq!(i.summary, "");
    assert_eq!(i.version, "1.2");
    assert_eq!(i.picture_url, None);
    let j = mod_info_from_api(8, "M".to_string(), Some("S".to_string()), None, Some("u".to_string()));
    assert_eq!(j.summary, "S");
    assert_eq!(j.version, "");
    assert_eq!(j.picture_url, Some("u".to_string()));
}

fn api_file(id: u64, name: Option<&str>, cat: Option<&str>) -> ApiFileEntry {
    ApiFileEntry {
        file_id: id,
        name: name.map(String::from),
        version: name.map(|_| "v".to_string()),
        size_kb: name.map(|_| 10),
        category_name: cat.map(String::from),
    }
}

#[test]
fn files_keep_newest_main_and_update_and_every_optional() {
    let entries = vec![
        api_file(1, Some("Main old"), Some("MAIN")),
        api_file(5, Some("Main new"), Some("main")),
        api_file(3, None, None),
        api_file(4, Some("Upd"), Some("UPDATE")),
        api_file(6, Some("Upd2"), Some("UPDATE")),
        api_file(2, Some("Opt A"), Some("OPTIONAL")),
        api_file(7, Some("Opt B"), Some("optional")),
        api_file(8, Some("Old"), Some("OLD_VERSION")),
        api_file(9, Some("Misc"), Some("MISCELLANEOUS")),
    ];
    let files = mod_files_from_api(&entries);
    let ids: Vec<u64> = files.iter().map(|f| f.file_id).collect();
    assert_eq!(ids, vec![5, 6, 7, 2]);
    assert_eq!(files[0].category, "main");
    assert_eq!(files[0].name, "Main new");
    assert_eq!(files[2].category, "optional");
}

#[test]
fn absent_file_fields_take_defaults() {
    let files = mod_files_from_api(&vec![api_file(3, None, None)]);
    assert_eq!(files.len(), 1);
    assert_eq!(files[0].file_id, 3);
    assert_eq!(files[0].name, "");
    assert_eq!(files[0].version, "");
    assert_eq!(files[0].size_kb, 0);
    assert_eq!(files[0].category, "MAIN");
}

#[test]
fn no_offered_files() {
    let files = mod_files_from_api(&vec![api_file(1, Some("x"), Some("ARCHIVED"))]);
    assert!(files.is_empty());
}

// ── Endpoints ─────────────────────────────────────────────────────────

#[test]
fn endpoints_of_a_mod() {
    let r = parse_mod_ref("https://www.nexusmods.com/cyberpunk2077/mods/6945").unwrap();
    assert_eq!(mod_info_url(&r), "https://api.nexusmods.com/v1/games/cyberpunk2077/mods/6945.json");
    assert_eq!(mod_files_url(&r), "https://api.nexusmods.com/v1/games/cyberpunk2077/mods/6945/files.json");
    assert_eq!(
        download_link_url(&r, 12345),
        "https://api.nexusmods.com/v1/games/cyberpunk2077/mods/6945/files/12345/download_link.json"
    );
}

#[test]
fn download_link_carries_nxm_key() {
    let r = parse_mod_ref("nxm://cyberpunk2077/mods/6945/files/12345?key=abc&expires=9999&user_id=1").unwrap();
    assert_eq!(
        download_link_url(&r, 12345),
        "https://api.nexusmods.com/v1/games/cyberpunk2077/mods/6945/files/12345/download_link.json?key=abc&expires=9999"
    );
    let s = parse_mod_ref("nxm://cyberpunk2077/mods/6945/files/12345?key=abc").unwrap();
    assert_eq!(
        download_link_url(&s, 1),
        "https://api.nexusmods.com/v1/games/cyberpunk2077/mods/6945/files/1/download_link.json"
    );
}

#[test]
fn game_and_page_urls() {
    assert_eq!(game_info_url("cyberpunk2077"), "https://api.nexusmods.com/v1/games/cyberpunk2077.json");
    assert_eq!(mod_page_url("cyberpunk2077", 6945), "https://www.nexusmods.com/cyberpunk2077/mods/6945");
}

#[test]
fn page_url_reads_back() {
    let url = mod_page_url("witcher3", 42);
    let r = parse_mod_ref(&url).unwrap();
    assert_eq!(r.game_domain, "witcher3");
    assert_eq!(r.mod_id, 42);
}

#[test]
fn api_key_header_accepts_plain_keys() {
    assert_eq!(api_key_header("abcDEF123==").unwrap().as_bytes(), b"abcDEF123==");
    assert!(api_key_header("").is_ok());
    assert!(api_key_header("tab\tinside").is_ok());
}

#[test]
fn api_key_header_refuses_control_characters() {
    assert_eq!(api_key_header("bad\nkey").err(), Some("Invalid API key characters".to_string()));
    assert_eq!(api_key_header("del\u{7f}").err(), Some("Invalid API key characters".to_string()));
}

// ── Download links and progress ───────────────────────────────────────

#[test]
fn download_link_errors_by_status() {
    assert_eq!(download_link_error(200, "200 OK", "[]"), None);
    assert_eq!(
        download_link_error(403, "403 Forbidden", "x"),
        Some("Download links require a NexusMods Premium account or a valid NXM key.".to_string())
    );
    assert_eq!(
        download_link_error(400, "400 Bad Request", "bad key"),
        Some("NexusMods rejected the download key (HTTP 400): bad key\nMake sure you are logged into nexusmods.com in your browser as the same account whose API key is saved in Settings.".to_string())
    );
    assert_eq!(
        download_link_error(500, "500 Internal Server Error", "oops"),
        Some("NexusMods API error: HTTP 500 Internal Server Error: oops".to_string())
    );
    assert_eq!(
        download_link_error(302, "302 Found", ""),
        Some("NexusMods API error: HTTP 302 Found: ".to_string())
    );
}

#[test]
fn first_links() {
    assert_eq!(first_download_link(&strings(&["a", "b"])), Ok("a".to_string()));
    assert_eq!(first_download_link(&Vec::new()), Err("No download links returned".to_string()));
    assert_eq!(first_cdn_link(&strings(&["c"])), Ok("c".to_string()));
    assert_eq!(
        first_cdn_link(&Vec::new()),
        Err("No CDN download links returned for collection".to_string())
    );
}

#[test]
fn progress_is_reported_in_percent_and_kilobytes() {
    let p = download_progress(512 * 1024, 1024 * 1024).unwrap();
    assert_eq!((p.pct, p.downloaded_kb, p.total_kb), (50, 512, 1024));
    let q = download_progress(3000, 2000).unwrap();
    assert_eq!(q.pct, 100);
    let z = download_progress(0, 10).unwrap();
    assert_eq!((z.pct, z.downloaded_kb, z.total_kb), (0, 0, 0));
}

#[test]
fn progress_without_total_is_not_reported() {
    assert!(download_progress(100, 0).is_none());
}

// ── Collections ───────────────────────────────────────────────────────

fn reply(errors: Option<Vec<&str>>, link: Option<&str>, with_revision: bool) -> GqlReply {
    GqlReply {
        revision: if with_revision {
            Some(GqlRevision {
                collection: Some(GqlCollection {
                    name: Some("Col".to_string()),
                    summary: None,
                    slug: Some("col".to_string()),
                }),
                download_link: link.map(String::from),
            })
        } else {
            None
        },
        errors: errors.map(|v| strings(&v)),
    }
}

#[test]
fn bundle_link_is_made_absolute() {
    let (c, url) = collection_bundle_link(reply(None, Some("/v2/bundle/1"), true)).unwrap();
    assert_eq!(url, "https://api.nexusmods.com/v2/bundle/1");
    assert_eq!(c.name, Some("Col".to_string()));
    let (_, url2) = collection_bundle_link(reply(Some(vec![]), Some("https://cdn/x"), true)).unwrap();
    assert_eq!(url2, "https://cdn/x");
}

#[test]
fn bundle_link_errors() {
    assert_eq!(
        collection_bundle_link(reply(Some(vec!["a", "b"]), Some("/x"), true)).err(),
        Some("NexusMods collection error: a; b".to_string())
    );
    assert_eq!(
        collection_bundle_link(reply(None, Some("/x"), false)).err(),
        Some("Collection revision not found".to_string())
    );
    assert_eq!(
        collection_bundle_link(reply(None, None, true)).err(),
        Some("No bundle download link returned — collection may require NexusMods Premium".to_string())
    );
}

#[test]
fn mod_archive_file_name() {
    assert_eq!(mod_archive_name(12345), "lmm_mod_12345.tmp");
}

#[test]
fn collection_archive_file_name() {
    let r = parse_collection_ref("nxm://cyberpunk2077/collections/devnx1/revisions/40").unwrap();
    assert_eq!(collection_archive_name(&r), "lmm_collection_devnx1_40.7z");
}

#[test]
fn collection_manifest_entry() {
    assert!(is_collection_manifest("collection.json"));
    assert!(is_collection_manifest("bundle/collection.json"));
    assert!(!is_collection_manifest("collection.json.bak"));
    assert_eq!(collection_manifest(Some("{}".to_string())), Ok("{}".to_string()));
    assert_eq!(
        collection_manifest(None),
        Err("collection.json not found inside archive".to_string())
    );
}

fn bundle_mod(name: Option<&str>, domain: Option<&str>, ids: Option<(Option<u64>, Option<u64>)>, optional: Option<bool>) -> BundleMod {
    BundleMod {
        name: name.map(String::from),
        version: None,
        optional,
        domain_name: domain.map(String::from),
        source: ids.map(|(m, f)| BundleModSource { mod_id: m, file_id: f }),
    }
}

#[test]
fn collection_mods_from_bundle() {
    let r = parse_collection_ref("nxm://cyberpunk2077/collections/devnx1/revisions/40").unwrap();
    let col = GqlCollection { name: None, summary: Some("S".to_string()), slug: None };
    let mods = vec![
        bundle_mod(Some("A"), None, Some((Some(1), Some(10))), Some(true)),
        bundle_mod(Some("B"), Some("witcher3"), Some((Some(2), Some(20))), None),
        bundle_mod(Some("C"), None, Some((Some(3), None)), None),
        bundle_mod(Some("D"), None, None, None),
    ];
    let (info, list) = collection_from_bundle(&r, &col, &mods);
    assert_eq!(info.name, "devnx1");
    assert_eq!(info.summary, "S");
    assert_eq!(info.slug, "devnx1");
    assert_eq!(info.revision, 40);
    assert_eq!(info.mod_count, 2);
    assert_eq!(info.game_domain, "cyberpunk2077");
    assert_eq!(list.len(), 2);
    assert_eq!((list[0].mod_id, list[0].file_id, list[0].name.as_str()), (1, 10, "A"));
    assert_eq!(list[0].game_domain, "cyberpunk2077");
    assert!(list[0].optional);
    assert_eq!(list[0].version, "");
    assert_eq!(list[1].game_domain, "witcher3");
    assert!(!list[1].optional);
}
