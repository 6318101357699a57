use linux_mod_manager::nexusmods::{parse_collection_ref, parse_mod_ref, ParsedModRef};

fn fields(r: &ParsedModRef) -> (String, u64, Option<u64>, Option<String>, Option<u64>, Option<u64>) {
    (r.game_domain.clone(), r.mod_id, r.file_id, r.nxm_key.clone(), r.nxm_expires, r.nxm_user_id)
}

fn err_of(input: &str) -> String {
    match parse_mod_ref(input) {
        Ok(_) => panic!("expected an error for {input}"),
        Err(e) => e,
    }
}

#[test]
fn web_url_is_parsed() {
    let r = parse_mod_ref("https://www.nexusmods.com/cyberpunk2077/mods/6945").unwrap();
    assert_eq!(fields(&r), ("cyberpunk2077".to_string(), 6945, None, None, None, None));
}

#[test]
fn web_url_with_query_is_parsed() {
    let r = parse_mod_ref("https://www.nexusmods.com/cyberpunk2077/mods/6945?tab=files").unwrap();
    assert_eq!(fields(&r), ("cyberpunk2077".to_string(), 6945, None, None, None, None));
}

#[test]
fn web_url_with_fragment_slash_and_spaces_is_parsed() {
    let r = parse_mod_ref("  https://www.nexusmods.com/skyrimspecialedition/mods/12/#top \n").unwrap();
    assert_eq!(fields(&r), ("skyrimspecialedition".to_string(), 12, None, None, None, None));
}

#[test]
fn nxm_link_is_parsed() {
    let r = parse_mod_ref("nxm://cyberpunk2077/mods/6945/files/12345?key=abc&expires=9999&user_id=1")
        .unwrap();
    assert_eq!(
        fields(&r),
        ("cyberpunk2077".to_string(), 6945, Some(12345), Some("abc".to_string()), Some(9999), Some(1))
    );
}

#[test]
fn nxm_link_without_query() {
    let r = parse_mod_ref("nxm://cyberpunk2077/mods/1/files/2").unwrap();
    assert_eq!(fields(&r), ("cyberpunk2077".to_string(), 1, Some(2), None, None, None));
}

#[test]
fn nxm_later_parameter_wins_and_bad_numbers_are_none() {
    let r = parse_mod_ref("nxm://g/mods/1/files/2?key=a&expires=x&key=b&user_id=7&other=1").unwrap();
    assert_eq!(fields(&r), ("g".to_string(), 1, Some(2), Some("b".to_string()), None, Some(7)));
}

#[test]
fn unrecognised_input() {
    assert_eq!(err_of("hello"), "Not a recognised NexusMods URL or NXM link");
}

#[test]
fn web_url_without_mods() {
    assert_eq!(err_of("https://www.nexusmods.com/cyberpunk2077"), "URL does not contain /mods/");
}

#[test]
fn web_url_without_id() {
    assert_eq!(err_of("https://www.nexusmods.com/cyberpunk2077/mods"), "Could not determine mod ID from URL");
    assert_eq!(err_of("https://www.nexusmods.com/cyberpunk2077/mods/"), "Could not determine mod ID from URL");
}

#[test]
fn web_url_with_bad_id() {
    assert_eq!(err_of("https://www.nexusmods.com/cyberpunk2077/mods/abc"), "Mod ID is not a number");
}

#[test]
fn web_url_with_mods_first() {
    assert_eq!(err_of("mods/nexusmods.com"), "Could not determine game from URL");
}

#[test]
fn nxm_too_short() {
    assert_eq!(err_of("nxm://cyberpunk2077/mods/6945"), "NXM link is malformed (too short)");
}

#[test]
fn nxm_collection_link_is_refused() {
    assert_eq!(
        err_of("nxm://cyberpunk2077/collections/x/revisions/1"),
        "This is a collection NXM link — use nexus_collection_lookup instead"
    );
}

#[test]
fn nxm_bad_ids() {
    assert_eq!(err_of("nxm://g/mods/x/files/1"), "NXM mod ID is not a number");
    assert_eq!(err_of("nxm://g/mods/1/files/y"), "NXM file ID is not a number");
}

#[test]
fn nxm_id_overflow_is_not_a_number() {
    assert_eq!(err_of("nxm://g/mods/18446744073709551616/files/1"), "NXM mod ID is not a number");
    let r = parse_mod_ref("nxm://g/mods/18446744073709551615/files/+1").unwrap();
    assert_eq!(r.mod_id, u64::MAX);
    assert_eq!(r.file_id, Some(1));
}

#[test]
fn collection_link_is_parsed() {
    let r = parse_collection_ref("nxm://cyberpunk2077/collections/devnx1/revisions/40").unwrap();
    assert_eq!(r.game_domain, "cyberpunk2077");
    assert_eq!(r.slug, "devnx1");
    assert_eq!(r.revision, 40);
}

#[test]
fn collection_link_with_query_and_slash() {
    let r = parse_collection_ref("nxm://g/collections/s/revisions/3/?x=1").unwrap();
    assert_eq!((r.game_domain.as_str(), r.slug.as_str(), r.revision), ("g", "s", 3));
}

#[test]
fn collection_link_errors() {
    assert_eq!(
        parse_collection_ref("nxm://g/collections/x").err(),
        Some("Not a valid collection NXM link".to_string())
    );
    assert_eq!(
        parse_collection_ref("nxm://g/mods/x/revisions/1").err(),
        Some("Not a valid collection NXM link".to_string())
    );
    assert_eq!(
        parse_collection_ref("nxm://g/collections/x/revisions/abc").err(),
        Some("Collection revision number is not valid".to_string())
    );
    assert_eq!(
        parse_collection_ref("nxm://g/collections/x/revisions/4294967296").err(),
        Some("Collection revision number is not valid".to_string())
    );
}

#[test]
fn unicode_white_space_is_trimmed() {
    let r = parse_mod_ref("\u{a0}\u{3000}https://www.nexusmods.com/cyberpunk2077/mods/7\u{2028}").unwrap();
    assert_eq!(r.mod_id, 7);
}
