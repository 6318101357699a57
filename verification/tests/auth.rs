use linux_mod_manager::auth::{
    auth_game_domain, auth_results_json, auth_start_url, login_poll, nxm_link_in_args,
    AuthDecodeError, AuthModInfo, LoginPoll,
};

fn info(domain: &str, mod_id: u64) -> AuthModInfo {
    AuthModInfo {
        mod_id,
        file_id: 1,
        game_domain: domain.to_string(),
        name: "N".to_string(),
        version: "1".to_string(),
    }
}

#[test]
fn game_domain_of_first_mod_or_cyberpunk() {
    assert_eq!(auth_game_domain(&vec![info("witcher3", 1), info("other", 2)]), "witcher3");
    assert_eq!(auth_game_domain(&Vec::new()), "cyberpunk2077");
}

#[test]
fn session_starts_on_first_mod_page() {
    assert_eq!(
        auth_start_url(&vec![info("cyberpunk2077", 6945), info("x", 1)]),
        Ok("https://www.nexusmods.com/cyberpunk2077/mods/6945".to_string())
    );
    assert_eq!(auth_start_url(&Vec::new()), Err("no mods provided".to_string()));
}

#[test]
fn fragment_without_results_marker() {
    assert_eq!(auth_results_json(""), None);
    assert_eq!(auth_results_json("other:abc"), None);
}

#[test]
fn results_decode_from_url_safe_base64() {
    // "[{\"a\":1}]" in URL-safe base64 without padding.
    assert_eq!(auth_results_json("lmm-results:W3siYSI6MX1d"), Some(Ok("[{\"a\":1}]".to_string())));
    // "hi?" is "aGk_" in URL-safe base64 and "aGk/" in standard base64.
    assert_eq!(auth_results_json("lmm-results:aGk_"), Some(Ok("hi?".to_string())));
    // "ab>" is "YWI-" in URL-safe base64.
    assert_eq!(auth_results_json("lmm-results:YWI-"), Some(Ok("ab>".to_string())));
}

#[test]
fn results_padding_is_restored() {
    // "hi" is "aGk" without padding.
    assert_eq!(auth_results_json("lmm-results:aGk"), Some(Ok("hi".to_string())));
    // "h" is "aA" without padding.
    assert_eq!(auth_results_json("lmm-results:aA"), Some(Ok("h".to_string())));
    assert_eq!(auth_results_json("lmm-results:"), Some(Ok(String::new())));
}

#[test]
fn results_that_are_not_base64() {
    assert_eq!(auth_results_json("lmm-results:!!!!"), Some(Err(AuthDecodeError::Base64)));
    assert_eq!(auth_results_json("lmm-results:a"), Some(Err(AuthDecodeError::Base64)));
}

#[test]
fn results_that_are_not_utf8() {
    // 0xFF 0xFE is "__4" in URL-safe base64.
    assert_eq!(auth_results_json("lmm-results:__4"), Some(Err(AuthDecodeError::Utf8)));
}

fn poll(host: &str, path: &str, fragment: &str) -> String {
    match login_poll(host, path, fragment) {
        LoginPoll::Wait => "wait".to_string(),
        LoginPoll::ExtractUsername => "extract".to_string(),
        LoginPoll::Complete(None) => "complete".to_string(),
        LoginPoll::Complete(Some(u)) => format!("complete:{u}"),
    }
}

#[test]
fn login_waits_outside_accounts_site() {
    assert_eq!(poll("www.nexusmods.com", "/", ""), "wait");
    assert_eq!(poll("", "", ""), "wait");
}

#[test]
fn login_waits_during_sign_in() {
    assert_eq!(poll("users.nexusmods.com", "/auth/sign_in", "lmm-user:bob"), "wait");
}

#[test]
fn login_asks_for_username_once_signed_in() {
    assert_eq!(poll("users.nexusmods.com", "/account/profile", ""), "extract");
    assert_eq!(poll("users.nexusmods.com", "/auth", "x"), "extract");
}

#[test]
fn login_completes_with_username_from_fragment() {
    assert_eq!(poll("users.nexusmods.com", "/account", "lmm-user:bob_1"), "complete:bob_1");
    assert_eq!(poll("users.nexusmods.com", "/account", "lmm-user:"), "complete");
}

#[test]
fn nxm_link_among_arguments() {
    let args: Vec<String> = ["/usr/bin/app", "--flag", "nxm://g/mods/1/files/2", "nxm://g/mods/3/files/4"]
        .iter()
        .map(|s| s.to_string())
        .collect();
    assert_eq!(nxm_link_in_args(&args), Some("nxm://g/mods/1/files/2".to_string()));
    let none: Vec<String> = vec!["/usr/bin/app".to_string(), "NXM://x".to_string()];
    assert_eq!(nxm_link_in_args(&none), None);
}
