use heliosav_layers::cookie_guard::{
    analyze_bytes, analyze_process_image, is_browser_cookie_store, is_browser_process_name,
    is_candidate_path, is_cookie_guard_candidate_file, is_known_cookie_tool_name, may_inspect_image,
    MAX_PROCESS_IMAGE_BYTES,
};

#[test]
fn recognizes_chromium_and_firefox_store_paths() {
    assert!(is_browser_cookie_store(
        r"C:\Users\alice\AppData\Local\Google\Chrome\User Data\Default\Network\Cookies"
    ));
    assert!(is_browser_cookie_store(
        r"C:\Users\alice\AppData\Roaming\Mozilla\Firefox\Profiles\x.default\cookies.sqlite"
    ));
    assert!(!is_browser_cookie_store(r"C:\Users\alice\Desktop\Cookies.txt"));
}

#[test]
fn requires_multiple_signals_for_high_confidence() {
    let score = analyze_bytes(
        r"C:\Users\alice\Downloads\update.exe",
        b"Network\\Cookies sqlite3 CryptUnProtectData Invoke-WebRequest base64",
    );
    assert!(score.high_confidence());
    assert!(score
        .indicators
        .iter()
        .all(|value| !value.contains("secret")));
}

#[test]
fn a_cookie_store_path_is_metadata_only() {
    let score = analyze_bytes(
        r"C:\Users\alice\AppData\Local\Chrome\User Data\Default\Network\Cookies",
        b"encrypted_value=secret_cookie_value",
    );
    assert!(score.browser_cookie_store);
    assert_eq!(score.score.units, 0);
    assert!(!score
        .indicators
        .iter()
        .any(|value| value.contains("secret")));
}

#[test]
fn utf16_indicators_are_detected_without_returning_contents() {
    let bytes: Vec<u8> = "cookies.sqlite\0Invoke-WebRequest"
        .encode_utf16()
        .flat_map(|unit| [unit as u8, (unit >> 8) as u8])
        .collect();
    let score = analyze_bytes(r"C:\Temp\loader.ps1", &bytes);
    assert!(score.medium_confidence());
    assert!(score
        .indicators
        .iter()
        .all(|value| !value.contains("cookies.sqlite")));
}

#[test]
fn silverfox_credential_chain_is_high_confidence() {
    let score = analyze_bytes(
        r"C:\Users\alice\AppData\Local\Temp\loader.exe",
        b"Login Data Web Data Local State CryptUnProtectData telegram requests.post",
    );
    assert!(score.high_confidence());
    assert!(score
        .indicators
        .iter()
        .any(|value| value == "silverfox_browser_credential_store"));
    assert!(score
        .indicators
        .iter()
        .all(|value| !value.contains("Login Data")));
}

#[test]
fn ordinary_content_scores_nothing() {
    let score = analyze_bytes(r"C:\Users\alice\notes.txt", b"shopping list");
    assert_eq!(score.score.units, 0);
    assert!(score.indicators.is_empty());
    assert!(!score.medium_confidence());
}

#[test]
fn browsers_and_tools_are_told_by_name() {
    assert!(is_browser_process_name(r"C:\Program Files\Google\Chrome\Application\chrome.exe"));
    assert!(!is_browser_process_name("notepad.exe"));
    assert!(!is_known_cookie_tool_name("notepad.exe"));
    assert!(is_cookie_guard_candidate_file(r"C:\a\run.ps1"));
    assert!(!is_cookie_guard_candidate_file(r"C:\a\photo.jpg"));
    assert!(is_candidate_path("/home/a/Run.EXE/", false));
    assert!(!is_candidate_path("/home/a/.exe", false));
    assert!(is_candidate_path(r"C:\a\.exe", false));
    assert!(!is_candidate_path(r"C:\a\.exe", true));
    assert!(!is_candidate_path("/profile/cookies.sqlite/x.exe", false));
}

#[test]
fn an_image_that_cannot_be_read_has_no_content() {
    assert!(may_inspect_image(true, 1));
    assert!(!may_inspect_image(false, 1));
    assert!(!may_inspect_image(true, MAX_PROCESS_IMAGE_BYTES + 1));
    let path = r"C:\Users\alice\AppData\Local\Temp\loader.exe";
    let seen = analyze_process_image(path, Some(b"Login Data CryptUnProtectData telegram"));
    let unseen = analyze_process_image(path, None);
    assert!(seen.score.units > unseen.score.units);
}
