use heliosav_layers::rule_text::{
    can_be_compiled, can_be_read_in, files_to_read, read_in, ReadInFile,
};
use heliosav_layers::yara::{
    plan_reload, report_matches, sha256_digest, verify_rule_integrity, RuleFile, RuleHit,
    SourceHash, YaraError, YaraScanner,
};

const SIMPLE_RULE: &str = r#"rule test_rule { strings: $a = "hello" condition: $a }"#;

fn rule_file(name: &str, content: &str) -> RuleFile {
    RuleFile {
        name: Some(name.to_string()),
        extension: name.rsplit_once('.').map(|(_, extension)| extension.to_string()),
        content: Ok(content.to_string()),
    }
}

#[test]
fn test_compile_and_scan_inline_rule() {
    let listing = Ok(vec![rule_file("test.yar", &format!("{SIMPLE_RULE}\n"))]);
    let scanner = YaraScanner::new("rules", &listing, &[], &None).expect("init scanner");
    let matches = scanner.scan_bytes(b"hello world").expect("scan_bytes");
    assert_eq!(matches.len(), 1);
    assert_eq!(matches[0].rule_name, "test_rule");
}

#[test]
fn test_reload_skips_malformed_rules() {
    let listing = Ok(vec![
        rule_file("good.yar", SIMPLE_RULE),
        rule_file("bad.yar", "this is not a yara rule"),
    ]);
    let mut scanner = YaraScanner::new("rules", &listing, &[], &None).expect("init scanner");
    let loaded = scanner.reload_rules(&listing, &[], &None).expect("reload");
    assert!(loaded >= 1);
    assert_eq!(loaded, 1);
    assert_eq!(scanner.version(), 3);

    let matches = scanner.scan_bytes(b"hello").expect("scan");
    assert!(!matches.is_empty());
    assert!(scanner.scan_bytes(b"goodbye").expect("scan").is_empty());
}

#[test]
fn other_files_are_passed_over() {
    let listing = Ok(vec![
        rule_file("notes.txt", SIMPLE_RULE),
        rule_file("nul.yar", "rule x { condition: true }\0"),
        RuleFile {
            name: Some("lost.yara".to_string()),
            extension: Some("YARA".to_string()),
            content: Err("denied".to_string()),
        },
    ]);
    let mut scanner = YaraScanner::new("rules", &listing, &[], &None).expect("init scanner");
    assert_eq!(scanner.reload_rules(&listing, &[], &None).expect("reload"), 0);
    assert!(scanner.scan_bytes(b"hello").expect("scan").is_empty());
}

#[test]
fn a_directory_that_cannot_be_read_is_an_error() {
    let listing = Err("denied".to_string());
    match YaraScanner::new("rules", &listing, &[], &None) {
        Err(YaraError::Io { path, message }) => {
            assert_eq!(path, "rules");
            assert_eq!(message, "denied");
        }
        _ => panic!("expected an I/O error"),
    }
}

#[test]
fn clashing_rules_keep_the_scanner_as_it_is() {
    let good = Ok(vec![rule_file("good.yar", SIMPLE_RULE)]);
    let mut scanner = YaraScanner::new("rules", &good, &[], &None).expect("init scanner");
    let clash = Ok(vec![
        rule_file("one.yar", SIMPLE_RULE),
        rule_file("two.yar", SIMPLE_RULE),
    ]);
    let error = scanner.reload_rules(&clash, &[], &None).expect_err("duplicate rule");
    assert!(error.message().starts_with("YARA compile error: compile failed: "));
    assert_eq!(scanner.version(), 2);
    assert_eq!(scanner.scan_bytes(b"hello").expect("scan").len(), 1);
}

#[test]
fn tampered_rules_are_refused() {
    let listing = Ok(vec![rule_file("good.yar", SIMPLE_RULE)]);
    let digest = sha256_digest(SIMPLE_RULE.as_bytes());
    let right = Some(Ok(format!("# rules\ngood.yar = {}\n", digest.to_uppercase())));
    assert!(YaraScanner::new("rules", &listing, &[], &right).is_ok());
    let wrong = Some(Ok(format!("good.yar = {}\n", "0".repeat(64))));
    match YaraScanner::new("rules", &listing, &[], &wrong) {
        Err(YaraError::Compile(message)) => assert_eq!(
            message,
            format!(
                "rule integrity mismatch for good.yar: expected {}, computed {digest}",
                "0".repeat(64)
            )
        ),
        _ => panic!("expected a refusal"),
    }
    let unread = Some(Err("denied".to_string()));
    assert!(YaraScanner::new("rules", &listing, &[], &unread).is_ok());
}

#[test]
fn the_last_line_of_a_manifest_counts() {
    let hashes = vec![
        SourceHash {
            name: Some("a.yar".to_string()),
            hash: "ab".to_string(),
        },
        SourceHash {
            name: None,
            hash: "cd".to_string(),
        },
    ];
    let check = |text: &str| verify_rule_integrity(&Some(Ok(text.to_string())), &hashes);
    assert_eq!(check(""), Ok(true));
    assert_eq!(check("a.yar=00\na.yar = AB"), Ok(true));
    assert!(check("a.yar=ab\na.yar=00").is_err());
    assert!(check("unknown=00").is_err());
    assert_eq!(check("#a.yar=00\nno equals sign\nb.yar=00"), Ok(true));
    assert_eq!(verify_rule_integrity(&None, &hashes), Ok(true));
    assert_eq!(
        verify_rule_integrity(&Some(Err("gone".to_string())), &hashes),
        Err("failed to read manifest: gone".to_string())
    );
    assert_eq!(
        sha256_digest(b"abc"),
        "ba7816bf8f01cfea414140de5dae2223b00361a396177a9cb410ff61f20015ad"
    );
}

#[test]
fn matches_count_their_tags() {
    let listing = Ok(vec![rule_file(
        "tagged.yar",
        "rule tagged : one two { condition: true }",
    )]);
    let scanner = YaraScanner::new("rules", &listing, &[], &None).expect("init scanner");
    let matches = scanner.scan_bytes(b"").expect("scan");
    assert_eq!(matches[0].score, 2);
    assert_eq!(matches[0].namespace, "default");

    let hits = Ok(vec![RuleHit {
        identifier: "r".to_string(),
        namespace: "n".to_string(),
        tags: 3,
    }]);
    let report = report_matches(&hits).expect("report");
    assert_eq!(report[0].rule_name, "r");
    assert_eq!(report[0].score, 3);
    let failed = report_matches(&Err("timeout".to_string())).expect_err("failed");
    assert_eq!(failed, YaraError::Scan("scan failed: timeout".to_string()));
}

#[test]
fn chosen_files_are_joined_by_lines() {
    let files = vec![rule_file("a.yar", "A"), rule_file("b.yar", "B"), rule_file("c.yar", "C")];
    let plan = plan_reload(&files, &[true, false, true]);
    assert_eq!(plan.source, "A\nC");
    assert_eq!(plan.loaded, 2);
    assert_eq!(plan.hashes[1].name.as_deref(), Some("c.yar"));
    assert_eq!(plan.hashes[1].hash, sha256_digest(b"C"));
}

/// A rule that asks for all the given strings, which need no escapes.
fn chain_rule(name: &str, strings: &[&str]) -> String {
    let mut text = format!("rule {name} {{ strings:\n");
    for (index, string) in strings.iter().enumerate() {
        text.push_str(&format!("$s{index} = \"{string}\" nocase\n"));
    }
    text.push_str("condition: all of them }\n");
    text
}

/// A small rule set in which every rule asks for correlated evidence.
fn repository() -> YaraScanner {
    let families = [
        chain_rule(
            "HeliosAV_PowerShell_Download_Execute",
            &["powershell", "Net.WebClient", "Invoke-Expression"],
        ),
        chain_rule(
            "HeliosAV_QakBot_QBot_Modular_Loader_Variants",
            &["MZ", "QakBot", "CurrentVersion", "WinHttpOpen"],
        ),
        chain_rule(
            "HeliosAV_Emotet_Macro_Dropper_Variants",
            &["AutoOpen", "WScript.Shell", "URLDownloadToFile", "regsvr32"],
        ),
    ]
    .concat();
    let behaviors = [
        chain_rule(
            "HeliosAV_WhiteBlack_Proxy_Sideload_Injection",
            &["MZ", "DllMain", "LoadLibrary", "WriteProcessMemory", "CreateRemoteThread"],
        ),
        chain_rule(
            "HeliosAV_Browser_Credential_Collection_Chain",
            &["Login Data", "Local State", "CryptUnprotectData", "FtpWebRequest"],
        ),
        chain_rule(
            "HeliosAV_Ransomware_Recovery_Disruption_Chain",
            &["vssadmin delete shadows", "BCryptEncrypt", "FindFirstFile"],
        ),
        chain_rule(
            "HeliosAV_BYOVD_Vulnerable_Driver_Release_Chain",
            &["zam64.sys", "CreateService", "DeviceIoControl"],
        ),
        chain_rule(
            "HeliosAV_CTF_TypeLib_Hijack_Loader_Chain",
            &["CtfLp", "RegSetValue", "LoadLibrary", "ctfmon.exe"],
        ),
        chain_rule(
            "HeliosAV_APC_Reflective_Injection_Chain",
            &["QueueUserAPC", "VirtualAllocEx", "WriteProcessMemory", "ResumeThread"],
        ),
    ]
    .concat();
    let listing = Ok(vec![
        rule_file("families.yar", &families),
        rule_file("behaviors.yara", &behaviors),
    ]);
    YaraScanner::new("rules", &listing, &[], &None).expect("repository rules should compile")
}

fn hits(scanner: &YaraScanner, data: &[u8], rule: &str) -> bool {
    scanner
        .scan_bytes(data)
        .expect("repository rules should scan")
        .iter()
        .any(|matched| matched.rule_name == rule)
}

#[test]
fn test_repository_rules_compile() {
    let scanner = repository();
    assert!(hits(
        &scanner,
        b"powershell Net.WebClient Invoke-Expression",
        "HeliosAV_PowerShell_Download_Execute"
    ));
    assert!(hits(
        &scanner,
        b"MZ QakBot CurrentVersion\\Run WinHttpOpen",
        "HeliosAV_QakBot_QBot_Modular_Loader_Variants"
    ));
    assert!(hits(
        &scanner,
        b"AutoOpen WScript.Shell URLDownloadToFile regsvr32 powershell",
        "HeliosAV_Emotet_Macro_Dropper_Variants"
    ));
}

#[test]
fn test_repository_rules_reject_single_indicators() {
    let scanner = repository();
    assert!(!hits(
        &scanner,
        b"MZ LoadLibrary GetProcAddress VirtualAlloc VirtualProtect DllMain",
        "HeliosAV_WhiteBlack_Proxy_Sideload_Injection"
    ));
    assert!(!hits(
        &scanner,
        b"MZ Login Data Cookies",
        "HeliosAV_Browser_Credential_Collection_Chain"
    ));
    assert!(!hits(
        &scanner,
        b"MZ vssadmin delete shadows",
        "HeliosAV_Ransomware_Recovery_Disruption_Chain"
    ));
}

#[test]
fn test_repository_behavior_rules_match_correlated_evidence() {
    let scanner = repository();
    assert!(hits(
        &scanner,
        b"MZ Login Data Local State CryptUnprotectData FtpWebRequest",
        "HeliosAV_Browser_Credential_Collection_Chain"
    ));
    assert!(hits(
        &scanner,
        b"MZ vssadmin delete shadows BCryptEncrypt FindFirstFile",
        "HeliosAV_Ransomware_Recovery_Disruption_Chain"
    ));
    assert!(hits(
        &scanner,
        b"MZ zam64.sys CreateService DeviceIoControl",
        "HeliosAV_BYOVD_Vulnerable_Driver_Release_Chain"
    ));
    assert!(hits(
        &scanner,
        br#"MZ Software\Microsoft\CTF CtfLp RegSetValue LoadLibrary ctfmon.exe \AppData\payload.dll"#,
        "HeliosAV_CTF_TypeLib_Hijack_Loader_Chain"
    ));
    assert!(hits(
        &scanner,
        b"MZ QueueUserAPC VirtualAllocEx WriteProcessMemory ResumeThread",
        "HeliosAV_APC_Reflective_Injection_Chain"
    ));
}

fn with_meta(name: &str, meta: &str) -> String {
    format!("rule {name} {{ meta: m = \"{meta}\" strings: $a = \"hello\" condition: $a }}")
}

#[test]
fn metadata_that_is_no_text_is_passed_over() {
    let listing = Ok(vec![
        rule_file("raw.yar", &with_meta("raw", r"\xff")),
        rule_file("plain.yar", &with_meta("plain", r"\x41 and \xe9".replace(r"\xe9", "é").as_str())),
    ]);
    let mut scanner = YaraScanner::new("rules", &listing, &[], &None).expect("init scanner");
    assert_eq!(scanner.reload_rules(&listing, &[], &None).expect("reload"), 1);
    let matches = scanner.scan_bytes(b"hello").expect("scan");
    assert_eq!(matches.len(), 1);
    assert_eq!(matches[0].rule_name, "plain");
}

#[test]
fn modules_that_are_no_text_are_passed_over() {
    let module = r#"import "\xff""#;
    assert!(!can_be_compiled(module));
    let long = format!("import \"a{}\"", "é".repeat(300));
    assert!(can_be_compiled(&long));
    let cut = format!("import \"{}\"", "é".repeat(300));
    assert!(!can_be_compiled(&cut));
    let listing = Ok(vec![
        rule_file("module.yar", module),
        rule_file("long.yar", &long),
        rule_file("cut.yar", &cut),
        rule_file("good.yar", SIMPLE_RULE),
    ]);
    let mut scanner = YaraScanner::new("rules", &listing, &[], &None).expect("init scanner");
    assert_eq!(scanner.reload_rules(&listing, &[], &None).expect("reload"), 1);
}

#[test]
fn patterns_may_hold_any_byte() {
    let text = "rule bytes { strings: $a = \"\\xff\\xfe\" $b = /\\xfd\"/ // m = \"\\xff\n\
                /* n = \"\\xff\" */ condition: any of them }";
    assert!(can_be_compiled(text));
    let listing = Ok(vec![rule_file("bytes.yar", text)]);
    let scanner = YaraScanner::new("rules", &listing, &[], &None).expect("init scanner");
    assert_eq!(scanner.scan_bytes(&[1, 0xff, 0xfe]).expect("scan").len(), 1);
    assert_eq!(scanner.scan_bytes(&[0xfd, b'"']).expect("scan").len(), 1);
    assert!(scanner.scan_bytes(&[0xfe]).expect("scan").is_empty());
}

#[test]
fn strings_are_told_apart_by_what_stands_before_them() {
    let text = |condition: &str| format!("rule r {{ condition: {condition} }}");
    assert!(can_be_compiled("import \"pe\""));
    assert!(can_be_compiled(&text(r#""a" == "\xff""#)));
    assert!(can_be_compiled(&text(r#""a" contains "\xff""#)));
    assert!(!can_be_compiled(&text(r#""\xff""#)));
    assert!(can_be_compiled(&text("\"é\"")));
    assert!(!can_be_compiled("rule r { condition: true }\0"));
    let word = format!("inclu{}", "de");
    assert!(can_be_compiled(&format!("{word} \"other.yar\"")));
    assert!(can_be_compiled(&format!("{word}\t\"\\xff.yar\"")));
    assert!(!can_be_compiled(&format!("{word}\n\"other.yar\"")));
    assert!(!can_be_compiled(&format!("x{word} \"other.yar\"")));
}

#[test]
fn escapes_may_write_text() {
    assert!(can_be_compiled(&with_meta("r", r"\xc3\xa9")));
    assert!(can_be_compiled(&with_meta("r", r"a\x00\xff")));
    assert!(!can_be_compiled(&with_meta("r", r"\xc3")));
    assert!(!can_be_compiled(&with_meta("r", r"\xc3\x00\xa9")));
    assert!(!can_be_compiled(&with_meta("r", "\\xc3é")));
    assert!(can_be_compiled(r#"import "\xc3\xa9""#));
    let listing = Ok(vec![rule_file("a.yar", &with_meta("text", r"\xc3\xa9"))]);
    let scanner = YaraScanner::new("rules", &listing, &[], &None).expect("init scanner");
    assert_eq!(scanner.scan_bytes(b"hello").expect("scan").len(), 1);
}

#[test]
fn a_quoted_string_is_not_cut_inside_a_character() {
    let module = |name: &str| format!("import \"{name}\"");
    assert!(can_be_compiled(&module(&format!("{}é", "a".repeat(253)))));
    assert!(!can_be_compiled(&module(&format!("{}é", "a".repeat(254)))));
    assert!(can_be_compiled(&module(&format!("{}é", "a".repeat(255)))));
    let literal = |text: &str| format!("rule r {{ condition: \"{text}\" }}");
    assert!(!can_be_compiled(&literal(&format!("{}é", "a".repeat(488)))));
    assert!(can_be_compiled(&literal(&format!("{}é", "a".repeat(487)))));
    let listing = Ok(vec![
        rule_file("a.yar", &module(&format!("{}é", "a".repeat(255)))),
        rule_file("b.yar", &literal(&format!("{}é{}", "a".repeat(487), "é".repeat(100)))),
        rule_file("c.yar", &literal(&format!("{}é", "a".repeat(488)))),
    ]);
    let mut scanner = YaraScanner::new("rules", &listing, &[], &None).expect("init scanner");
    assert_eq!(scanner.reload_rules(&listing, &[], &None).expect("reload"), 1);
}

fn reading(name: &str) -> String {
    format!("inclu{} \"{name}\"\n", "de")
}

fn plain(path: &str, text: &str) -> ReadInFile {
    read_in(path, text, false)
}

#[test]
fn rules_can_read_in_other_files() {
    let listing = Ok(vec![rule_file("a.yar", &reading("lib/first.yar"))]);
    let files = vec![
        plain("lib/first.yar", &format!("{}rule first {{ condition: true }}", reading("second.yar"))),
        plain("lib/second.yar", "rule second { condition: true }"),
    ];
    let mut scanner = YaraScanner::new("rules", &listing, &files, &None).expect("init scanner");
    assert_eq!(scanner.reload_rules(&listing, &files, &None).expect("reload"), 1);
    let mut names: Vec<String> =
        scanner.scan_bytes(b"x").expect("scan").into_iter().map(|m| m.rule_name).collect();
    names.sort();
    assert_eq!(names, ["first", "second"]);
    assert_eq!(scanner.reload_rules(&listing, &files[..1], &None).expect("reload"), 0);
}

#[test]
fn files_that_are_no_text_are_not_read_in() {
    let listing = Ok(vec![
        rule_file("a.yar", &reading("module.yar")),
        rule_file("b.yar", &reading("meta.yar")),
        rule_file("c.yar", &reading("open.yar")),
        rule_file("d.yar", SIMPLE_RULE),
    ]);
    let files = vec![
        plain("module.yar", r#"import "\xff""#),
        plain("meta.yar", &with_meta("raw", r"\xff")),
        plain("open.yar", "rule open { condition: true } /* goes on"),
    ];
    assert!(!can_be_read_in(&files[0].text));
    assert!(!can_be_read_in(&files[1].text));
    assert!(can_be_compiled(&files[2].text));
    assert!(!can_be_read_in(&files[2].text));
    let mut scanner = YaraScanner::new("rules", &listing, &files, &None).expect("init scanner");
    assert_eq!(scanner.reload_rules(&listing, &files, &None).expect("reload"), 1);
    assert_eq!(scanner.scan_bytes(b"hello").expect("scan").len(), 1);
}

#[test]
fn files_are_read_in_once() {
    let sources = vec![
        format!("{}{}", reading("b.yar"), reading("a.yar")),
        format!("// {}{}", reading("no.yar"), reading("b.yar")),
        format!("{}{}", reading("c.yar"), SIMPLE_RULE),
    ];
    assert_eq!(files_to_read(&sources, &["c.yar".to_string()]), ["b.yar", "a.yar"]);
    let unix = read_in("x/y.yar", &format!("{}{}", reading("z.yar"), reading("/z.yar")), false);
    assert_eq!(files_to_read(&[unix.text], &[]), ["x/z.yar", "/z.yar"]);
    let windows = read_in(
        r"x\y.yar",
        &format!("{}{}{}", reading("z.yar"), reading("C:/z.yar"), reading("/z.yar")),
        true,
    );
    assert_eq!(files_to_read(&[windows.text], &[]), [r"x\z.yar", "C:/z.yar", r"x\/z.yar"]);
    assert_eq!(read_in("y.yar", "a\0b", false).text, "a");
}

#[test]
fn texts_that_cannot_be_joined_are_not_loaded() {
    let good = Ok(vec![rule_file("a.yar", SIMPLE_RULE)]);
    let mut scanner = YaraScanner::new("rules", &good, &[], &None).expect("init scanner");
    let first = "rule first { condition: true } /*";
    let second = r#"rule second { strings: $a = "*/ import \"\xff\"" condition: $a }"#;
    assert!(can_be_compiled(first));
    assert!(can_be_compiled(second));
    assert!(!can_be_compiled(&format!("{first}\n{second}")));
    let listing = Ok(vec![rule_file("first.yar", first), rule_file("second.yar", second)]);
    assert_eq!(
        scanner.reload_rules(&listing, &[], &None),
        Err(YaraError::Compile(
            "compile failed: the rules cannot be compiled as one".to_string()
        ))
    );
    assert_eq!(scanner.version(), 2);
    assert_eq!(scanner.scan_bytes(b"hello").expect("scan").len(), 1);
}

#[test]
fn a_tampered_rule_file_keeps_what_is_loaded() {
    let listing = Ok(vec![rule_file("a.yar", SIMPLE_RULE)]);
    let mut scanner = YaraScanner::new("rules", &listing, &[], &None).expect("init scanner");
    let other = Ok(vec![
        rule_file("a.yar", "rule other { condition: true }"),
        rule_file("b.yar", "rule third { condition: false }"),
    ]);
    let manifest = Some(Ok(format!("a.yar={}", sha256_digest(SIMPLE_RULE.as_bytes()))));
    match scanner.reload_rules(&other, &[], &manifest) {
        Err(YaraError::Compile(text)) => {
            assert!(text.starts_with("rule integrity mismatch for a.yar: expected "))
        }
        outcome => panic!("unexpected outcome: {outcome:?}"),
    }
    assert_eq!(scanner.version(), 2);
    let matches = scanner.scan_bytes(b"hello").expect("scan");
    assert_eq!(matches.len(), 1);
    assert_eq!(matches[0].rule_name, "test_rule");
}
