use heliosav_layers::score::Score;
use heliosav_layers::static_sandbox::{
    analyze_static_sandbox, extract_urls, pe_import_names, predict, MAX_ANALYSIS_BYTES,
};

/// A minimal PE64 image with an import directory.
fn minimal_pe(import_dll: &str, functions: &[&str]) -> Vec<u8> {
    let mut dos = vec![0u8; 0x40];
    dos[..2].copy_from_slice(b"MZ");
    dos[0x3c..0x40].copy_from_slice(&0x40u32.to_le_bytes());
    let mut pe = Vec::new();
    pe.extend_from_slice(b"PE\0\0");
    pe.extend_from_slice(&0x8664u16.to_le_bytes()); // machine
    pe.extend_from_slice(&1u16.to_le_bytes()); // one section
    pe.extend_from_slice(&0u32.to_le_bytes()); // timestamp
    pe.extend_from_slice(&0u32.to_le_bytes()); // no symbol table
    pe.extend_from_slice(&0u32.to_le_bytes());
    pe.extend_from_slice(&240u16.to_le_bytes());
    pe.extend_from_slice(&0x0022u16.to_le_bytes());

    let dir_rva = 0x2000usize;
    let dll_name_rva = 0x2100usize;
    let first_thunk_rva = 0x2200usize;
    let original_first_thunk_rva = 0x2300usize;
    let hint_name_base = 0x2400usize;

    let mut import_blob = [0u8; 0x600];
    import_blob[0..4].copy_from_slice(&(original_first_thunk_rva as u32).to_le_bytes());
    import_blob[12..16].copy_from_slice(&(dll_name_rva as u32).to_le_bytes());
    import_blob[16..20].copy_from_slice(&(first_thunk_rva as u32).to_le_bytes());

    for (offset, byte) in import_dll.bytes().enumerate() {
        import_blob[dll_name_rva - dir_rva + offset] = byte.to_ascii_uppercase();
    }

    let mut hint_offset = 0usize;
    let hint_blob_base = hint_name_base - dir_rva;
    let mut thunk_values = Vec::new();
    for function in functions {
        let name = format!("{function}\0");
        let needed = hint_blob_base + hint_offset + 2 + name.len() + 8;
        if needed >= import_blob.len() || thunk_values.len() >= 12 {
            break;
        }
        thunk_values.push((hint_name_base as u32) + (hint_offset as u32));
        let write_at = hint_blob_base + hint_offset;
        import_blob[write_at] = 0;
        import_blob[write_at + 1] = 0;
        let bytes = name.as_bytes();
        import_blob[write_at + 2..write_at + 2 + bytes.len()].copy_from_slice(bytes);
        hint_offset += 2 + bytes.len();
    }
    for (index, value) in thunk_values.iter().enumerate() {
        let at = original_first_thunk_rva - dir_rva + index * 8;
        import_blob[at..at + 4].copy_from_slice(&value.to_le_bytes());
        let at2 = first_thunk_rva - dir_rva + index * 8;
        import_blob[at2..at2 + 4].copy_from_slice(&value.to_le_bytes());
    }

    let mut optional = vec![0u8; 240];
    optional[0..2].copy_from_slice(&0x20Bu16.to_le_bytes());
    optional[32..36].copy_from_slice(&0x1000u32.to_le_bytes()); // section alignment
    optional[36..40].copy_from_slice(&0x0200u32.to_le_bytes()); // file alignment
    optional[56..60].copy_from_slice(&0x5000u32.to_le_bytes()); // size of the image
    optional[60..64].copy_from_slice(&0x0200u32.to_le_bytes()); // size of the headers
    optional[108..112].copy_from_slice(&16u32.to_le_bytes());
    let import_dir_at = 112 + 8;
    optional[import_dir_at..import_dir_at + 4].copy_from_slice(&(dir_rva as u32).to_le_bytes());
    optional[import_dir_at + 4..import_dir_at + 8]
        .copy_from_slice(&(import_blob.len() as u32).to_le_bytes());

    let mut headers = Vec::new();
    headers.extend_from_slice(&dos);
    headers.extend_from_slice(&pe);
    headers.extend_from_slice(&optional);

    let mut section_header = [0u8; 40];
    section_header[..6].copy_from_slice(b".rdata");
    section_header[8..12].copy_from_slice(&0x3000u32.to_le_bytes());
    section_header[12..16].copy_from_slice(&0x1000u32.to_le_bytes());
    section_header[16..20].copy_from_slice(&0x3000u32.to_le_bytes());
    section_header[20..24].copy_from_slice(&0x1000u32.to_le_bytes());
    section_header[36..40].copy_from_slice(&0x40000040u32.to_le_bytes());

    let mut image = headers;
    image.extend_from_slice(&section_header);
    image.resize(0x2000, 0);
    image.extend_from_slice(&import_blob);
    image.resize(0x3000, 0);
    image
}

#[test]
fn benign_content_yields_no_capabilities() {
    let prediction = analyze_static_sandbox(b"just a plain text readme file\nnothing to see");
    assert!(prediction.capabilities.is_empty());
    assert_eq!(prediction.score.units, 0);
    assert!(prediction.network_indicators.is_empty());
    assert!(!prediction.is_high_confidence_chain());
}

#[test]
fn injection_and_persistence_and_network_form_high_confidence_chain() {
    let mut blob = minimal_pe("kernel32.dll", &["WriteProcessMemory", "CreateRemoteThread"]);
    blob.extend_from_slice(b"Software\\Microsoft\\Windows\\CurrentVersion\\Run\0");
    blob.extend_from_slice(b"http://c2.example-store.ru/gate.php\0");
    let prediction = analyze_static_sandbox(&blob);
    assert!(
        prediction.capabilities.iter().any(|cap| cap.starts_with("injection:")),
        "capabilities: {:?}",
        prediction.capabilities
    );
    assert!(prediction
        .capabilities
        .iter()
        .any(|cap| cap.starts_with("persistence:")));
    assert!(prediction
        .capabilities
        .iter()
        .any(|cap| cap.starts_with("network:")));
    assert!(
        !prediction.network_indicators.is_empty(),
        "urls should be harvested"
    );
    assert!(
        prediction.is_high_confidence_chain(),
        "chain must qualify; score={:?}",
        prediction.score
    );
}

#[test]
fn single_capability_stays_below_chain_threshold() {
    let prediction = analyze_static_sandbox(b"visit https://update.example.com/notes for details");
    assert!(!prediction.is_high_confidence_chain());
    assert!(!prediction.score.at_least(Score::hundredths(50)));
}

#[test]
fn utf16_persistence_markers_are_detected() {
    let mut wide_marker = Vec::new();
    for unit in "Software\\Microsoft\\Windows\\CurrentVersion\\RunOnce\u{0}".encode_utf16() {
        wide_marker.extend_from_slice(&unit.to_le_bytes());
    }
    let mut blob = minimal_pe("advapi32.dll", &["RegSetValueExW"]);
    blob.extend_from_slice(&wide_marker);
    let prediction = analyze_static_sandbox(&blob);
    assert!(prediction
        .capabilities
        .iter()
        .any(|cap| cap.contains("runonce") || cap.starts_with("persistence:")));
    assert!(prediction.score.units > Score::hundredths(10).units);
}

#[test]
fn url_extraction_trims_binary_noise() {
    let urls = extract_urls(b"xxhttp://a.example.net/p?q=1\x01\x02tailhttps://second.example.org/x");
    assert_eq!(urls.first().map(String::as_str), Some("http://a.example.net/p?q=1"));
    assert!(urls.iter().any(|url| url.starts_with("https://second.example.org")));
}

#[test]
fn analysis_is_bounded_for_large_inputs() {
    let huge = vec![0x41u8; MAX_ANALYSIS_BYTES * 2];
    let prediction = analyze_static_sandbox(&huge);
    assert!(prediction.capabilities.is_empty());
}

#[test]
fn imports_are_read_from_the_image() {
    let names = pe_import_names(&minimal_pe("kernel32.dll", &["WriteProcessMemory"]));
    assert!(names.iter().any(|name| name.to_lowercase() == "writeprocessmemory"), "{names:?}");
    assert!(pe_import_names(b"no image").is_empty());
}

#[test]
fn the_same_imports_give_the_same_prediction() {
    let imports = vec!["writeprocessmemory".to_string(), "createremotethread".to_string()];
    let found = predict(b"", &imports);
    assert!(found.capabilities.iter().any(|cap| cap.starts_with("injection:")));
    assert!(predict(b"", &[]).capabilities.is_empty());
}

#[test]
fn a_prediction_hangs_together() {
    let mut bytes = Vec::new();
    for index in 0..20 {
        bytes.extend_from_slice(format!("https://host{index}.example/x ").as_bytes());
    }
    bytes.extend_from_slice(b"http://host1.example. http://host1.example lsass LSASS");
    let prediction = analyze_static_sandbox(&bytes);
    assert_eq!(prediction.network_indicators.len(), 8);
    assert!(prediction.network_indicators.windows(2).all(|pair| pair[0] < pair[1]));
    assert!(prediction.network_indicators.iter().all(|url| url.starts_with("https://")));
    assert!(prediction.capabilities.contains(&"network:c2_endpoints".to_string()));
    assert!(prediction.capabilities.windows(2).all(|pair| pair[0] < pair[1]));
    assert!(prediction.score.units > 0);
    assert!(prediction.score.units <= Score::hundredths(95).units);
    let nothing = analyze_static_sandbox(b"nothing of interest");
    assert!(nothing.capabilities.is_empty());
    assert_eq!(nothing.score.units, 0);
}
