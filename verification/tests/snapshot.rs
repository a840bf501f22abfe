use heliosav_layers::memory_snapshot::{
    is_executable, is_writable_executable, parse_pe_candidate, CollectorState,
    MemorySnapshotCollector, RegionInfo, RegionStep, SandboxUnpackingReport, MEM_COMMIT,
    MEM_PRIVATE,
};

#[test]
fn validates_and_reconstructs_bounded_pe_image() {
    let mut bytes = vec![0u8; 0x4000];
    bytes[0..2].copy_from_slice(b"MZ");
    bytes[0x3c..0x40].copy_from_slice(&0x80u32.to_le_bytes());
    bytes[0x80..0x84].copy_from_slice(b"PE\0\0");
    bytes[0x84..0x86].copy_from_slice(&0x8664u16.to_le_bytes());
    bytes[0x86..0x88].copy_from_slice(&1u16.to_le_bytes());
    bytes[0x94..0x96].copy_from_slice(&0xf0u16.to_le_bytes());
    let optional = 0x98;
    bytes[optional..optional + 2].copy_from_slice(&0x20bu16.to_le_bytes());
    bytes[optional + 16..optional + 20].copy_from_slice(&0x1000u32.to_le_bytes());
    bytes[optional + 24..optional + 32].copy_from_slice(&0x140000000u64.to_le_bytes());
    bytes[optional + 56..optional + 60].copy_from_slice(&0x3000u32.to_le_bytes());
    bytes[optional + 60..optional + 64].copy_from_slice(&0x200u32.to_le_bytes());
    let section = optional + 0xf0;
    bytes[section + 8..section + 12].copy_from_slice(&0x1000u32.to_le_bytes());
    bytes[section + 12..section + 16].copy_from_slice(&0x1000u32.to_le_bytes());
    bytes[0x1000] = 0xcc;

    let candidate = parse_pe_candidate(&bytes, 0, 0x10000000, false)
        .expect("synthetic PE should be structurally valid");
    assert_eq!(candidate.entry_point_address, 0x10001000);
    assert!(candidate.reconstruction_verified);
}

#[test]
fn rejects_section_outside_image_bounds() {
    let mut bytes = vec![0u8; 0x4000];
    bytes[0..2].copy_from_slice(b"MZ");
    bytes[0x3c..0x40].copy_from_slice(&0x80u32.to_le_bytes());
    bytes[0x80..0x84].copy_from_slice(b"PE\0\0");
    bytes[0x86..0x88].copy_from_slice(&1u16.to_le_bytes());
    bytes[0x94..0x96].copy_from_slice(&0xf0u16.to_le_bytes());
    let optional = 0x98;
    bytes[optional..optional + 2].copy_from_slice(&0x20bu16.to_le_bytes());
    bytes[optional + 16..optional + 20].copy_from_slice(&0x1000u32.to_le_bytes());
    bytes[optional + 56..optional + 60].copy_from_slice(&0x2000u32.to_le_bytes());
    bytes[optional + 60..optional + 64].copy_from_slice(&0x200u32.to_le_bytes());
    let section = optional + 0xf0;
    bytes[section + 8..section + 12].copy_from_slice(&0x2000u32.to_le_bytes());
    bytes[section + 12..section + 16].copy_from_slice(&0x1000u32.to_le_bytes());

    assert!(parse_pe_candidate(&bytes, 0, 0x10000000, false).is_none());
}

#[test]
fn unavailable_report_is_explicit() {
    let report = SandboxUnpackingReport::unavailable("guest pid unavailable".to_string());
    assert_eq!(report.status, "not_available");
    assert_eq!(report.candidate_images, 0);
    assert_eq!(report.notes, vec!["guest pid unavailable"]);
    assert_eq!(MemorySnapshotCollector::unavailable().status, "not_available");
}

#[test]
fn page_protections_are_told_apart() {
    assert!(is_executable(0x10));
    assert!(is_executable(0x40));
    assert!(!is_executable(0x04));
    assert!(is_writable_executable(0x40));
    assert!(!is_writable_executable(0x20));
}

#[test]
fn a_walk_reads_private_executable_memory() {
    let mut state = CollectorState::new(30_000);
    state.start_round(false);
    assert!(state.begin_scan());
    assert!(state.wants_region());
    let region = RegionInfo {
        base: 0x1000,
        size: 0x2000,
        state: MEM_COMMIT,
        kind: MEM_PRIVATE,
        protect: 0x40,
    };
    let step = state.consider_region(0x1000, Some(region));
    match step {
        RegionStep::Read { next, length } => {
            assert_eq!(next, 0x3000);
            assert_eq!(length, 0x2000);
            assert!(state.absorb_region(region, length, &vec![0u8; 0x2000]));
        }
        other => panic!("expected a read: {other:?}"),
    }
    assert!(matches!(state.consider_region(0x3000, None), RegionStep::Stop));
    state.note_instruction_pointer(0x1010);
    state.end_scan();
    let report = state.into_report();
    assert_eq!(report.executable_regions, 1);
    assert_eq!(report.bytes_captured, 0x2000);
    assert_eq!(report.candidate_images, 0);
}
