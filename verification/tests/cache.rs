use heliosav_layers::cache::{FileFingerprint, ScanCache, ScanContext, ScanResult};

fn make_scan_result(path: &str, malicious: bool) -> ScanResult {
    ScanResult {
        path: path.to_string(),
        malicious,
        summary: format!("result for {}", path),
        context: ScanContext::default(),
        heuristic_score: None,
        ai_score: None,
        ai_components: Vec::new(),
        yara_matches: Vec::new(),
        behavior_score: None,
        sequence_matches: None,
    }
}

fn fingerprint(size: u64, content_hash: Option<[u8; 32]>) -> FileFingerprint {
    FileFingerprint {
        modified: Some(0),
        size,
        content_hash,
    }
}

#[test]
fn test_cache_eviction_oldest_removed() {
    let mut cache = ScanCache::new(2);

    cache.put(make_scan_result("/tmp/file1", false));
    cache.put(make_scan_result("/tmp/file2", false));
    cache.put(make_scan_result("/tmp/file3", true));

    assert_eq!(cache.len(), 2);
    assert!(cache.get("/tmp/file1").is_none());
    assert!(cache.get("/tmp/file2").is_some());
    assert!(cache.get("/tmp/file3").is_some());
}

#[test]
fn test_cache_get_promotes_entry() {
    let mut cache = ScanCache::new(2);

    cache.put(make_scan_result("/tmp/file1", false));
    cache.put(make_scan_result("/tmp/file2", false));

    assert!(cache.get("/tmp/file1").is_some());
    cache.put(make_scan_result("/tmp/file3", true));

    assert_eq!(cache.len(), 2);
    assert!(cache.get("/tmp/file2").is_none());
    assert!(cache.get("/tmp/file1").is_some());
    assert!(cache.get("/tmp/file3").is_some());
}

#[test]
fn test_cache_invalidate_and_clear() {
    let mut cache = ScanCache::new(3);
    cache.put(make_scan_result("/tmp/file1", false));
    cache.put(make_scan_result("/tmp/file2", true));

    assert_eq!(cache.len(), 2);
    cache.invalidate_path("/tmp/file1");
    assert_eq!(cache.len(), 1);
    assert!(cache.get("/tmp/file1").is_none());
    cache.clear();
    assert_eq!(cache.len(), 0);
    assert!(cache.is_empty());
}

#[test]
fn test_fingerprint_prevents_reusing_replaced_file() {
    let mut cache = ScanCache::new(2);
    let first = fingerprint(10, None);
    let replaced = fingerprint(11, None);
    cache.put_fresh(make_scan_result("/tmp/file", true), first);

    assert!(cache.get_fresh("/tmp/file", replaced).is_none());
    assert!(cache.get_fresh("/tmp/file", first).is_none());
}

#[test]
fn test_context_invalidation_rejects_old_entries() {
    let mut cache = ScanCache::new(2);
    let fingerprint = fingerprint(10, Some([7; 32]));
    cache.put_fresh(make_scan_result("/tmp/file", false), fingerprint);
    assert!(cache.get_fresh("/tmp/file", fingerprint).is_some());
    cache.invalidate_context();
    assert!(cache.get_fresh("/tmp/file", fingerprint).is_none());
}

#[test]
fn policy_epoch_prevents_reusing_clean_verdict_after_policy_update() {
    let mut cache = ScanCache::new(4);
    let fingerprint = fingerprint(4, Some([7; 32]));
    cache.put_fresh_for_policy(make_scan_result("/tmp/policy-file", false), fingerprint, 11);
    assert!(cache
        .get_fresh_for_policy("/tmp/policy-file", fingerprint, 11)
        .is_some());
    cache.put_fresh_for_policy(make_scan_result("/tmp/policy-file", false), fingerprint, 11);
    assert!(cache
        .get_fresh_for_policy("/tmp/policy-file", fingerprint, 12)
        .is_none());
}

#[test]
fn decision_invalidation_preserves_reusable_evidence() {
    let mut cache = ScanCache::new(4);
    let fingerprint = fingerprint(12, Some([9; 32]));
    let mut result = make_scan_result("/tmp/recompute", false);
    result.heuristic_score = Some(0.31f32.to_bits());
    result.ai_score = Some(0.22f32.to_bits());
    cache.put_fresh_for_policy(result, fingerprint, 3);

    assert!(cache
        .get_fresh_for_policy("/tmp/recompute", fingerprint, 3)
        .is_some());
    let mut result = make_scan_result("/tmp/recompute", false);
    result.heuristic_score = Some(0.31f32.to_bits());
    result.ai_score = Some(0.22f32.to_bits());
    cache.put_fresh_for_policy(result, fingerprint, 3);

    cache.invalidate_decisions();
    assert!(cache
        .get_fresh_for_policy("/tmp/recompute", fingerprint, 3)
        .is_none());
    let evidence = cache
        .get_evidence_for_policy("/tmp/recompute", fingerprint, 3)
        .expect("evidence survives decision invalidation");
    assert_eq!(evidence.heuristic_score, Some(0.31f32.to_bits()));
    assert_eq!(evidence.ai_score, Some(0.22f32.to_bits()));
}

#[test]
fn layer_context_mismatch_does_not_reuse_evidence() {
    let mut cache = ScanCache::new(2);
    let fingerprint = fingerprint(5, Some([3; 32]));
    let context = ScanContext {
        ai_enabled: true,
        ..ScanContext::default()
    };
    let mut result = make_scan_result("/tmp/context", false);
    result.context = context;
    cache.put_fresh_for_policy_with_context(result, fingerprint, 0, context);

    let different_context = ScanContext {
        heuristic_enabled: true,
        ..ScanContext::default()
    };
    assert!(cache
        .get_evidence_for_policy_with_context("/tmp/context", fingerprint, 0, different_context)
        .is_none());
}

#[test]
fn evidence_is_bound_to_all_engine_layer_versions() {
    let mut cache = ScanCache::new(2);
    let fingerprint = fingerprint(5, Some([8; 32]));
    let context = ScanContext {
        rules_version: 10,
        yara_version: 20,
        ai_model_version: 30,
        sandbox_policy_version: 40,
        ..ScanContext::default()
    };
    let mut result = make_scan_result("/tmp/versioned", false);
    result.context = context;
    cache.put_fresh_for_policy_with_context(result, fingerprint, 0, context);

    for changed in [
        ScanContext { rules_version: 11, ..context },
        ScanContext { yara_version: 21, ..context },
        ScanContext { ai_model_version: 31, ..context },
        ScanContext { sandbox_policy_version: 41, ..context },
    ] {
        assert!(cache
            .get_evidence_for_policy_with_context("/tmp/versioned", fingerprint, 0, changed)
            .is_none());
        let mut replacement = make_scan_result("/tmp/versioned", false);
        replacement.context = context;
        cache.put_fresh_for_policy_with_context(replacement, fingerprint, 0, context);
    }
    assert!(cache
        .get_evidence_for_policy_with_context("/tmp/versioned", fingerprint, 0, context)
        .is_some());
}

#[test]
fn many_writers_never_exceed_the_size() {
    let mut cache = ScanCache::new(10);
    for i in 0..5 {
        for j in 0..20 {
            let path = format!("/tmp/thread-{}/file-{}", i, j);
            cache.put(make_scan_result(&path, j % 2 == 0));
            assert!(cache.get(&path).is_some());
        }
    }
    assert_eq!(cache.len(), 10);
}

#[test]
fn a_fingerprint_of_a_file_that_changed_while_it_was_read_is_refused() {
    let before = FileFingerprint::from_metadata(Some(5), 3);
    let after = FileFingerprint::from_metadata(Some(6), 3);
    assert!(FileFingerprint::from_content(before, after, b"abc").is_none());

    let still = FileFingerprint::from_content(before, before, b"abc").expect("unchanged");
    let digest = still.content_hash.expect("content digest");
    assert_eq!(
        digest[..4],
        [0xba, 0x78, 0x16, 0xbf],
        "SHA-256 of abc starts with ba7816bf"
    );
    assert!(still.same_metadata(before));
    assert!(!still.same(&before));
}

#[test]
fn metadata_alone_marks_a_candidate() {
    let mut cache = ScanCache::new(2);
    let stored = fingerprint(10, Some([1; 32]));
    cache.put_fresh(make_scan_result("/tmp/file", false), stored);
    assert!(cache.has_metadata_candidate("/tmp/file", fingerprint(10, None)));
    assert!(!cache.has_metadata_candidate("/tmp/file", fingerprint(11, None)));
    assert!(!cache.has_metadata_candidate("/tmp/other", fingerprint(10, None)));
}

#[test]
fn a_cache_of_no_size_keeps_one_result() {
    let mut cache = ScanCache::new(0);
    cache.put(make_scan_result("/tmp/a", false));
    cache.put(make_scan_result("/tmp/b", false));
    assert_eq!(cache.len(), cache.max_size.min(2));
}
