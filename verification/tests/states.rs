use heliosav_layers::behavior::BehaviorEventKind;
use heliosav_layers::memory_snapshot::SandboxUnpackingReport;
use heliosav_layers::process_state::{ProcessState, ProcessStateMachine};
use heliosav_layers::rollback::{
    ActionOutcome, RollbackAction, RollbackExecutor, RollbackPlanner, RollbackRecord,
};
use heliosav_layers::sandbox::SandboxReport;
use heliosav_layers::sequence::{
    chain_step_labels, find_subsequence, is_tolerant_chain, SequenceMatcher,
    SequenceSignature,
};

#[test]
fn test_process_state_machine_transition() {
    let mut sm = ProcessStateMachine::new();
    let t1 = sm.update_state(123, BehaviorEventKind::ProcessCreate, "cmd.exe");
    assert_eq!(t1.previous, ProcessState::Observed);
    assert_eq!(t1.current, ProcessState::Monitored);

    let t2 = sm.update_state(
        123,
        BehaviorEventKind::SuspiciousApiCall,
        "CreateRemoteThread",
    );
    assert_eq!(t2.current, ProcessState::Blocked);
}

#[test]
fn processes_are_kept_apart() {
    let mut sm = ProcessStateMachine::new();
    sm.update_state_at(1, BehaviorEventKind::ProcessCreate, "a", 5);
    assert_eq!(sm.get_state(1), Some(&ProcessState::Monitored));
    assert_eq!(sm.get_state(2), None);
    assert_eq!(sm.history_for(1).map(|h| h.len()), Some(1));
    assert_eq!(sm.history_for(1).unwrap()[0].timestamp_ms, 5);
    assert!(sm.history_for(2).is_none());
}

fn report() -> SandboxReport {
    SandboxReport {
        target: "C:/temp/test.exe".to_string(),
        exit_code: Some(0),
        target_pid: Some(999),
        files_changed: vec!["C:/temp/out.txt".to_string()],
        registry_writes: vec!["HKCU\\Software\\Bad".to_string()],
        network_connections: vec![],
        processes: Vec::new(),
        api_calls: Vec::new(),
        timed_out: false,
        isolation_backend: "windows_sandbox".to_string(),
        isolation_verified: true,
        cleanup_verified: true,
        resource_limits: Vec::new(),
        unpacking: SandboxUnpackingReport::default(),
        duration_ms: 0,
    }
}

#[test]
fn test_rollback_planner_creates_delete_actions() {
    let record = RollbackPlanner::from_sandbox_report(&report());
    assert!(record
        .actions
        .iter()
        .any(|a| matches!(a, RollbackAction::DeleteFile(_))));
    assert!(record
        .actions
        .iter()
        .any(|a| matches!(a, RollbackAction::DeleteRegistryKey(_))));
}

#[test]
fn test_rollback_executor_dry_run() {
    let record = RollbackRecord {
        target_pid: Some(999),
        actions: vec![
            RollbackAction::DeleteFile("C:/temp/out.txt".to_string()),
            RollbackAction::KillProcess(999),
        ],
        reason: "test".to_string(),
    };

    let executor = RollbackExecutor::new(true, false);
    let results = executor.execute(&record, &[ActionOutcome::Missing, ActionOutcome::Missing]);
    assert_eq!(results.len(), 2);
    assert!(results.iter().all(|r| r.is_ok()));
    assert!(results[0].as_ref().unwrap().starts_with("dry-run:"));
    assert!(!executor.must_attempt(&record.actions[0]));
}

#[test]
fn quoted_paths_name_what_a_dry_run_would_do() {
    let executor = RollbackExecutor::new(true, true);
    let text = executor
        .execute_action(
            &RollbackAction::DeleteFile("C:\\a \"b\".txt".to_string()),
            &ActionOutcome::Done,
        )
        .expect("dry run");
    assert!(text.contains("\"C:\\\\a \\\"b\\\".txt\""), "{text}");
}

#[test]
fn failed_actions_are_reported_as_errors() {
    let executor = RollbackExecutor::new(false, true);
    let action = RollbackAction::DeleteFile("/tmp/x".to_string());
    assert!(executor.must_attempt(&action));
    assert!(executor.execute_action(&action, &ActionOutcome::Done).is_ok());
    let failed = ActionOutcome::Failed("denied".to_string());
    let error = executor.execute_action(&action, &failed).expect_err("failed");
    assert!(error.contains("denied"));
}

#[test]
fn test_sequence_matcher_default() {
    let matcher = SequenceMatcher::default();
    let events = vec![
        BehaviorEventKind::RegistryWrite,
        BehaviorEventKind::FileWrite,
        BehaviorEventKind::ProcessCreate,
    ];
    let matches = matcher.match_sequence(&events);
    assert_eq!(matches.len(), 1);
    assert_eq!(matches[0].signature_name, "persistence_chain");
}

#[test]
fn chain_step_labels_match_default_signatures() {
    let matcher = SequenceMatcher::default();
    for signature in matcher.signatures() {
        let labels = chain_step_labels(&signature.name).unwrap_or_else(|| {
            panic!(
                "chain_step_labels missing entry for default signature {}",
                signature.name
            )
        });
        let expected: Vec<String> = signature
            .pattern
            .iter()
            .map(|kind| kind.as_str().to_string())
            .collect();
        assert_eq!(labels, expected, "steps drifted for {}", signature.name);
        let tolerant = matcher
            .signatures()
            .iter()
            .any(|s| s.name == signature.name && s.tolerant);
        assert_eq!(
            tolerant,
            is_tolerant_chain(&signature.name),
            "tolerant flag drifted for {}",
            signature.name
        );
    }
}

#[test]
fn matches_high_confidence_impact_chains() {
    let matcher = SequenceMatcher::default();
    let events = vec![
        BehaviorEventKind::FileWrite,
        BehaviorEventKind::BackupDeletion,
        BehaviorEventKind::RansomwareEncryption,
    ];
    let matches = matcher.match_sequence(&events);
    assert_eq!(matches.len(), 1);
    assert_eq!(matches[0].signature_name, "ransomware_impact_chain");
}

#[test]
fn matches_silverfox_loader_chain() {
    let matcher = SequenceMatcher::default();
    let events = vec![
        BehaviorEventKind::ProcessCreate,
        BehaviorEventKind::SuspiciousApiCall,
        BehaviorEventKind::FileWrite,
        BehaviorEventKind::RegistryWrite,
        BehaviorEventKind::NetworkConnect,
    ];
    let matches = matcher.match_sequence(&events);
    assert!(matches
        .iter()
        .any(|item| item.signature_name == "silverfox_attack_chain"));
}

#[test]
fn matches_silverfox_ctf_selfdelete_chain() {
    let matcher = SequenceMatcher::default();
    let events = vec![
        BehaviorEventKind::FileWrite,
        BehaviorEventKind::RegistryWrite,
        BehaviorEventKind::ProcessCreate,
        BehaviorEventKind::SuspiciousApiCall,
        BehaviorEventKind::FileWrite,
    ];
    let matches = matcher.match_sequence(&events);
    assert!(matches
        .iter()
        .any(|item| item.signature_name == "silverfox_ctf_inject_selfdelete"));
}

#[test]
fn strict_matcher_ignores_tolerant_signatures() {
    let matcher = SequenceMatcher::default();
    let events = vec![
        BehaviorEventKind::ProcessCreate,
        BehaviorEventKind::SuspiciousModuleLoad,
        BehaviorEventKind::SuspiciousApiCall,
        BehaviorEventKind::ProcessInject,
    ];
    let matches = matcher.match_sequence(&events);
    assert!(!matches
        .iter()
        .any(|item| item.signature_name == "loader_module_codeexec_chain"));
}

#[test]
fn tolerant_matcher_tolerates_interspersed_noise() {
    let matcher = SequenceMatcher::default();
    let events = vec![
        BehaviorEventKind::FileWrite,
        BehaviorEventKind::ProcessCreate,
        BehaviorEventKind::DnsQuery,
        BehaviorEventKind::ProcessInject,
        BehaviorEventKind::FileWrite,
        BehaviorEventKind::RegistryWrite,
        BehaviorEventKind::SuspiciousPersistence,
        BehaviorEventKind::FileWrite,
        BehaviorEventKind::FileWrite,
        BehaviorEventKind::SuspiciousApiCall,
        BehaviorEventKind::ProcessInject,
    ];
    let tolerant = matcher.match_sequence_tolerant(&events, 3, 16);
    assert!(tolerant
        .iter()
        .any(|item| item.signature_name == "implant_post_injection_persistence"));
    assert!(!tolerant
        .iter()
        .any(|item| item.signature_name == "process_injection_chain"));
    // Tolerant-only signatures never surface through the strict API.
    let strict = matcher.match_sequence(&events);
    assert!(!strict
        .iter()
        .any(|item| item.signature_name == "implant_post_injection_persistence"));
}

#[test]
fn tolerant_matching_respects_gap_limit() {
    let matcher = SequenceMatcher::default();
    // Four unrelated events between the two steps exceed the greatest gap.
    let events = vec![
        BehaviorEventKind::CredentialAccess,
        BehaviorEventKind::FileWrite,
        BehaviorEventKind::FileWrite,
        BehaviorEventKind::FileWrite,
        BehaviorEventKind::FileWrite,
        BehaviorEventKind::NetworkConnect,
    ];
    let tolerant = matcher.match_sequence_tolerant(&events, 2, 12);
    assert!(!tolerant
        .iter()
        .any(|item| item.signature_name == "credential_exfil_chain"));
}

#[test]
fn one_tolerant_step_matches_where_its_event_occurs() {
    let matcher = SequenceMatcher::new(vec![SequenceSignature {
        name: "one".to_string(),
        pattern: vec![BehaviorEventKind::FileWrite],
        tolerant: true,
    }]);
    let events = [BehaviorEventKind::FileWrite, BehaviorEventKind::DnsQuery];
    let matches = matcher.match_sequence_tolerant(&events, 3, 16);
    assert_eq!(matches.len(), 1);
    assert_eq!(matches[0].signature_name, "one");
    assert_eq!(matches[0].matched_at, 0);
    assert!(matches[0].tolerant);
    let last = [BehaviorEventKind::DnsQuery, BehaviorEventKind::FileWrite];
    assert_eq!(matcher.match_sequence_tolerant(&last, 0, 1)[0].matched_at, 1);
    assert!(matcher.match_sequence_tolerant(&last, 0, 0).is_empty());
    assert!(matcher.match_sequence_tolerant(&[BehaviorEventKind::DnsQuery], 3, 16).is_empty());
}

#[test]
fn a_tolerant_match_spans_no_more_events_than_allowed() {
    let matcher = SequenceMatcher::default();
    let events = [
        BehaviorEventKind::CredentialAccess,
        BehaviorEventKind::SuspiciousApiCall,
        BehaviorEventKind::DnsQuery,
        BehaviorEventKind::NetworkConnect,
    ];
    assert!(matcher.match_sequence_tolerant(&events, 3, 3).is_empty());
    let matches = matcher.match_sequence_tolerant(&events, 3, 4);
    assert_eq!(matches.len(), 1);
    assert_eq!(matches[0].signature_name, "credential_exfil_chain");
    assert_eq!(matches[0].matched_at, 0);
}

#[test]
fn a_subsequence_is_found_where_it_starts() {
    let events = [
        BehaviorEventKind::FileWrite,
        BehaviorEventKind::DnsQuery,
        BehaviorEventKind::NetworkConnect,
    ];
    assert_eq!(
        find_subsequence(&events, &[BehaviorEventKind::DnsQuery, BehaviorEventKind::NetworkConnect]),
        Some(1)
    );
    assert_eq!(
        find_subsequence(&events, &[BehaviorEventKind::FileWrite, BehaviorEventKind::NetworkConnect]),
        None
    );
    assert!(chain_step_labels("no such chain").is_none());
}

#[test]
fn a_history_links_up_and_ends_in_the_state() {
    let mut machine = ProcessStateMachine::new();
    let events = [
        (7, BehaviorEventKind::ProcessCreate),
        (8, BehaviorEventKind::DnsQuery),
        (7, BehaviorEventKind::RegistryWrite),
        (7, BehaviorEventKind::ProcessCreate),
        (7, BehaviorEventKind::CredentialAccess),
        (7, BehaviorEventKind::FileWrite),
    ];
    for (pid, kind) in events {
        machine.update_state(pid, kind, "x");
    }
    let history = machine.history_for(7).expect("a history");
    assert_eq!(history.len(), 5);
    assert_eq!(history[0].previous, ProcessState::Observed);
    assert!(history.iter().all(|step| step.pid == 7));
    assert!(history.windows(2).all(|pair| pair[0].current == pair[1].previous));
    assert_eq!(machine.get_state(7), Some(&history[4].current));
    assert_eq!(machine.get_state(8), Some(&ProcessState::Monitored));
    assert_eq!(machine.get_state(9), None);
    assert!(machine.history_for(9).is_none());
}

#[test]
fn paths_are_quoted_as_paths() {
    let path = "/tmp/it's \"here\"\n";
    let executor = RollbackExecutor::new(true, false);
    let text = executor
        .execute_action(&RollbackAction::DeleteFile(path.to_string()), &ActionOutcome::Done)
        .expect("dry run");
    assert_eq!(text, format!("dry-run: DeleteFile({:?})", std::path::Path::new(path)));
}
