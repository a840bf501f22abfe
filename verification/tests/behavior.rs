use heliosav_layers::behavior::{
    BehaviorEvent, BehaviorEventKind, BehavioralScorer, SecurityLevel,
};
use heliosav_layers::score::Score;

fn value(score: Score) -> f64 {
    score.units as f64 / (1u64 << 60) as f64
}

fn event(kind: BehaviorEventKind, detail: &str, process_id: Option<u32>) -> BehaviorEvent {
    BehaviorEvent {
        kind,
        detail: detail.to_string(),
        process_id,
    }
}

#[test]
fn test_default_behavioral_scoring() {
    let scorer = BehavioralScorer::default();
    let events = vec![
        event(BehaviorEventKind::RegistryWrite, "HKCU\\Software\\Test", None),
        event(BehaviorEventKind::SuspiciousApiCall, "NtWriteVirtualMemory", None),
        event(BehaviorEventKind::NetworkConnect, "192.168.1.1:80", None),
    ];
    let result = scorer.score_events(&events);
    assert!(value(result.score) > 0.0);
    assert_eq!(result.matched_indicators.len(), 3);
    assert!(scorer.is_malicious(result.score));
}

#[test]
fn test_per_process_behavioral_scoring() {
    let scorer = BehavioralScorer::default();
    let events = vec![
        event(BehaviorEventKind::RegistryWrite, "HKCU\\Software\\Test", Some(1001)),
        event(BehaviorEventKind::SuspiciousApiCall, "CreateRemoteThread", Some(1001)),
        event(BehaviorEventKind::NetworkConnect, "10.0.0.1:443", Some(2002)),
    ];

    let results = scorer.score_events_by_process(&events);
    assert_eq!(results.len(), 2);
    let first = results.iter().find(|r| r.process_id == Some(1001)).unwrap();
    assert!(value(first.score) > 0.0);
    assert_eq!(first.matched_indicators.len(), 2);
}

#[test]
fn repeated_behavior_family_is_counted_once() {
    let scorer = BehavioralScorer::default();
    let events = vec![
        event(BehaviorEventKind::FileWrite, "a.exe", Some(1001)),
        event(BehaviorEventKind::FileWrite, "b.exe", Some(1001)),
    ];

    let result = scorer.score_events_by_process(&events);
    assert_eq!(result.len(), 1);
    assert!((value(result[0].score) - 0.15).abs() < f32::EPSILON as f64);
    assert_eq!(result[0].matched_indicators.len(), 1);
}

#[test]
fn no_events_score_nothing() {
    let scorer = BehavioralScorer::default();
    assert_eq!(scorer.score_events(&[]).score.units, 0);
    assert!(scorer.score_events_by_process(&[]).is_empty());
}

#[test]
fn a_security_level_sets_the_threshold() {
    let score = Score::hundredths(60);
    let strict = BehavioralScorer::default().with_security_level(SecurityLevel::Aggressive);
    let relaxed = BehavioralScorer::default().with_security_level(SecurityLevel::Relaxed);
    assert_eq!(strict.is_malicious(score), score.at_least(SecurityLevel::Aggressive.threshold()));
    assert_eq!(relaxed.is_malicious(score), score.at_least(SecurityLevel::Relaxed.threshold()));
    assert!(strict.is_malicious(score));
    assert!(!relaxed.is_malicious(score));
}

#[test]
fn scores_stay_at_most_one() {
    let scorer = BehavioralScorer::default();
    let kinds = [
        BehaviorEventKind::FileWrite,
        BehaviorEventKind::RegistryWrite,
        BehaviorEventKind::ProcessCreate,
        BehaviorEventKind::NetworkConnect,
        BehaviorEventKind::SuspiciousApiCall,
        BehaviorEventKind::ProcessInject,
        BehaviorEventKind::CredentialAccess,
        BehaviorEventKind::BackupDeletion,
        BehaviorEventKind::RansomwareEncryption,
    ];
    let events: Vec<BehaviorEvent> = kinds.iter().map(|k| event(*k, "x", None)).collect();
    assert!(value(scorer.score_events(&events).score) <= 1.0);
}

#[test]
fn large_weights_are_taken_as_they_are() {
    let heavy = Score { units: 1u128 << 100 };
    let scorer = BehavioralScorer::new(
        vec![(BehaviorEventKind::FileWrite, heavy)],
        Score::hundredths(50),
    );
    let result = scorer.score_events(&[event(BehaviorEventKind::FileWrite, "x", None)]);
    assert_eq!(value(result.score), 1.0);
    assert!(scorer.is_malicious(result.score));
}
