use heliosav_layers::behavior::{BehaviorEvent, BehaviorEventKind, BehaviorScoreResult};
use heliosav_layers::fusion::{
    hips_alert_family, FusionDecision, FusionInput, FusionResponseLevel, FusionStage,
    ProtectionFusion, ReasonPart,
};
use heliosav_layers::score::Score;

fn input() -> FusionInput {
    FusionInput {
        path: "C:\\x.exe".to_string(),
        sandbox_report: None,
        behavior_score: None,
        sequence_matches: None,
        tolerant_sequence_matches: None,
        sandbox_flags: Vec::new(),
        heuristic_score: None,
        ai_score: None,
        events: Vec::new(),
        hips_alerts: Vec::new(),
    }
}

fn reason(decision: &FusionDecision) -> String {
    let parts = match decision {
        FusionDecision::Clean => return String::new(),
        FusionDecision::Suspicious { reason } => reason,
        FusionDecision::Malicious { reason, .. } => reason,
    };
    parts
        .iter()
        .map(|part| match part {
            ReasonPart::Text(text) => text.clone(),
            ReasonPart::Score(score) => {
                format!("{:.2}", score.units as f64 / (1u64 << 60) as f64)
            }
        })
        .collect()
}

#[test]
fn silence_is_clean() {
    let fusion = ProtectionFusion::new();
    assert!(matches!(fusion.evaluate(&input()), FusionDecision::Clean));
}

fn is_malicious(decision: &FusionDecision, with_rollback: bool) -> bool {
    matches!(decision, FusionDecision::Malicious { rollback, .. } if *rollback == with_rollback)
}

#[test]
fn an_ordered_chain_is_malicious() {
    let fusion = ProtectionFusion::new();
    let mut chained = input();
    chained.sequence_matches = Some(vec!["a_chain".to_string(), "b_chain".to_string()]);
    chained.hips_alerts = vec!["API patch".to_string()];
    let decision = fusion.evaluate(&chained);
    assert!(is_malicious(&decision, true));
    assert_eq!(
        reason(&decision),
        "fusion:kaspersky_sequence:stage=intervene:a_chain,b_chain"
    );
}

#[test]
fn a_driver_block_decides_alone() {
    let fusion = ProtectionFusion::new().with_response_level(FusionResponseLevel::Relaxed);
    let mut blocked = input();
    blocked.hips_alerts = vec!["other".to_string(), "Driver Blocked: vulnerable.sys".to_string()];
    blocked.sequence_matches = Some(vec!["a_chain".to_string()]);
    let decision = fusion.evaluate(&blocked);
    assert!(is_malicious(&decision, true));
    assert_eq!(
        reason(&decision),
        "fusion:driver:stage=intervene:Driver Blocked: vulnerable.sys"
    );
}

#[test]
fn a_tolerant_chain_needs_corroboration() {
    let fusion = ProtectionFusion::new();
    let mut alone = input();
    alone.tolerant_sequence_matches = Some(vec!["a_chain".to_string()]);
    let decision = fusion.evaluate(&alone);
    assert!(matches!(decision, FusionDecision::Suspicious { .. }));
    assert_eq!(
        reason(&decision),
        "fusion:kaspersky_sequence_tolerant:stage=correlate:events=0:score=0.00:a_chain"
    );
    alone.behavior_score = Some(BehaviorScoreResult {
        process_id: Some(7),
        score: Score::hundredths(70),
        matched_indicators: Vec::new(),
    });
    let decision = fusion.evaluate(&alone);
    assert!(is_malicious(&decision, true));
    assert_eq!(
        reason(&decision),
        "fusion:kaspersky_sequence_tolerant:stage=intervene:events=0:score=0.70:a_chain"
    );
}

#[test]
fn a_strong_score_is_not_averaged_away() {
    let fusion = ProtectionFusion::new();
    let mut split = input();
    split.heuristic_score = Some(Score::hundredths(90));
    split.ai_score = Some(Score::hundredths(10));
    let decision = fusion.evaluate(&split);
    assert!(matches!(decision, FusionDecision::Suspicious { .. }));
    assert_eq!(
        reason(&decision),
        "fusion:static_high:stage=correlate:heuristic=0.90:ai=0.10:strongest=0.90"
    );
    split.heuristic_score = Some(Score::hundredths(80));
    assert!(matches!(fusion.evaluate(&split), FusionDecision::Clean));
    split.ai_score = Some(Score::hundredths(86));
    let decision = fusion.evaluate(&split);
    assert!(is_malicious(&decision, true));
    assert_eq!(
        reason(&decision),
        "fusion:static:stage=intervene:heuristic=0.80:ai=0.86:combined=0.84:corroboration=0.80"
    );
}

#[test]
fn behaviour_intervenes_when_corroborated() {
    let fusion = ProtectionFusion::new();
    let mut busy = input();
    busy.behavior_score = Some(BehaviorScoreResult {
        process_id: None,
        score: Score::hundredths(75),
        matched_indicators: vec!["one".to_string()],
    });
    busy.events = vec![BehaviorEvent {
        kind: BehaviorEventKind::RansomwareEncryption,
        detail: "x".to_string(),
        process_id: Some(7),
    }];
    let decision = fusion.evaluate(&busy);
    assert_eq!(reason(&decision), "fusion:atc:0.75:stage=correlate:evidence=1:one");
    busy.behavior_score.as_mut().unwrap().matched_indicators.push("two".to_string());
    let decision = fusion.evaluate(&busy);
    assert!(is_malicious(&decision, true));
    assert_eq!(reason(&decision), "fusion:atc:0.75:stage=intervene:evidence=1:one,two");
}

#[test]
fn flags_and_alerts_come_last() {
    let fusion = ProtectionFusion::new();
    let mut quiet = input();
    quiet.sandbox_flags = vec!["files_changed".to_string()];
    assert!(matches!(fusion.evaluate(&quiet), FusionDecision::Clean));
    let aggressive = ProtectionFusion::new().with_response_level(FusionResponseLevel::Aggressive);
    let decision = aggressive.evaluate(&quiet);
    assert!(is_malicious(&decision, false));
    assert_eq!(reason(&decision), "fusion:sandbox_flags:stage=intervene:files_changed");

    quiet.hips_alerts = vec!["API patch in pid 4".to_string(), "API patch in pid 5".to_string()];
    let decision = fusion.evaluate(&quiet);
    assert_eq!(
        reason(&decision),
        "fusion:hips:stage=correlate:evidence=1:API patch in pid 4|API patch in pid 5"
    );
    quiet.hips_alerts.push("thread stack in pid 5".to_string());
    assert!(is_malicious(&fusion.evaluate(&quiet), true));
    assert_eq!(hips_alert_family("API patch in pid 4"), "api_patch");
    assert_eq!(hips_alert_family("odd (pid=9) x"), "odd");
}

#[test]
fn stages_and_levels_have_names_and_thresholds() {
    assert_eq!(FusionStage::Correlate.label(), "correlate");
    assert_eq!(FusionResponseLevel::Normal.threshold(), Score::hundredths(70));
    assert!(
        FusionResponseLevel::Aggressive.threshold().units
            < FusionResponseLevel::Relaxed.threshold().units
    );
}
