//! Fusion of independent evidence into one decision.

use crate::behavior::{
    event_views, kind_in, BehaviorEvent, BehaviorEventKind, BehaviorScoreResult, BehavioralScorer,
    EventView, ScoreResultView,
};
use crate::sandbox::SandboxReport;
use crate::score::{Score, ONE_UNITS};
use crate::sequence::SequenceMatcher;
use crate::text::{
    before_first, concat2, concat3, contains_text, decimal, decimal_text, distinct, distinct_texts,
    has_text, join, joined, lower, lowered, push_text, same_text, text_before, texts,
};
use std::sync::Arc;
use vstd::prelude::*;

verus! {

/// How readily the fusion layer intervenes.
#[derive(Debug, Clone, Copy, PartialEq, Eq, Structural)]
pub enum FusionResponseLevel {
    Aggressive,
    Normal,
    Relaxed,
}

pub open spec fn response_threshold(level: FusionResponseLevel) -> Score {
    match level {
        FusionResponseLevel::Aggressive => Score::of_hundredths(55),
        FusionResponseLevel::Normal => Score::of_hundredths(70),
        FusionResponseLevel::Relaxed => Score::of_hundredths(85),
    }
}

impl FusionResponseLevel {
    pub fn threshold(&self) -> (t: Score)
        ensures
            t == response_threshold(*self),
            t.in_unit(),
    {
        match self {
            FusionResponseLevel::Aggressive => Score::hundredths(55),
            FusionResponseLevel::Normal => Score::hundredths(70),
            FusionResponseLevel::Relaxed => Score::hundredths(85),
        }
    }
}

/// The step of the staged decision.
#[derive(Debug, Clone, Copy, PartialEq, Eq, Structural)]
pub enum FusionStage {
    Observe,
    Correlate,
    Intervene,
    Recover,
}

pub open spec fn stage_label(stage: FusionStage) -> Seq<char> {
    match stage {
        FusionStage::Observe => "observe"@,
        FusionStage::Correlate => "correlate"@,
        FusionStage::Intervene => "intervene"@,
        FusionStage::Recover => "recover"@,
    }
}

impl FusionStage {
    /// The lower-case label of the stage.
    pub fn label(&self) -> (label: &'static str)
        ensures
            label@ == stage_label(*self),
    {
        match self {
            FusionStage::Observe => "observe",
            FusionStage::Correlate => "correlate",
            FusionStage::Intervene => "intervene",
            FusionStage::Recover => "recover",
        }
    }
}

/// A piece of a reason: text, or a score that is shown with two decimals.
#[derive(Debug)]
pub enum ReasonPart {
    Text(String),
    Score(Score),
}

pub enum PartView {
    Text(Seq<char>),
    Score(Score),
}

impl View for ReasonPart {
    type V = PartView;

    open spec fn view(&self) -> PartView {
        match self {
            ReasonPart::Text(t) => PartView::Text(t@),
            ReasonPart::Score(s) => PartView::Score(*s),
        }
    }
}

pub open spec fn part_views(parts: Seq<ReasonPart>) -> Seq<PartView> {
    parts.map_values(|p: ReasonPart| p@)
}

/// The evidence that a decision is made from.
#[derive(Debug)]
pub struct FusionInput {
    pub path: String,
    pub sandbox_report: Option<SandboxReport>,
    pub behavior_score: Option<BehaviorScoreResult>,
    pub sequence_matches: Option<Vec<String>>,
    /// Matches of tolerant chains: weaker than strict ones, suspicious alone.
    pub tolerant_sequence_matches: Option<Vec<String>>,
    pub sandbox_flags: Vec<String>,
    pub heuristic_score: Option<Score>,
    pub ai_score: Option<Score>,
    pub events: Vec<BehaviorEvent>,
    pub hips_alerts: Vec<String>,
}

/// What a decision depends on. Missing matches are the same as none.
pub struct EvidenceView {
    pub behavior: Option<ScoreResultView>,
    pub sequences: Seq<Seq<char>>,
    pub tolerant: Seq<Seq<char>>,
    pub flags: Seq<Seq<char>>,
    pub heuristic: Option<Score>,
    pub ai: Option<Score>,
    pub events: Seq<EventView>,
    pub alerts: Seq<Seq<char>>,
}

pub open spec fn listed(items: Option<Vec<String>>) -> Seq<Seq<char>> {
    match items {
        Some(v) => texts(v@),
        None => Seq::empty(),
    }
}

impl View for FusionInput {
    type V = EvidenceView;

    open spec fn view(&self) -> EvidenceView {
        EvidenceView {
            behavior: match self.behavior_score {
                Some(b) => Some(b@),
                None => None,
            },
            sequences: listed(self.sequence_matches),
            tolerant: listed(self.tolerant_sequence_matches),
            flags: texts(self.sandbox_flags@),
            heuristic: self.heuristic_score,
            ai: self.ai_score,
            events: event_views(self.events@),
            alerts: texts(self.hips_alerts@),
        }
    }
}

/// What the fusion layer decides.
#[derive(Debug)]
pub enum FusionDecision {
    Clean,
    /// Evidence was observed, but another independent signal is needed to intervene.
    Suspicious { reason: Vec<ReasonPart> },
    Malicious { reason: Vec<ReasonPart>, rollback: bool },
}

pub enum DecisionView {
    Clean,
    Suspicious { reason: Seq<PartView> },
    Malicious { reason: Seq<PartView>, rollback: bool },
}

impl View for FusionDecision {
    type V = DecisionView;

    open spec fn view(&self) -> DecisionView {
        match self {
            FusionDecision::Clean => DecisionView::Clean,
            FusionDecision::Suspicious { reason } => DecisionView::Suspicious {
                reason: part_views(reason@),
            },
            FusionDecision::Malicious { reason, rollback } => DecisionView::Malicious {
                reason: part_views(reason@),
                rollback: *rollback,
            },
        }
    }
}

pub open spec fn seen(decision: Option<FusionDecision>) -> Option<DecisionView> {
    match decision {
        Some(d) => Some(d@),
        None => None,
    }
}

/// An intervention, or a suspicion, for the same reason.
pub open spec fn staged(stage: FusionStage, reason: Seq<PartView>) -> DecisionView {
    if stage == FusionStage::Intervene {
        DecisionView::Malicious { reason, rollback: true }
    } else {
        DecisionView::Suspicious { reason }
    }
}

fn decide(stage: FusionStage, reason: Vec<ReasonPart>) -> (d: FusionDecision)
    ensures
        d@ == staged(stage, part_views(reason@)),
{
    if stage == FusionStage::Intervene {
        FusionDecision::Malicious { reason, rollback: true }
    } else {
        FusionDecision::Suspicious { reason }
    }
}

fn add_part(parts: &mut Vec<ReasonPart>, part: ReasonPart)
    ensures
        part_views(final(parts)@) == part_views(old(parts)@).push(part@),
{
    parts.push(part);
    assert(part_views(parts@) =~= part_views(old(parts)@).push(part@));
}

fn no_parts() -> (parts: Vec<ReasonPart>)
    ensures
        part_views(parts@) == Seq::<PartView>::empty(),
{
    let parts: Vec<ReasonPart> = Vec::new();
    assert(part_views(parts@) =~= Seq::<PartView>::empty());
    parts
}

/// How many different kinds of behaviour occur.
pub open spec fn kind_count(events: Seq<EventView>) -> nat {
    events.map_values(|e: EventView| e.kind).to_set().len()
}

fn count_kinds(events: &[BehaviorEvent]) -> (n: usize)
    ensures
        n == kind_count(event_views(events@)),
{
    let ghost all = event_views(events@).map_values(|e: EventView| e.kind);
    let mut kinds: Vec<BehaviorEventKind> = Vec::new();
    let mut i: usize = 0;
    while i < events.len()
        invariant
            i <= events@.len(),
            all == event_views(events@).map_values(|e: EventView| e.kind),
            kinds@.no_duplicates(),
            forall|k: BehaviorEventKind|
                #[trigger] kinds@.contains(k) <==> all.take(i as int).contains(k),
        decreases events@.len() - i,
    {
        let kind = events[i].kind;
        assert(all[i as int] == kind);
        let ghost before = all.take(i as int);
        let ghost after = all.take(i + 1);
        let ghost old_kinds = kinds@;
        assert(after =~= before.push(kind));
        if !kind_in(&kinds, kind) {
            kinds.push(kind);
        }
        proof {
            assert forall|k: BehaviorEventKind|
                #[trigger] kinds@.contains(k) <==> after.contains(k) by {
                vstd::seq_lib::lemma_seq_contains_after_push(before, kind, k);
                vstd::seq_lib::lemma_seq_contains_after_push(old_kinds, kind, k);
                vstd::seq_lib::lemma_seq_contains_after_push(old_kinds, kind, kind);
            }
        }
        i = i + 1;
    }
    assert(all.take(i as int) =~= all);
    proof {
        kinds@.unique_seq_to_set();
        assert(kinds@.to_set() =~= all.to_set());
    }
    kinds.len()
}

/// An alert reports a block by the driver.
pub open spec fn is_driver_alert(alert: Seq<char>) -> bool {
    contains_text(lowered(alert), "driver blocked"@)
}

/// The first alert from `i` on that reports a block by the driver.
pub open spec fn driver_alert(alerts: Seq<Seq<char>>, i: int) -> Option<Seq<char>>
    decreases alerts.len() - i,
{
    if i < 0 || i >= alerts.len() {
        None
    } else if is_driver_alert(alerts[i]) {
        Some(alerts[i])
    } else {
        driver_alert(alerts, i + 1)
    }
}

/// A block by the driver is an enforcement result and decides by itself.
pub open spec fn driver_stage(e: EvidenceView) -> Option<DecisionView> {
    match driver_alert(e.alerts, 0) {
        Some(alert) => Some(
            staged(
                FusionStage::Intervene,
                seq![
                    PartView::Text(
                        "fusion:driver:stage="@ + stage_label(FusionStage::Intervene) + (":"@
                            + alert),
                    ),
                ],
            ),
        ),
        None => None,
    }
}

/// A strict sequence is the strongest correlation and decides by itself.
pub open spec fn sequence_stage(e: EvidenceView) -> Option<DecisionView> {
    if e.sequences.len() > 0 {
        Some(
            staged(
                FusionStage::Intervene,
                seq![
                    PartView::Text(
                        "fusion:kaspersky_sequence:stage="@ + stage_label(FusionStage::Intervene)
                            + (":"@ + joined(e.sequences, ","@)),
                    ),
                ],
            ),
        )
    } else {
        None
    }
}

pub open spec fn is_action_flag(flag: Seq<char>) -> bool {
    flag == "files_changed"@ || flag == "network_activity"@ || flag == "registry_activity"@ || flag
        == "api_activity"@ || flag == "unpacked"@
}

pub open spec fn has_action_flag(flags: Seq<Seq<char>>) -> bool {
    exists|i: int| 0 <= i < flags.len() && is_action_flag(#[trigger] flags[i])
}

pub open spec fn behavior_value(behavior: Option<ScoreResultView>) -> Score {
    match behavior {
        Some(b) => b.score,
        None => Score::zero(),
    }
}

/// A tolerant chain intervenes only where an independent signal agrees.
pub open spec fn tolerant_escalates(e: EvidenceView, level: FusionResponseLevel) -> bool {
    let score = behavior_value(e.behavior);
    ||| score.units >= response_threshold(level).units
    ||| e.tolerant.len() >= 2 && has_action_flag(e.flags)
    ||| e.tolerant.len() >= 2 && kind_count(e.events) >= 3
    ||| e.tolerant.len() >= 2 && score.units >= Score::of_hundredths(50).units
}

pub open spec fn tolerant_stage(e: EvidenceView, level: FusionResponseLevel) -> Option<
    DecisionView,
> {
    if e.tolerant.len() > 0 {
        let stage = if tolerant_escalates(e, level) {
            FusionStage::Intervene
        } else {
            FusionStage::Correlate
        };
        Some(
            staged(
                stage,
                seq![
                    PartView::Text(
                        "fusion:kaspersky_sequence_tolerant:stage="@ + stage_label(stage) + (
                        ":events="@ + decimal(kind_count(e.events)) + ":score="@),
                    ),
                    PartView::Score(behavior_value(e.behavior)),
                    PartView::Text(":"@ + joined(e.tolerant, ","@)),
                ],
            ),
        )
    } else {
        None
    }
}

/// Scored behaviour from the threshold on is evidence; it intervenes where it is strong,
/// corroborated, or the level is aggressive.
pub open spec fn behavior_stage(e: EvidenceView, level: FusionResponseLevel) -> Option<
    DecisionView,
> {
    match e.behavior {
        Some(b) => {
            let value = b.score.lesser(Score::one());
            if value.units >= response_threshold(level).units {
                let kinds = kind_count(e.events);
                let stage = if level == FusionResponseLevel::Aggressive || value.units
                    >= Score::of_hundredths(85).units || kinds >= 2 || b.matched_indicators.len()
                    >= 2 {
                    FusionStage::Intervene
                } else {
                    FusionStage::Correlate
                };
                Some(
                    staged(
                        stage,
                        seq![
                            PartView::Text("fusion:atc:"@),
                            PartView::Score(value),
                            PartView::Text(
                                ":stage="@ + stage_label(stage) + (":evidence="@ + decimal(kinds)
                                    + ":"@) + joined(b.matched_indicators, ","@),
                            ),
                        ],
                    ),
                )
            } else {
                None
            }
        },
        None => None,
    }
}

/// The static score that counts as high by itself.
pub open spec fn high_confidence(level: FusionResponseLevel) -> Score {
    match level {
        FusionResponseLevel::Aggressive => Score::of_hundredths(82),
        FusionResponseLevel::Normal => Score::of_hundredths(90),
        FusionResponseLevel::Relaxed => Score::of_hundredths(96),
    }
}

/// The weighted mean of both static scores.
pub open spec fn combined_score(heuristic: Score, ai: Score) -> Score {
    heuristic.product(Score::of_hundredths(40)).sum(ai.product(Score::of_hundredths(60)))
}

/// Two static scores. A strong one is never averaged away by a weak one; two moderate ones
/// count where the weaker corroborates the stronger.
pub open spec fn static_stage(e: EvidenceView, level: FusionResponseLevel) -> Option<DecisionView> {
    match (e.heuristic, e.ai) {
        (Some(h), Some(a)) => {
            let heuristic = h.lesser(Score::one());
            let ai = a.lesser(Score::one());
            let strongest = heuristic.greater(ai);
            let weakest = heuristic.lesser(ai);
            let combined = combined_score(heuristic, ai);
            if strongest.units >= high_confidence(level).units {
                let stage = if strongest.units >= Score::of_hundredths(96).units {
                    FusionStage::Intervene
                } else {
                    FusionStage::Correlate
                };
                Some(
                    staged(
                        stage,
                        seq![
                            PartView::Text(
                                "fusion:static_high:stage="@ + stage_label(stage) + ":heuristic="@,
                            ),
                            PartView::Score(heuristic),
                            PartView::Text(":ai="@),
                            PartView::Score(ai),
                            PartView::Text(":strongest="@),
                            PartView::Score(strongest),
                        ],
                    ),
                )
            } else if weakest.units >= response_threshold(level).product(
                Score::of_hundredths(70),
            ).units && strongest.units >= response_threshold(level).units {
                let stage = if strongest.units >= Score::of_hundredths(85).units && combined.units
                    >= Score::of_hundredths(75).units {
                    FusionStage::Intervene
                } else {
                    FusionStage::Correlate
                };
                Some(
                    staged(
                        stage,
                        seq![
                            PartView::Text(
                                "fusion:static:stage="@ + stage_label(stage) + ":heuristic="@,
                            ),
                            PartView::Score(heuristic),
                            PartView::Text(":ai="@),
                            PartView::Score(ai),
                            PartView::Text(":combined="@),
                            PartView::Score(combined),
                            PartView::Text(":corroboration="@),
                            PartView::Score(weakest),
                        ],
                    ),
                )
            } else {
                None
            }
        },
        _ => None,
    }
}

/// Sandbox flags decide only at the aggressive level, and without a rollback.
pub open spec fn flags_stage(e: EvidenceView, level: FusionResponseLevel) -> Option<DecisionView> {
    if e.flags.len() > 0 && level == FusionResponseLevel::Aggressive {
        Some(
            DecisionView::Malicious {
                reason: seq![
                    PartView::Text(
                        "fusion:sandbox_flags:stage="@ + stage_label(FusionStage::Intervene) + (
                        ":"@ + joined(e.flags, ","@)),
                    ),
                ],
                rollback: false,
            },
        )
    } else {
        None
    }
}

/// The evidence family of an alert. Alerts that describe the same observation share one.
pub open spec fn alert_family(alert: Seq<char>) -> Seq<char> {
    let a = lowered(alert);
    if contains_text(a, "module baseline violation"@) {
        "module_baseline"@
    } else if contains_text(a, "dll"@) && (contains_text(a, "load"@) || contains_text(
        a,
        "side-load"@,
    )) {
        "module_origin"@
    } else if contains_text(a, "rwx region"@) || contains_text(
        a,
        "high-entropy private executable memory"@,
    ) {
        "memory_execution"@
    } else if contains_text(a, "apc injection"@) {
        "apc_injection"@
    } else if contains_text(a, "poolparty"@) || contains_text(a, "thread-pool injection"@) {
        "threadpool_injection"@
    } else if contains_text(a, "reflective pe"@) {
        "reflective_pe"@
    } else if contains_text(a, "ppl process"@) {
        "ppl_abuse"@
    } else if contains_text(a, "api patch"@) {
        "api_patch"@
    } else if contains_text(a, "thread stack"@) {
        "thread_stack"@
    } else if contains_text(a, "process inject"@) || contains_text(a, "process injection"@) {
        "process_injection"@
    } else if contains_text(a, "cookie"@) && contains_text(a, "suspected"@) {
        "browser_credential_access"@
    } else if contains_text(a, "driver blocked"@) {
        "driver_enforcement"@
    } else {
        before_first(before_first(alert, " in pid"@), " (pid="@)
    }
}

pub open spec fn families(alerts: Seq<Seq<char>>) -> Seq<Seq<char>> {
    distinct(distinct(alerts).map_values(|a: Seq<char>| alert_family(a)))
}

/// Alerts of two families intervene, unless the level is relaxed.
pub open spec fn alert_stage(e: EvidenceView, level: FusionResponseLevel) -> Option<DecisionView> {
    if e.alerts.len() > 0 {
        let count = families(e.alerts).len();
        let stage = if count >= 2 && level != FusionResponseLevel::Relaxed {
            FusionStage::Intervene
        } else {
            FusionStage::Correlate
        };
        Some(
            staged(
                stage,
                seq![
                    PartView::Text(
                        "fusion:hips:stage="@ + stage_label(stage) + (":evidence="@ + decimal(count)
                            + ":"@) + joined(distinct(e.alerts), "|"@),
                    ),
                ],
            ),
        )
    } else {
        None
    }
}

pub open spec fn first_decision(a: Option<DecisionView>, b: Option<DecisionView>) -> Option<
    DecisionView,
> {
    match a {
        Some(d) => Some(d),
        None => b,
    }
}

/// The decision of the first stage that has one; clean where none has.
pub open spec fn decision(e: EvidenceView, level: FusionResponseLevel) -> DecisionView {
    match first_decision(
        driver_stage(e),
        first_decision(
            sequence_stage(e),
            first_decision(
                tolerant_stage(e, level),
                first_decision(
                    behavior_stage(e, level),
                    first_decision(
                        static_stage(e, level),
                        first_decision(flags_stage(e, level), alert_stage(e, level)),
                    ),
                ),
            ),
        ),
    ) {
        Some(d) => d,
        None => DecisionView::Clean,
    }
}

/// A block by the driver is malicious at every level, whatever else is known.
pub proof fn law_driver_block_decides(e: EvidenceView, level: FusionResponseLevel, i: int)
    requires
        0 <= i < e.alerts.len(),
        is_driver_alert(e.alerts[i]),
    ensures
        decision(e, level) is Malicious,
        decision(e, level)->rollback,
{
    lemma_driver_alert_found(e.alerts, 0, i);
}

proof fn lemma_driver_alert_found(alerts: Seq<Seq<char>>, from: int, i: int)
    requires
        0 <= from <= i < alerts.len(),
        is_driver_alert(alerts[i]),
    ensures
        driver_alert(alerts, from) is Some,
    decreases i - from,
{
    if !is_driver_alert(alerts[from]) {
        lemma_driver_alert_found(alerts, from + 1, i);
    }
}

/// Only evidence without alerts and without matched sequences is clean.
pub proof fn law_clean_means_silent(e: EvidenceView, level: FusionResponseLevel)
    requires
        decision(e, level) is Clean,
    ensures
        e.alerts.len() == 0,
        e.sequences.len() == 0,
        e.tolerant.len() == 0,
{
}

/// A static score from the high mark on is never averaged into a clean decision by a weak
/// second score.
pub proof fn law_strong_score_survives(
    e: EvidenceView,
    level: FusionResponseLevel,
    heuristic: Score,
    ai: Score,
)
    requires
        e.heuristic == Some(heuristic),
        e.ai == Some(ai),
        heuristic.lesser(Score::one()).units >= high_confidence(level).units || ai.lesser(
            Score::one(),
        ).units >= high_confidence(level).units,
    ensures
        !(decision(e, level) is Clean),
{
}

/// A tolerant chain alone, without corroboration, is suspicious but not intervened upon.
pub proof fn law_tolerant_chain_needs_corroboration(e: EvidenceView, level: FusionResponseLevel)
    requires
        driver_alert(e.alerts, 0) is None,
        e.sequences.len() == 0,
        e.tolerant.len() > 0,
        !tolerant_escalates(e, level),
    ensures
        decision(e, level) is Suspicious,
{
}

/// Makes the decisions.
pub struct ProtectionFusion {
    pub behavioral: Option<Arc<BehavioralScorer>>,
    pub sequence: Option<Arc<SequenceMatcher>>,
    pub response_level: FusionResponseLevel,
}

fn find_driver_alert(alerts: &[String]) -> (alert: Option<&String>)
    ensures
        match alert {
            Some(a) => driver_alert(texts(alerts@), 0) == Some(a@),
            None => driver_alert(texts(alerts@), 0) is None,
        },
{
    let mut i: usize = 0;
    while i < alerts.len()
        invariant
            i <= alerts@.len(),
            driver_alert(texts(alerts@), 0) == driver_alert(texts(alerts@), i as int),
        decreases alerts@.len() - i,
    {
        let low = lower(alerts[i].as_str());
        if has_text(low.as_str(), "driver blocked") {
            return Some(&alerts[i]);
        }
        i = i + 1;
    }
    None
}

fn finds_action_flag(flags: &[String]) -> (b: bool)
    ensures
        b == has_action_flag(texts(flags@)),
{
    let mut i: usize = 0;
    while i < flags.len()
        invariant
            i <= flags@.len(),
            forall|k: int| 0 <= k < i ==> !is_action_flag(#[trigger] texts(flags@)[k]),
        decreases flags@.len() - i,
    {
        let f = flags[i].as_str();
        if same_text(f, "files_changed") || same_text(f, "network_activity") || same_text(
            f,
            "registry_activity",
        ) || same_text(f, "api_activity") || same_text(f, "unpacked") {
            assert(is_action_flag(texts(flags@)[i as int]));
            return true;
        }
        i = i + 1;
    }
    false
}

/// The evidence family of an alert.
pub fn hips_alert_family(alert: &str) -> (family: String)
    ensures
        family@ == alert_family(alert@),
{
    let low = lower(alert);
    let a = low.as_str();
    if has_text(a, "module baseline violation") {
        "module_baseline".to_owned()
    } else if has_text(a, "dll") && (has_text(a, "load") || has_text(a, "side-load")) {
        "module_origin".to_owned()
    } else if has_text(a, "rwx region") || has_text(a, "high-entropy private executable memory") {
        "memory_execution".to_owned()
    } else if has_text(a, "apc injection") {
        "apc_injection".to_owned()
    } else if has_text(a, "poolparty") || has_text(a, "thread-pool injection") {
        "threadpool_injection".to_owned()
    } else if has_text(a, "reflective pe") {
        "reflective_pe".to_owned()
    } else if has_text(a, "ppl process") {
        "ppl_abuse".to_owned()
    } else if has_text(a, "api patch") {
        "api_patch".to_owned()
    } else if has_text(a, "thread stack") {
        "thread_stack".to_owned()
    } else if has_text(a, "process inject") || has_text(a, "process injection") {
        "process_injection".to_owned()
    } else if has_text(a, "cookie") && has_text(a, "suspected") {
        "browser_credential_access".to_owned()
    } else if has_text(a, "driver blocked") {
        "driver_enforcement".to_owned()
    } else {
        let head = text_before(alert, " in pid");
        text_before(head.as_str(), " (pid=")
    }
}

fn families_of(alerts: &[String]) -> (found: Vec<String>)
    ensures
        texts(found@) == texts(alerts@).map_values(|a: Seq<char>| alert_family(a)),
{
    let ghost wanted = texts(alerts@).map_values(|a: Seq<char>| alert_family(a));
    let mut found: Vec<String> = Vec::new();
    let mut i: usize = 0;
    assert(texts(found@) =~= wanted.take(0));
    while i < alerts.len()
        invariant
            i <= alerts@.len(),
            wanted == texts(alerts@).map_values(|a: Seq<char>| alert_family(a)),
            texts(found@) == wanted.take(i as int),
        decreases alerts@.len() - i,
    {
        push_text(&mut found, hips_alert_family(alerts[i].as_str()));
        assert(wanted.take(i + 1) =~= wanted.take(i as int).push(wanted[i as int]));
        i = i + 1;
    }
    assert(wanted.take(i as int) =~= wanted);
    found
}

impl ProtectionFusion {
    pub fn new() -> (fusion: Self)
        ensures
            fusion.behavioral is None,
            fusion.sequence is None,
            fusion.response_level == FusionResponseLevel::Normal,
    {
        ProtectionFusion {
            behavioral: None,
            sequence: None,
            response_level: FusionResponseLevel::Normal,
        }
    }

    pub fn with_behavioral(self, scorer: Arc<BehavioralScorer>) -> (fusion: Self)
        ensures
            fusion == (ProtectionFusion { behavioral: Some(scorer), ..self }),
    {
        ProtectionFusion {
            behavioral: Some(scorer),
            sequence: self.sequence,
            response_level: self.response_level,
        }
    }

    pub fn with_sequence(self, matcher: Arc<SequenceMatcher>) -> (fusion: Self)
        ensures
            fusion == (ProtectionFusion { sequence: Some(matcher), ..self }),
    {
        ProtectionFusion {
            behavioral: self.behavioral,
            sequence: Some(matcher),
            response_level: self.response_level,
        }
    }

    pub fn with_response_level(self, level: FusionResponseLevel) -> (fusion: Self)
        ensures
            fusion == (ProtectionFusion { response_level: level, ..self }),
    {
        ProtectionFusion {
            behavioral: self.behavioral,
            sequence: self.sequence,
            response_level: level,
        }
    }

    fn by_driver(&self, input: &FusionInput) -> (d: Option<FusionDecision>)
        ensures
            seen(d) == driver_stage(input@),
    {
        match find_driver_alert(&input.hips_alerts) {
            Some(alert) => {
                let stage = FusionStage::Intervene;
                let tail = concat2(":", alert.as_str());
                let text = concat3("fusion:driver:stage=", stage.label(), tail.as_str());
                let mut reason = no_parts();
                add_part(&mut reason, ReasonPart::Text(text));
                Some(decide(stage, reason))
            },
            None => None,
        }
    }

    fn by_sequence(&self, input: &FusionInput) -> (d: Option<FusionDecision>)
        ensures
            seen(d) == sequence_stage(input@),
    {
        if let Some(matches) = &input.sequence_matches {
            if matches.len() > 0 {
                let stage = FusionStage::Intervene;
                let names = join(matches, ",");
                let tail = concat2(":", names.as_str());
                let text = concat3(
                    "fusion:kaspersky_sequence:stage=",
                    stage.label(),
                    tail.as_str(),
                );
                let mut reason = no_parts();
                add_part(&mut reason, ReasonPart::Text(text));
                return Some(decide(stage, reason));
            }
        }
        None
    }

    fn by_tolerant_chain(&self, input: &FusionInput) -> (d: Option<FusionDecision>)
        ensures
            seen(d) == tolerant_stage(input@, self.response_level),
    {
        if let Some(matches) = &input.tolerant_sequence_matches {
            if matches.len() > 0 {
                let score = match &input.behavior_score {
                    Some(b) => b.score,
                    None => Score { units: 0 },
                };
                let kinds = count_kinds(&input.events);
                let several = matches.len() >= 2;
                let escalate = score.at_least(self.response_level.threshold()) || (several
                    && finds_action_flag(&input.sandbox_flags)) || (several && kinds >= 3) || (
                several && score.at_least(Score::hundredths(50)));
                let stage = if escalate {
                    FusionStage::Intervene
                } else {
                    FusionStage::Correlate
                };
                let count = decimal_text(kinds as u64);
                let middle = concat3(":events=", count.as_str(), ":score=");
                let head = concat3(
                    "fusion:kaspersky_sequence_tolerant:stage=",
                    stage.label(),
                    middle.as_str(),
                );
                let names = join(matches, ",");
                let mut reason = no_parts();
                add_part(&mut reason, ReasonPart::Text(head));
                add_part(&mut reason, ReasonPart::Score(score));
                add_part(&mut reason, ReasonPart::Text(concat2(":", names.as_str())));
                assert(part_views(reason@) =~= seq![
                    PartView::Text(head@),
                    PartView::Score(score),
                    PartView::Text(":"@ + names@),
                ]);
                return Some(decide(stage, reason));
            }
        }
        None
    }

    fn by_behavior(&self, input: &FusionInput) -> (d: Option<FusionDecision>)
        ensures
            seen(d) == behavior_stage(input@, self.response_level),
    {
        if let Some(b) = &input.behavior_score {
            let value = b.score.min(Score { units: ONE_UNITS });
            if value.at_least(self.response_level.threshold()) {
                let kinds = count_kinds(&input.events);
                let stage = if self.response_level == FusionResponseLevel::Aggressive
                    || value.at_least(Score::hundredths(85)) || kinds >= 2
                    || b.matched_indicators.len() >= 2 {
                    FusionStage::Intervene
                } else {
                    FusionStage::Correlate
                };
                let count = decimal_text(kinds as u64);
                let evidence = concat3(":evidence=", count.as_str(), ":");
                let head = concat3(":stage=", stage.label(), evidence.as_str());
                let names = join(&b.matched_indicators, ",");
                let mut reason = no_parts();
                add_part(&mut reason, ReasonPart::Text("fusion:atc:".to_owned()));
                add_part(&mut reason, ReasonPart::Score(value));
                add_part(&mut reason, ReasonPart::Text(concat2(head.as_str(), names.as_str())));
                assert(part_views(reason@) =~= seq![
                    PartView::Text("fusion:atc:"@),
                    PartView::Score(value),
                    PartView::Text(head@ + names@),
                ]);
                return Some(decide(stage, reason));
            }
        }
        None
    }

    fn by_static_scores(&self, input: &FusionInput) -> (d: Option<FusionDecision>)
        ensures
            seen(d) == static_stage(input@, self.response_level),
    {
        let (h, a) = match (input.heuristic_score, input.ai_score) {
            (Some(h), Some(a)) => (h, a),
            _ => {
                return None;
            },
        };
        let one = Score { units: ONE_UNITS };
        let heuristic = h.min(one);
        let ai = a.min(one);
        let strongest = heuristic.max(ai);
        let weakest = heuristic.min(ai);
        let high = match self.response_level {
            FusionResponseLevel::Aggressive => Score::hundredths(82),
            FusionResponseLevel::Normal => Score::hundredths(90),
            FusionResponseLevel::Relaxed => Score::hundredths(96),
        };
        if strongest.at_least(high) {
            let stage = if strongest.at_least(Score::hundredths(96)) {
                FusionStage::Intervene
            } else {
                FusionStage::Correlate
            };
            let head = concat3("fusion:static_high:stage=", stage.label(), ":heuristic=");
            let mut reason = no_parts();
            add_part(&mut reason, ReasonPart::Text(head));
            add_part(&mut reason, ReasonPart::Score(heuristic));
            add_part(&mut reason, ReasonPart::Text(":ai=".to_owned()));
            add_part(&mut reason, ReasonPart::Score(ai));
            add_part(&mut reason, ReasonPart::Text(":strongest=".to_owned()));
            add_part(&mut reason, ReasonPart::Score(strongest));
            assert(part_views(reason@) =~= seq![
                PartView::Text(head@),
                PartView::Score(heuristic),
                PartView::Text(":ai="@),
                PartView::Score(ai),
                PartView::Text(":strongest="@),
                PartView::Score(strongest),
            ]);
            return Some(decide(stage, reason));
        }
        let threshold = self.response_level.threshold();
        let floor = threshold.times(Score::hundredths(70));
        let share = heuristic.times(Score::hundredths(40));
        let other = ai.times(Score::hundredths(60));
        proof {
            crate::score::lemma_product_capped(
                heuristic.units as nat,
                Score::of_hundredths(40).units as nat,
            );
            crate::score::lemma_product_capped(
                ai.units as nat,
                Score::of_hundredths(60).units as nat,
            );
        }
        let combined = share.plus(other);
        if weakest.at_least(floor) && strongest.at_least(threshold) {
            let stage = if strongest.at_least(Score::hundredths(85)) && combined.at_least(
                Score::hundredths(75),
            ) {
                FusionStage::Intervene
            } else {
                FusionStage::Correlate
            };
            let head = concat3("fusion:static:stage=", stage.label(), ":heuristic=");
            let mut reason = no_parts();
            add_part(&mut reason, ReasonPart::Text(head));
            add_part(&mut reason, ReasonPart::Score(heuristic));
            add_part(&mut reason, ReasonPart::Text(":ai=".to_owned()));
            add_part(&mut reason, ReasonPart::Score(ai));
            add_part(&mut reason, ReasonPart::Text(":combined=".to_owned()));
            add_part(&mut reason, ReasonPart::Score(combined));
            add_part(&mut reason, ReasonPart::Text(":corroboration=".to_owned()));
            add_part(&mut reason, ReasonPart::Score(weakest));
            assert(part_views(reason@) =~= seq![
                PartView::Text(head@),
                PartView::Score(heuristic),
                PartView::Text(":ai="@),
                PartView::Score(ai),
                PartView::Text(":combined="@),
                PartView::Score(combined),
                PartView::Text(":corroboration="@),
                PartView::Score(weakest),
            ]);
            return Some(decide(stage, reason));
        }
        None
    }

    fn by_flags(&self, input: &FusionInput) -> (d: Option<FusionDecision>)
        ensures
            seen(d) == flags_stage(input@, self.response_level),
    {
        if input.sandbox_flags.len() > 0 && self.response_level == FusionResponseLevel::Aggressive {
            let stage = FusionStage::Intervene;
            let names = join(&input.sandbox_flags, ",");
            let tail = concat2(":", names.as_str());
            let text = concat3("fusion:sandbox_flags:stage=", stage.label(), tail.as_str());
            let mut reason = no_parts();
            add_part(&mut reason, ReasonPart::Text(text));
            Some(FusionDecision::Malicious { reason, rollback: false })
        } else {
            None
        }
    }

    fn by_alerts(&self, input: &FusionInput) -> (d: Option<FusionDecision>)
        ensures
            seen(d) == alert_stage(input@, self.response_level),
    {
        if input.hips_alerts.len() == 0 {
            return None;
        }
        let alerts = distinct_texts(&input.hips_alerts);
        let each = families_of(&alerts);
        let found = distinct_texts(&each);
        assert(texts(found@) == families(input@.alerts));
        assert(found@.len() == texts(found@).len());
        let stage = if found.len() >= 2 && self.response_level != FusionResponseLevel::Relaxed {
            FusionStage::Intervene
        } else {
            FusionStage::Correlate
        };
        let count = decimal_text(found.len() as u64);
        let evidence = concat3(":evidence=", count.as_str(), ":");
        let head = concat3("fusion:hips:stage=", stage.label(), evidence.as_str());
        let names = join(&alerts, "|");
        let mut reason = no_parts();
        add_part(&mut reason, ReasonPart::Text(concat2(head.as_str(), names.as_str())));
        Some(decide(stage, reason))
    }

    /// Decides from all the evidence: the first stage that has a decision makes it.
    pub fn evaluate(&self, input: &FusionInput) -> (d: FusionDecision)
        ensures
            d@ == decision(input@, self.response_level),
    {
        if let Some(d) = self.by_driver(input) {
            return d;
        }
        if let Some(d) = self.by_sequence(input) {
            return d;
        }
        if let Some(d) = self.by_tolerant_chain(input) {
            return d;
        }
        if let Some(d) = self.by_behavior(input) {
            return d;
        }
        if let Some(d) = self.by_static_scores(input) {
            return d;
        }
        if let Some(d) = self.by_flags(input) {
            return d;
        }
        if let Some(d) = self.by_alerts(input) {
            return d;
        }
        FusionDecision::Clean
    }
}

impl Default for ProtectionFusion {
    fn default() -> (fusion: Self)
        ensures
            fusion.behavioral is None,
            fusion.sequence is None,
            fusion.response_level == FusionResponseLevel::Normal,
    {
        ProtectionFusion::new()
    }
}

} // verus!
