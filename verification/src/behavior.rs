//! Behaviour scoring: each kind of behaviour counts once, correlated kinds add a bonus.

use crate::score::Score;
use crate::text::{concat3, push_text, push_when, only_if, texts};
use crate::total::{add_up_capped, capped_sum};
use vstd::prelude::*;

verus! {

#[derive(Debug, Clone, Copy, PartialEq, Eq, Hash, Structural)]
pub enum BehaviorEventKind {
    FileWrite,
    RegistryWrite,
    ProcessCreate,
    NetworkConnect,
    SuspiciousApiCall,
    DnsQuery,
    ProcessInject,
    PersistenceChange,
    CredentialAccess,
    ServiceTampering,
    BackupDeletion,
    RansomwareEncryption,
    SuspiciousPersistence,
    /// An anomalous module load or a violated baseline of a protected process. It marks
    /// code execution through an unexpected module, not an autostart step.
    SuspiciousModuleLoad,
}

/// The stable lower-case label of a kind.
pub open spec fn kind_label(kind: BehaviorEventKind) -> Seq<char> {
    match kind {
        BehaviorEventKind::FileWrite => "file_write"@,
        BehaviorEventKind::RegistryWrite => "registry_write"@,
        BehaviorEventKind::ProcessCreate => "process_create"@,
        BehaviorEventKind::NetworkConnect => "network_connect"@,
        BehaviorEventKind::SuspiciousApiCall => "suspicious_api_call"@,
        BehaviorEventKind::DnsQuery => "dns_query"@,
        BehaviorEventKind::ProcessInject => "process_inject"@,
        BehaviorEventKind::PersistenceChange => "persistence_change"@,
        BehaviorEventKind::CredentialAccess => "credential_access"@,
        BehaviorEventKind::ServiceTampering => "service_tampering"@,
        BehaviorEventKind::BackupDeletion => "backup_deletion"@,
        BehaviorEventKind::RansomwareEncryption => "ransomware_encryption"@,
        BehaviorEventKind::SuspiciousPersistence => "suspicious_persistence"@,
        BehaviorEventKind::SuspiciousModuleLoad => "suspicious_module_load"@,
    }
}

impl BehaviorEventKind {
    /// The stable lower-case label of the kind.
    pub fn as_str(&self) -> (label: &'static str)
        ensures
            label@ == kind_label(*self),
    {
        match self {
            BehaviorEventKind::FileWrite => "file_write",
            BehaviorEventKind::RegistryWrite => "registry_write",
            BehaviorEventKind::ProcessCreate => "process_create",
            BehaviorEventKind::NetworkConnect => "network_connect",
            BehaviorEventKind::SuspiciousApiCall => "suspicious_api_call",
            BehaviorEventKind::DnsQuery => "dns_query",
            BehaviorEventKind::ProcessInject => "process_inject",
            BehaviorEventKind::PersistenceChange => "persistence_change",
            BehaviorEventKind::CredentialAccess => "credential_access",
            BehaviorEventKind::ServiceTampering => "service_tampering",
            BehaviorEventKind::BackupDeletion => "backup_deletion",
            BehaviorEventKind::RansomwareEncryption => "ransomware_encryption",
            BehaviorEventKind::SuspiciousPersistence => "suspicious_persistence",
            BehaviorEventKind::SuspiciousModuleLoad => "suspicious_module_load",
        }
    }
}

#[derive(Debug, Clone, Copy, PartialEq, Eq, Structural)]
pub enum SecurityLevel {
    Aggressive,
    Normal,
    Relaxed,
}

/// The score from which a level calls behaviour malicious.
pub open spec fn level_threshold(level: SecurityLevel) -> Score {
    match level {
        SecurityLevel::Aggressive => Score::of_hundredths(55),
        SecurityLevel::Normal => Score::of_hundredths(70),
        SecurityLevel::Relaxed => Score::of_hundredths(85),
    }
}

impl SecurityLevel {
    pub fn threshold(&self) -> (t: Score)
        ensures
            t == level_threshold(*self),
    {
        match self {
            SecurityLevel::Aggressive => Score::hundredths(55),
            SecurityLevel::Normal => Score::hundredths(70),
            SecurityLevel::Relaxed => Score::hundredths(85),
        }
    }
}

#[derive(Debug)]
pub struct BehaviorEvent {
    pub kind: BehaviorEventKind,
    pub detail: String,
    pub process_id: Option<u32>,
}

pub struct EventView {
    pub kind: BehaviorEventKind,
    pub detail: Seq<char>,
    pub process_id: Option<u32>,
}

impl View for BehaviorEvent {
    type V = EventView;

    open spec fn view(&self) -> EventView {
        EventView { kind: self.kind, detail: self.detail@, process_id: self.process_id }
    }
}

pub open spec fn event_views(events: Seq<BehaviorEvent>) -> Seq<EventView> {
    events.map_values(|e: BehaviorEvent| e@)
}

#[derive(Debug)]
pub struct BehaviorScoreResult {
    pub process_id: Option<u32>,
    pub score: Score,
    pub matched_indicators: Vec<String>,
}

pub struct ScoreResultView {
    pub process_id: Option<u32>,
    pub score: Score,
    pub matched_indicators: Seq<Seq<char>>,
}

impl View for BehaviorScoreResult {
    type V = ScoreResultView;

    open spec fn view(&self) -> ScoreResultView {
        ScoreResultView {
            process_id: self.process_id,
            score: self.score,
            matched_indicators: texts(self.matched_indicators@),
        }
    }
}

/// Scores a window of behaviour events.
#[derive(Debug)]
pub struct BehavioralScorer {
    pub weights: Vec<(BehaviorEventKind, Score)>,
    pub threshold: Score,
    pub security_level: SecurityLevel,
}

/// The weight that a table gives to a kind: the last entry for it counts.
pub open spec fn table_weight(
    table: Seq<(BehaviorEventKind, Score)>,
    kind: BehaviorEventKind,
) -> Option<Score>
    decreases table.len(),
{
    if table.len() == 0 {
        None
    } else if table.last().0 == kind {
        Some(table.last().1)
    } else {
        table_weight(table.drop_last(), kind)
    }
}

/// The built-in weights, in hundredths.
pub open spec fn default_weight(kind: BehaviorEventKind) -> Option<Score> {
    match kind {
        BehaviorEventKind::ProcessInject => Some(Score::of_hundredths(25)),
        BehaviorEventKind::SuspiciousApiCall => Some(Score::of_hundredths(40)),
        BehaviorEventKind::RegistryWrite => Some(Score::of_hundredths(20)),
        BehaviorEventKind::FileWrite => Some(Score::of_hundredths(15)),
        BehaviorEventKind::NetworkConnect => Some(Score::of_hundredths(12)),
        BehaviorEventKind::PersistenceChange => Some(Score::of_hundredths(15)),
        BehaviorEventKind::DnsQuery => Some(Score::of_hundredths(10)),
        BehaviorEventKind::CredentialAccess => Some(Score::of_hundredths(22)),
        BehaviorEventKind::ServiceTampering => Some(Score::of_hundredths(18)),
        BehaviorEventKind::BackupDeletion => Some(Score::of_hundredths(16)),
        BehaviorEventKind::RansomwareEncryption => Some(Score::of_hundredths(30)),
        BehaviorEventKind::SuspiciousPersistence => Some(Score::of_hundredths(18)),
        BehaviorEventKind::SuspiciousModuleLoad => Some(Score::of_hundredths(12)),
        BehaviorEventKind::ProcessCreate => None,
    }
}

/// Some event is of the kind.
pub open spec fn has_kind(events: Seq<EventView>, kind: BehaviorEventKind) -> bool {
    exists|i: int| 0 <= i < events.len() && (#[trigger] events[i]).kind == kind
}

/// The events that count: the first of each kind that has a weight.
pub open spec fn counted(
    events: Seq<EventView>,
    weight: spec_fn(BehaviorEventKind) -> Option<Score>,
) -> Seq<EventView>
    decreases events.len(),
{
    if events.len() == 0 {
        Seq::empty()
    } else {
        let before = events.drop_last();
        let e = events.last();
        if !has_kind(before, e.kind) && weight(e.kind) is Some {
            counted(before, weight).push(e)
        } else {
            counted(before, weight)
        }
    }
}

pub open spec fn injection_and_collection(events: Seq<EventView>) -> bool {
    has_kind(events, BehaviorEventKind::ProcessInject) && (has_kind(
        events,
        BehaviorEventKind::FileWrite,
    ) || has_kind(events, BehaviorEventKind::RegistryWrite))
}

pub open spec fn credentials_and_network(events: Seq<EventView>) -> bool {
    has_kind(events, BehaviorEventKind::CredentialAccess) && (has_kind(
        events,
        BehaviorEventKind::NetworkConnect,
    ) || has_kind(events, BehaviorEventKind::DnsQuery))
}

pub open spec fn destruction_and_encryption(events: Seq<EventView>) -> bool {
    has_kind(events, BehaviorEventKind::BackupDeletion) && has_kind(
        events,
        BehaviorEventKind::RansomwareEncryption,
    )
}

pub open spec fn term_if(condition: bool, hundredths: nat) -> Seq<Score> {
    if condition {
        seq![Score::of_hundredths(hundredths)]
    } else {
        Seq::empty()
    }
}

/// The bonuses for correlated kinds.
pub open spec fn bonus_terms(events: Seq<EventView>) -> Seq<Score> {
    term_if(injection_and_collection(events), 18) + term_if(credentials_and_network(events), 18)
        + term_if(destruction_and_encryption(events), 24)
}

pub open spec fn bonus_labels(events: Seq<EventView>) -> Seq<Seq<char>> {
    only_if(injection_and_collection(events), "correlation:injection_plus_collection"@) + only_if(
        credentials_and_network(events),
        "correlation:credential_plus_network"@,
    ) + only_if(
        destruction_and_encryption(events),
        "correlation:backup_destruction_plus_encryption"@,
    )
}

/// The weights that add up to the score of a window, in order.
pub open spec fn window_terms(
    events: Seq<EventView>,
    weight: spec_fn(BehaviorEventKind) -> Option<Score>,
) -> Seq<Score> {
    counted(events, weight).map_values(|e: EventView| weight(e.kind).unwrap()) + bonus_terms(events)
}

/// The score of a window of events.
pub open spec fn window_score(
    events: Seq<EventView>,
    weight: spec_fn(BehaviorEventKind) -> Option<Score>,
) -> Score {
    capped_sum(window_terms(events, weight))
}

pub open spec fn event_label(e: EventView) -> Seq<char> {
    kind_label(e.kind) + ":"@ + e.detail
}

/// The indicators of a window of events, in order.
pub open spec fn window_indicators(
    events: Seq<EventView>,
    weight: spec_fn(BehaviorEventKind) -> Option<Score>,
) -> Seq<Seq<char>> {
    counted(events, weight).map_values(|e: EventView| event_label(e)) + bonus_labels(events)
}

/// The events of one process.
pub open spec fn events_of(events: Seq<EventView>, process: Option<u32>) -> Seq<EventView>
    decreases events.len(),
{
    if events.len() == 0 {
        Seq::empty()
    } else {
        let before = events_of(events.drop_last(), process);
        if events.last().process_id == process {
            before.push(events.last())
        } else {
            before
        }
    }
}

/// The processes that events come from, each once, in order of their first event.
pub open spec fn processes_of(events: Seq<EventView>) -> Seq<Option<u32>>
    decreases events.len(),
{
    if events.len() == 0 {
        Seq::empty()
    } else {
        let before = processes_of(events.drop_last());
        if before.contains(events.last().process_id) {
            before
        } else {
            before.push(events.last().process_id)
        }
    }
}

/// Every listed process once.
pub proof fn lemma_processes_distinct(events: Seq<EventView>)
    ensures
        processes_of(events).no_duplicates(),
        processes_of(events).len() <= events.len(),
    decreases events.len(),
{
    if events.len() > 0 {
        lemma_processes_distinct(events.drop_last());
    }
}

/// The kinds that occur in a window are the same with an event added whose kind occurs
/// already.
proof fn lemma_kinds_with_repeat(events: Seq<EventView>, e: EventView, kind: BehaviorEventKind)
    requires
        has_kind(events, e.kind),
    ensures
        has_kind(events.push(e), kind) == has_kind(events, kind),
{
    let more = events.push(e);
    if has_kind(events, kind) {
        let i = choose|i: int| 0 <= i < events.len() && (#[trigger] events[i]).kind == kind;
        assert(more[i].kind == kind);
    }
    if has_kind(more, kind) {
        let i = choose|i: int| 0 <= i < more.len() && (#[trigger] more[i]).kind == kind;
        if i < events.len() {
            assert(events[i].kind == kind);
        }
    }
}

/// Repeating a kind of behaviour changes neither the score nor the indicators: a noisy
/// process cannot manufacture a high score.
pub proof fn law_repeated_kind_counts_once(
    events: Seq<EventView>,
    e: EventView,
    weight: spec_fn(BehaviorEventKind) -> Option<Score>,
)
    requires
        has_kind(events, e.kind),
    ensures
        window_score(events.push(e), weight) == window_score(events, weight),
        window_indicators(events.push(e), weight) == window_indicators(events, weight),
{
    let more = events.push(e);
    assert(more.drop_last() =~= events);
    assert(counted(more, weight) == counted(events, weight));
    lemma_kinds_with_repeat(events, e, BehaviorEventKind::ProcessInject);
    lemma_kinds_with_repeat(events, e, BehaviorEventKind::FileWrite);
    lemma_kinds_with_repeat(events, e, BehaviorEventKind::RegistryWrite);
    lemma_kinds_with_repeat(events, e, BehaviorEventKind::CredentialAccess);
    lemma_kinds_with_repeat(events, e, BehaviorEventKind::NetworkConnect);
    lemma_kinds_with_repeat(events, e, BehaviorEventKind::DnsQuery);
    lemma_kinds_with_repeat(events, e, BehaviorEventKind::BackupDeletion);
    lemma_kinds_with_repeat(events, e, BehaviorEventKind::RansomwareEncryption);
    assert(bonus_terms(more) == bonus_terms(events));
    assert(bonus_labels(more) == bonus_labels(events));
}

/// The kind occurs in the list.
pub fn kind_in(kinds: &[BehaviorEventKind], kind: BehaviorEventKind) -> (b: bool)
    ensures
        b == kinds@.contains(kind),
{
    let mut i: usize = 0;
    while i < kinds.len()
        invariant
            i <= kinds@.len(),
            forall|k: int| 0 <= k < i ==> kinds@[k] != kind,
        decreases kinds@.len() - i,
    {
        if kinds[i] == kind {
            assert(kinds@[i as int] == kind);
            return true;
        }
        i = i + 1;
    }
    false
}

impl BehavioralScorer {
    /// The weight that the scorer gives to a kind.
    pub open spec fn weight(&self, kind: BehaviorEventKind) -> Option<Score> {
        table_weight(self.weights@, kind)
    }

    pub open spec fn weight_fn(&self) -> spec_fn(BehaviorEventKind) -> Option<Score> {
        |kind: BehaviorEventKind| self.weight(kind)
    }

    /// A scorer with its own weights; a later entry for a kind replaces an earlier one.
    pub fn new(weights: Vec<(BehaviorEventKind, Score)>, threshold: Score) -> (scorer: Self)
        ensures
            forall|kind: BehaviorEventKind|
                #[trigger] scorer.weight(kind) == table_weight(weights@, kind),
            scorer.threshold == threshold,
            scorer.security_level == SecurityLevel::Normal,
    {
        BehavioralScorer { weights, threshold, security_level: SecurityLevel::Normal }
    }

    pub fn with_security_level(self, level: SecurityLevel) -> (scorer: Self)
        ensures
            forall|kind: BehaviorEventKind| #[trigger] scorer.weight(kind) == self.weight(kind),
            scorer.threshold == level_threshold(level),
            scorer.security_level == level,
    {
        BehavioralScorer {
            weights: self.weights,
            threshold: level.threshold(),
            security_level: level,
        }
    }

    fn weight_of(&self, kind: BehaviorEventKind) -> (w: Option<Score>)
        ensures
            w == self.weight(kind),
    {
        let mut i: usize = self.weights.len();
        assert(self.weights@.take(i as int) =~= self.weights@);
        while i > 0
            invariant
                i <= self.weights@.len(),
                table_weight(self.weights@, kind) == table_weight(
                    self.weights@.take(i as int),
                    kind,
                ),
            decreases i,
        {
            assert(self.weights@.take(i as int).drop_last() =~= self.weights@.take(i - 1));
            assert(self.weights@.take(i as int).last() == self.weights@[i - 1]);
            if self.weights[i - 1].0 == kind {
                return Some(self.weights[i - 1].1);
            }
            i = i - 1;
        }
        None
    }

    /// Scores the events of `process`, or all events where `all` holds.
    fn score_window(&self, events: &[BehaviorEvent], all: bool, process: Option<u32>) -> (result:
        BehaviorScoreResult)
        ensures
            result@.process_id == process,
            ({
                let window = if all {
                    event_views(events@)
                } else {
                    events_of(event_views(events@), process)
                };
                &&& result@.score == window_score(window, self.weight_fn())
                &&& result@.matched_indicators == window_indicators(window, self.weight_fn())
                &&& result.score.in_unit()
            }),
    {
        let ghost views = event_views(events@);
        let ghost weight = self.weight_fn();
        let ghost mut window: Seq<EventView> = Seq::empty();
        let mut kinds: Vec<BehaviorEventKind> = Vec::new();
        let mut terms: Vec<Score> = Vec::new();
        let mut indicators: Vec<String> = Vec::new();
        let mut i: usize = 0;
        assert(terms@ =~= counted(window, weight).map_values(
            |e: EventView| weight(e.kind).unwrap(),
        ));
        assert(texts(indicators@) =~= counted(window, weight).map_values(
            |e: EventView| event_label(e),
        ));
        while i < events.len()
            invariant
                i <= events@.len(),
                views == event_views(events@),
                weight == self.weight_fn(),
                window == (if all {
                    views.take(i as int)
                } else {
                    events_of(views.take(i as int), process)
                }),
                kinds@.no_duplicates(),
                forall|kind: BehaviorEventKind|
                    #[trigger] kinds@.contains(kind) == has_kind(window, kind),
                terms@ == counted(window, weight).map_values(
                    |e: EventView| weight(e.kind).unwrap(),
                ),
                texts(indicators@) == counted(window, weight).map_values(
                    |e: EventView| event_label(e),
                ),
            decreases events@.len() - i,
        {
            let e = &events[i];
            assert(views.take(i + 1).drop_last() =~= views.take(i as int));
            assert(views.take(i + 1).last() == e@);
            if all || same_process(e.process_id, process) {
                let ghost before = window;
                let ghost next = window.push(e@);
                assert(next.drop_last() =~= before);
                assert(views.take(i + 1) =~= views.take(i as int).push(e@));
                let seen = kind_in(&kinds, e.kind);
                if !seen {
                    if let Some(w) = self.weight_of(e.kind) {
                        terms.push(w);
                        push_text(
                            &mut indicators,
                            concat3(e.kind.as_str(), ":", e.detail.as_str()),
                        );
                        assert(counted(next, weight) == counted(before, weight).push(e@));
                    } else {
                        assert(counted(next, weight) == counted(before, weight));
                    }
                    let ghost old_kinds = kinds@;
                    kinds.push(e.kind);
                    assert(forall|kind: BehaviorEventKind|
                        #[trigger] kinds@.contains(kind) == (old_kinds.contains(kind) || kind
                            == e.kind)) by {
                        assert forall|kind: BehaviorEventKind|
                            #[trigger] kinds@.contains(kind) == (old_kinds.contains(kind) || kind
                                == e.kind) by {
                            if old_kinds.contains(kind) {
                                let k = old_kinds.index_of(kind);
                                assert(kinds@[k] == kind);
                            }
                            assert(kinds@[old_kinds.len() as int] == e.kind);
                            if kinds@.contains(kind) {
                                let k = kinds@.index_of(kind);
                                if k < old_kinds.len() {
                                    assert(old_kinds[k] == kind);
                                }
                            }
                        }
                    }
                } else {
                    assert(counted(next, weight) == counted(before, weight));
                }
                proof {
                    assert forall|kind: BehaviorEventKind|
                        #[trigger] has_kind(next, kind) == (has_kind(before, kind) || kind
                            == e.kind) by {
                        if has_kind(before, kind) {
                            let k = choose|k: int|
                                0 <= k < before.len() && (#[trigger] before[k]).kind == kind;
                            assert(next[k].kind == kind);
                        }
                        assert(next[before.len() as int].kind == e.kind);
                        if has_kind(next, kind) {
                            let k = choose|k: int|
                                0 <= k < next.len() && (#[trigger] next[k]).kind == kind;
                            if k < before.len() {
                                assert(before[k].kind == kind);
                            }
                        }
                    }
                    window = next;
                    assert(terms@ =~= counted(window, weight).map_values(
                        |e: EventView| weight(e.kind).unwrap(),
                    ));
                    assert(texts(indicators@) =~= counted(window, weight).map_values(
                        |e: EventView| event_label(e),
                    ));
                }
            }
            i = i + 1;
        }
        assert(views.take(i as int) =~= views);
        let ghost base_terms = terms@;
        let ghost base_labels = texts(indicators@);
        let collected = kind_in(&kinds, BehaviorEventKind::ProcessInject) && (kind_in(
            &kinds,
            BehaviorEventKind::FileWrite,
        ) || kind_in(&kinds, BehaviorEventKind::RegistryWrite));
        let exfiltrated = kind_in(&kinds, BehaviorEventKind::CredentialAccess) && (kind_in(
            &kinds,
            BehaviorEventKind::NetworkConnect,
        ) || kind_in(&kinds, BehaviorEventKind::DnsQuery));
        let destroyed = kind_in(&kinds, BehaviorEventKind::BackupDeletion) && kind_in(
            &kinds,
            BehaviorEventKind::RansomwareEncryption,
        );
        if collected {
            terms.push(Score::hundredths(18));
        }
        if exfiltrated {
            terms.push(Score::hundredths(18));
        }
        if destroyed {
            terms.push(Score::hundredths(24));
        }
        push_when(&mut indicators, collected, "correlation:injection_plus_collection");
        push_when(&mut indicators, exfiltrated, "correlation:credential_plus_network");
        push_when(&mut indicators, destroyed, "correlation:backup_destruction_plus_encryption");
        assert(terms@ =~= base_terms + bonus_terms(window));
        assert(texts(indicators@) =~= base_labels + bonus_labels(window));
        let score = add_up_capped(&terms);
        BehaviorScoreResult { process_id: process, score, matched_indicators: indicators }
    }

    /// Scores all the events as one window.
    pub fn score_events(&self, events: &[BehaviorEvent]) -> (result: BehaviorScoreResult)
        ensures
            result@.process_id is None,
            result@.score == window_score(event_views(events@), self.weight_fn()),
            result@.matched_indicators == window_indicators(event_views(events@), self.weight_fn()),
            result.score.in_unit(),
    {
        self.score_window(events, true, None)
    }

    /// Scores the events of each process, in order of the processes' first events.
    pub fn score_events_by_process(&self, events: &[BehaviorEvent]) -> (results: Vec<
        BehaviorScoreResult,
    >)
        ensures
            results@.len() == processes_of(event_views(events@)).len(),
            forall|i: int|
                0 <= i < results@.len() ==> (#[trigger] results@[i])@ == (ScoreResultView {
                    process_id: processes_of(event_views(events@))[i],
                    score: window_score(
                        events_of(event_views(events@), processes_of(event_views(events@))[i]),
                        self.weight_fn(),
                    ),
                    matched_indicators: window_indicators(
                        events_of(event_views(events@), processes_of(event_views(events@))[i]),
                        self.weight_fn(),
                    ),
                }),
            forall|i: int| 0 <= i < results@.len() ==> (#[trigger] results@[i]).score.in_unit(),
    {
        let ghost views = event_views(events@);
        let mut processes: Vec<Option<u32>> = Vec::new();
        let mut i: usize = 0;
        while i < events.len()
            invariant
                i <= events@.len(),
                views == event_views(events@),
                processes@ == processes_of(views.take(i as int)),
            decreases events@.len() - i,
        {
            assert(views.take(i + 1).drop_last() =~= views.take(i as int));
            assert(views.take(i + 1).last() == events@[i as int]@);
            let process = events[i].process_id;
            if !process_in(&processes, process) {
                processes.push(process);
            }
            i = i + 1;
        }
        assert(views.take(i as int) =~= views);
        let mut results: Vec<BehaviorScoreResult> = Vec::new();
        let mut k: usize = 0;
        while k < processes.len()
            invariant
                k <= processes@.len(),
                views == event_views(events@),
                processes@ == processes_of(views),
                results@.len() == k,
                forall|j: int|
                    0 <= j < k ==> (#[trigger] results@[j])@ == (ScoreResultView {
                        process_id: processes@[j],
                        score: window_score(events_of(views, processes@[j]), self.weight_fn()),
                        matched_indicators: window_indicators(
                            events_of(views, processes@[j]),
                            self.weight_fn(),
                        ),
                    }),
                forall|j: int| 0 <= j < k ==> (#[trigger] results@[j]).score.in_unit(),
            decreases processes@.len() - k,
        {
            results.push(self.score_window(events, false, processes[k]));
            k = k + 1;
        }
        results
    }

    /// The score reaches the scorer's threshold.
    pub fn is_malicious(&self, score: Score) -> (b: bool)
        ensures
            b == (score.units >= self.threshold.units),
    {
        score.at_least(self.threshold)
    }
}

impl Default for BehavioralScorer {
    /// The built-in weights at the normal level.
    fn default() -> (scorer: Self)
        ensures
            forall|kind: BehaviorEventKind| #[trigger] scorer.weight(kind) == default_weight(kind),
            scorer.threshold == level_threshold(SecurityLevel::Normal),
            scorer.security_level == SecurityLevel::Normal,
    {
        let mut weights: Vec<(BehaviorEventKind, Score)> = Vec::new();
        weights.push((BehaviorEventKind::ProcessInject, Score::hundredths(25)));
        weights.push((BehaviorEventKind::SuspiciousApiCall, Score::hundredths(40)));
        weights.push((BehaviorEventKind::RegistryWrite, Score::hundredths(20)));
        weights.push((BehaviorEventKind::FileWrite, Score::hundredths(15)));
        weights.push((BehaviorEventKind::NetworkConnect, Score::hundredths(12)));
        weights.push((BehaviorEventKind::PersistenceChange, Score::hundredths(15)));
        weights.push((BehaviorEventKind::DnsQuery, Score::hundredths(10)));
        weights.push((BehaviorEventKind::CredentialAccess, Score::hundredths(22)));
        weights.push((BehaviorEventKind::ServiceTampering, Score::hundredths(18)));
        weights.push((BehaviorEventKind::BackupDeletion, Score::hundredths(16)));
        weights.push((BehaviorEventKind::RansomwareEncryption, Score::hundredths(30)));
        weights.push((BehaviorEventKind::SuspiciousPersistence, Score::hundredths(18)));
        weights.push((BehaviorEventKind::SuspiciousModuleLoad, Score::hundredths(12)));
        proof {
            assert(weights@ =~= default_table());
            assert forall|kind: BehaviorEventKind|
                #[trigger] table_weight(weights@, kind) == default_weight(kind) by {
                lemma_default_table(kind);
            }
        }
        BehavioralScorer {
            weights,
            threshold: SecurityLevel::Normal.threshold(),
            security_level: SecurityLevel::Normal,
        }
    }
}

spec fn default_table() -> Seq<(BehaviorEventKind, Score)> {
    seq![
        (BehaviorEventKind::ProcessInject, Score::of_hundredths(25)),
        (BehaviorEventKind::SuspiciousApiCall, Score::of_hundredths(40)),
        (BehaviorEventKind::RegistryWrite, Score::of_hundredths(20)),
        (BehaviorEventKind::FileWrite, Score::of_hundredths(15)),
        (BehaviorEventKind::NetworkConnect, Score::of_hundredths(12)),
        (BehaviorEventKind::PersistenceChange, Score::of_hundredths(15)),
        (BehaviorEventKind::DnsQuery, Score::of_hundredths(10)),
        (BehaviorEventKind::CredentialAccess, Score::of_hundredths(22)),
        (BehaviorEventKind::ServiceTampering, Score::of_hundredths(18)),
        (BehaviorEventKind::BackupDeletion, Score::of_hundredths(16)),
        (BehaviorEventKind::RansomwareEncryption, Score::of_hundredths(30)),
        (BehaviorEventKind::SuspiciousPersistence, Score::of_hundredths(18)),
        (BehaviorEventKind::SuspiciousModuleLoad, Score::of_hundredths(12)),
    ]
}

proof fn lemma_default_table(kind: BehaviorEventKind)
    ensures
        table_weight(default_table(), kind) == default_weight(kind),
{
    reveal_with_fuel(table_weight, 14);
}

fn same_process(a: Option<u32>, b: Option<u32>) -> (same: bool)
    ensures
        same == (a == b),
{
    match (a, b) {
        (Some(x), Some(y)) => x == y,
        (None, None) => true,
        _ => false,
    }
}

fn process_in(processes: &[Option<u32>], process: Option<u32>) -> (b: bool)
    ensures
        b == processes@.contains(process),
{
    let mut i: usize = 0;
    while i < processes.len()
        invariant
            i <= processes@.len(),
            forall|k: int| 0 <= k < i ==> processes@[k] != process,
        decreases processes@.len() - i,
    {
        if same_process(processes[i], process) {
            assert(processes@[i as int] == process);
            return true;
        }
        i = i + 1;
    }
    false
}

} // verus!
