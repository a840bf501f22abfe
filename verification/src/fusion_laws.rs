//! What the fusion of evidence must decide, kind of evidence by kind of evidence.

use crate::behavior::{EventView, ScoreResultView};
use crate::fusion::{
    alert_family, decision, driver_alert, families, has_action_flag, is_action_flag, kind_count,
    stage_label, DecisionView, EvidenceView, FusionResponseLevel, FusionStage, PartView,
};
use crate::score::{granule, nearest, Score, ONE_UNITS};
use crate::text::{contains_text, decimal, distinct, joined, lowered};
use crate::text_laws::{law_more_text_hides_nothing, law_text_is_found_inside};
use vstd::prelude::*;

verus! {

proof fn lemma_mark(h: nat)
    requires
        50 <= h < 100,
    ensures
        Score::of_hundredths(h).units == nearest(h * 0x1000_0000_0000_0000, 100 * 0x10_0000_0000)
            * 0x10_0000_0000,
{
    let n = (h * 0x1000_0000_0000_0000 / 100) as nat;
    assert(0x800_0000_0000_0000 <= n < 0x1000_0000_0000_0000);
    reveal_with_fuel(granule, 40);
    assert(granule(n) == 0x10_0000_0000);
}

proof fn lemma_marks()
    ensures
        Score::of_hundredths(50).units < Score::of_hundredths(55).units
            < Score::of_hundredths(70).units < Score::of_hundredths(75).units
            < Score::of_hundredths(82).units < Score::of_hundredths(85).units
            < Score::of_hundredths(90).units < Score::of_hundredths(96).units < ONE_UNITS,
{
    lemma_mark(50);
    lemma_mark(55);
    lemma_mark(70);
    lemma_mark(75);
    lemma_mark(82);
    lemma_mark(85);
    lemma_mark(90);
    lemma_mark(96);
}

/// No alert reports a block by the driver.
pub open spec fn driver_is_silent(e: EvidenceView) -> bool {
    forall|i: int|
        0 <= i < e.alerts.len() ==> !contains_text(
            lowered(#[trigger] e.alerts[i]),
            "driver blocked"@,
        )
}

/// The score from which evidence counts at a level.
pub open spec fn mark_of(level: FusionResponseLevel) -> Score {
    match level {
        FusionResponseLevel::Aggressive => Score::of_hundredths(55),
        FusionResponseLevel::Normal => Score::of_hundredths(70),
        FusionResponseLevel::Relaxed => Score::of_hundredths(85),
    }
}

/// The static score that is high by itself at a level.
pub open spec fn high_mark_of(level: FusionResponseLevel) -> Score {
    match level {
        FusionResponseLevel::Aggressive => Score::of_hundredths(82),
        FusionResponseLevel::Normal => Score::of_hundredths(90),
        FusionResponseLevel::Relaxed => Score::of_hundredths(96),
    }
}

/// No behaviour score reaches the mark.
pub open spec fn behavior_is_calm(e: EvidenceView, level: FusionResponseLevel) -> bool {
    e.behavior matches Some(b) ==> b.score.units < mark_of(level).units
}

/// Neither the driver nor a chain decides.
pub open spec fn without_chains(e: EvidenceView) -> bool {
    driver_is_silent(e) && e.sequences.len() == 0 && e.tolerant.len() == 0
}

/// Neither the driver, nor a chain, nor behaviour decides.
pub open spec fn only_static(e: EvidenceView, level: FusionResponseLevel) -> bool {
    without_chains(e) && behavior_is_calm(e, level)
}

pub open spec fn stronger(a: Score, b: Score) -> Score {
    if a.units >= b.units {
        a
    } else {
        b
    }
}

pub open spec fn weaker(a: Score, b: Score) -> Score {
    if a.units >= b.units {
        b
    } else {
        a
    }
}

/// Two static scores of one at most that say nothing: the stronger is below the mark, or it is
/// not high and the weaker does not back it.
pub open spec fn static_is_weak(e: EvidenceView, level: FusionResponseLevel) -> bool {
    match (e.heuristic, e.ai) {
        (Some(h), Some(a)) => {
            &&& stronger(h, a).units < high_mark_of(level).units
            &&& stronger(h, a).units < mark_of(level).units || weaker(h, a).units < mark_of(
                level,
            ).product(Score::of_hundredths(70)).units
        },
        _ => true,
    }
}

/// Two events are of different kinds.
pub open spec fn two_kinds(events: Seq<EventView>) -> bool {
    exists|i: int, j: int|
        0 <= i < events.len() && 0 <= j < events.len() && (#[trigger] events[i]).kind != (
        #[trigger] events[j]).kind
}

/// Three events are of three kinds.
pub open spec fn three_kinds(events: Seq<EventView>) -> bool {
    exists|i: int, j: int, k: int|
        0 <= i < events.len() && 0 <= j < events.len() && 0 <= k < events.len() && (
        #[trigger] events[i]).kind != (#[trigger] events[j]).kind && events[i].kind != (
        #[trigger] events[k]).kind && events[j].kind != events[k].kind
}

/// The decision is an intervention that is undone by a rollback.
pub open spec fn intervenes(d: DecisionView) -> bool {
    d matches DecisionView::Malicious { rollback, .. } && rollback
}

proof fn lemma_driver_silent(alerts: Seq<Seq<char>>, i: int)
    requires
        forall|k: int|
            0 <= k < alerts.len() ==> !contains_text(
                lowered(#[trigger] alerts[k]),
                "driver blocked"@,
            ),
    ensures
        driver_alert(alerts, i) is None,
    decreases alerts.len() - i,
{
    if 0 <= i < alerts.len() {
        lemma_driver_silent(alerts, i + 1);
    }
}

proof fn lemma_kinds(events: Seq<EventView>)
    ensures
        kind_count(events) >= 2 <==> two_kinds(events),
        kind_count(events) >= 3 <==> three_kinds(events),
{
    let kinds = events.map_values(|e: EventView| e.kind);
    let all = kinds.to_set();
    kinds.lemma_cardinality_of_set();
    assert(all.finite());
    assert forall|i: int| 0 <= i < events.len() implies all.contains(
        (#[trigger] events[i]).kind,
    ) by {
        assert(kinds[i] == events[i].kind);
        assert(kinds.contains(kinds[i]));
    }
    if two_kinds(events) {
        let (i, j) = choose|i: int, j: int|
            0 <= i < events.len() && 0 <= j < events.len() && (#[trigger] events[i]).kind != (
            #[trigger] events[j]).kind;
        assert(all.remove(events[i].kind).contains(events[j].kind));
        assert(all.remove(events[i].kind).len() >= 1);
    }
    if three_kinds(events) {
        let (i, j, k) = choose|i: int, j: int, k: int|
            0 <= i < events.len() && 0 <= j < events.len() && 0 <= k < events.len() && (
            #[trigger] events[i]).kind != (#[trigger] events[j]).kind && events[i].kind != (
            #[trigger] events[k]).kind && events[j].kind != events[k].kind;
        let less = all.remove(events[i].kind);
        assert(less.contains(events[j].kind));
        assert(less.remove(events[j].kind).contains(events[k].kind));
        assert(less.remove(events[j].kind).len() >= 1);
    }
    if all.len() >= 2 {
        let a = all.choose();
        let b = all.remove(a).choose();
        assert(all.contains(a) && all.contains(b) && a != b);
        let i = kinds.index_of(a);
        let j = kinds.index_of(b);
        assert(kinds.contains(a) && kinds.contains(b));
        assert(events[i].kind == a && events[j].kind == b);
    }
    if all.len() >= 3 {
        let a = all.choose();
        let b = all.remove(a).choose();
        let c = all.remove(a).remove(b).choose();
        assert(all.contains(a) && all.contains(b) && all.contains(c));
        assert(kinds.contains(a) && kinds.contains(b) && kinds.contains(c));
        let i = kinds.index_of(a);
        let j = kinds.index_of(b);
        let k = kinds.index_of(c);
        assert(events[i].kind == a && events[j].kind == b && events[k].kind == c);
        assert(three_kinds(events));
    }
}

/// A strict chain is intervened upon at every level, whatever else is known.
pub proof fn law_strict_chain_intervenes(e: EvidenceView, level: FusionResponseLevel)
    requires
        e.sequences.len() > 0,
    ensures
        intervenes(decision(e, level)),
{
}

/// A tolerant chain is intervened upon where the behaviour score reaches the mark, or where
/// there are two chains and an action, three kinds of events or half a behaviour score backs
/// them; otherwise it is suspicious.
pub proof fn law_tolerant_chain_is_weighed(e: EvidenceView, level: FusionResponseLevel)
    requires
        driver_is_silent(e),
        e.sequences.len() == 0,
        e.tolerant.len() > 0,
    ensures
        ({
            let score = match e.behavior {
                Some(b) => b.score.units,
                None => 0u128,
            };
            let action = e.flags.contains("files_changed"@) || e.flags.contains(
                "network_activity"@,
            ) || e.flags.contains("registry_activity"@) || e.flags.contains("api_activity"@)
                || e.flags.contains("unpacked"@);
            if score >= mark_of(level).units || (e.tolerant.len() >= 2 && (action || three_kinds(
                e.events,
            ) || score >= Score::of_hundredths(50).units)) {
                intervenes(decision(e, level))
            } else {
                decision(e, level) is Suspicious
            }
        }),
{
    lemma_driver_silent(e.alerts, 0);
    lemma_kinds(e.events);
    lemma_marks();
    let action = e.flags.contains("files_changed"@) || e.flags.contains("network_activity"@)
        || e.flags.contains("registry_activity"@) || e.flags.contains("api_activity"@)
        || e.flags.contains("unpacked"@);
    assert(has_action_flag(e.flags) == action) by {
        if has_action_flag(e.flags) {
            let i = choose|i: int| 0 <= i < e.flags.len() && is_action_flag(#[trigger] e.flags[i]);
            assert(e.flags.contains(e.flags[i]));
        }
        if action {
            let flag = if e.flags.contains("files_changed"@) {
                "files_changed"@
            } else if e.flags.contains("network_activity"@) {
                "network_activity"@
            } else if e.flags.contains("registry_activity"@) {
                "registry_activity"@
            } else if e.flags.contains("api_activity"@) {
                "api_activity"@
            } else {
                "unpacked"@
            };
            let i = e.flags.index_of(flag);
            assert(is_action_flag(e.flags[i]));
        }
    }
}

/// Behaviour from the mark on is intervened upon at the aggressive level, from 0.85 on, or
/// where two kinds of events or two indicators back it; otherwise it is suspicious.
pub proof fn law_behavior_from_the_mark_decides(
    e: EvidenceView,
    level: FusionResponseLevel,
    b: ScoreResultView,
)
    requires
        without_chains(e),
        e.behavior == Some(b),
        b.score.units >= mark_of(level).units,
    ensures
        if level == FusionResponseLevel::Aggressive || b.score.units >= Score::of_hundredths(
            85,
        ).units || two_kinds(e.events) || b.matched_indicators.len() >= 2 {
            intervenes(decision(e, level))
        } else {
            decision(e, level) is Suspicious
        },
{
    lemma_driver_silent(e.alerts, 0);
    lemma_kinds(e.events);
    lemma_marks();
}

/// Where neither the driver, a chain nor behaviour decides, a static score of 0.96 or more is
/// intervened upon at every level, whatever the other static score is.
pub proof fn law_near_certain_static_score_intervenes(
    e: EvidenceView,
    level: FusionResponseLevel,
    heuristic: Score,
    ai: Score,
)
    requires
        only_static(e, level),
        e.heuristic == Some(heuristic),
        e.ai == Some(ai),
        stronger(heuristic, ai).units >= Score::of_hundredths(96).units,
    ensures
        intervenes(decision(e, level)),
{
    lemma_driver_silent(e.alerts, 0);
    lemma_marks();
}

/// A static score that is high for the level but below 0.96 is suspicious, whatever the other
/// static score is.
pub proof fn law_high_static_score_is_suspicious(
    e: EvidenceView,
    level: FusionResponseLevel,
    heuristic: Score,
    ai: Score,
)
    requires
        only_static(e, level),
        e.heuristic == Some(heuristic),
        e.ai == Some(ai),
        high_mark_of(level).units <= stronger(heuristic, ai).units < Score::of_hundredths(
            96,
        ).units,
    ensures
        decision(e, level) is Suspicious,
{
    lemma_driver_silent(e.alerts, 0);
    lemma_marks();
}

/// Two static scores below the high mark count where the stronger reaches the mark and the
/// weaker seven tenths of it. They are intervened upon where the stronger reaches 0.85 and
/// four parts of the heuristic score with six of the other reach 0.75; otherwise they are
/// suspicious.
pub proof fn law_moderate_static_scores_back_each_other(
    e: EvidenceView,
    level: FusionResponseLevel,
    heuristic: Score,
    ai: Score,
)
    requires
        only_static(e, level),
        e.heuristic == Some(heuristic),
        e.ai == Some(ai),
        mark_of(level).units <= stronger(heuristic, ai).units < high_mark_of(level).units,
        weaker(heuristic, ai).units >= mark_of(level).product(Score::of_hundredths(70)).units,
    ensures
        if stronger(heuristic, ai).units >= Score::of_hundredths(85).units && heuristic.product(
            Score::of_hundredths(40),
        ).sum(ai.product(Score::of_hundredths(60))).units >= Score::of_hundredths(75).units {
            intervenes(decision(e, level))
        } else {
            decision(e, level) is Suspicious
        },
{
    lemma_driver_silent(e.alerts, 0);
    lemma_marks();
}

/// Where no stronger evidence decides, sandbox flags are malicious at the aggressive level and
/// at no other, and nothing is rolled back for them.
pub proof fn law_flags_decide_only_aggressively(e: EvidenceView, level: FusionResponseLevel)
    requires
        only_static(e, level),
        static_is_weak(e, level),
        e.flags.len() > 0,
    ensures
        level == FusionResponseLevel::Aggressive ==> (decision(e, level) matches
            DecisionView::Malicious { rollback, .. } && !rollback),
        level != FusionResponseLevel::Aggressive && e.alerts.len() == 0 ==> decision(e, level)
            is Clean,
{
    lemma_driver_silent(e.alerts, 0);
    lemma_marks();
}

proof fn lemma_distinct_holds(items: Seq<Seq<char>>, text: Seq<char>)
    ensures
        distinct(items).contains(text) == items.contains(text),
    decreases items.len(),
{
    if items.len() > 0 {
        let front = items.drop_last();
        let before = distinct(front);
        lemma_distinct_holds(front, text);
        lemma_distinct_holds(front, items.last());
        assert(items =~= front.push(items.last()));
        vstd::seq_lib::lemma_seq_contains_after_push(front, items.last(), text);
        vstd::seq_lib::lemma_seq_contains_after_push(before, items.last(), text);
    }
}

proof fn lemma_distinct_apart(items: Seq<Seq<char>>)
    ensures
        distinct(items).no_duplicates(),
    decreases items.len(),
{
    if items.len() > 0 {
        lemma_distinct_apart(items.drop_last());
    }
}

/// Two alerts are of different families.
pub open spec fn two_families(alerts: Seq<Seq<char>>) -> bool {
    exists|i: int, j: int|
        0 <= i < alerts.len() && 0 <= j < alerts.len() && alert_family(#[trigger] alerts[i])
            != alert_family(#[trigger] alerts[j])
}

proof fn lemma_family_of(alerts: Seq<Seq<char>>, k: int) -> (i: int)
    requires
        0 <= k < families(alerts).len(),
    ensures
        0 <= i < alerts.len(),
        alert_family(alerts[i]) == families(alerts)[k],
{
    let kept = distinct(alerts);
    let named = kept.map_values(|a: Seq<char>| alert_family(a));
    let found = families(alerts);
    assert(found.contains(found[k]));
    lemma_distinct_holds(named, found[k]);
    let m = named.index_of(found[k]);
    assert(kept.contains(kept[m]));
    lemma_distinct_holds(alerts, kept[m]);
    alerts.index_of(kept[m])
}

proof fn lemma_families(alerts: Seq<Seq<char>>)
    requires
        alerts.len() > 0,
    ensures
        families(alerts).len() >= 2 <==> two_families(alerts),
{
    let kept = distinct(alerts);
    let named = kept.map_values(|a: Seq<char>| alert_family(a));
    let found = families(alerts);
    lemma_distinct_apart(named);
    assert forall|i: int| 0 <= i < alerts.len() implies found.contains(
        alert_family(#[trigger] alerts[i]),
    ) by {
        assert(alerts.contains(alerts[i]));
        lemma_distinct_holds(alerts, alerts[i]);
        let k = kept.index_of(alerts[i]);
        assert(named[k] == alert_family(alerts[i]));
        assert(named.contains(named[k]));
        lemma_distinct_holds(named, named[k]);
    }
    if two_families(alerts) {
        let (i, j) = choose|i: int, j: int|
            0 <= i < alerts.len() && 0 <= j < alerts.len() && alert_family(#[trigger] alerts[i])
                != alert_family(#[trigger] alerts[j]);
        let a = found.index_of(alert_family(alerts[i]));
        let b = found.index_of(alert_family(alerts[j]));
        assert(a != b);
    }
    if found.len() >= 2 {
        assert(found[0] != found[1]);
        let i = lemma_family_of(alerts, 0);
        let j = lemma_family_of(alerts, 1);
        assert(alert_family(alerts[i]) != alert_family(alerts[j]));
    }
}

/// Where only alerts are left, two of different families are intervened upon unless the level
/// is relaxed; otherwise alerts are suspicious.
pub proof fn law_alerts_need_two_families(e: EvidenceView, level: FusionResponseLevel)
    requires
        only_static(e, level),
        static_is_weak(e, level),
        e.flags.len() == 0 || level != FusionResponseLevel::Aggressive,
        e.alerts.len() > 0,
    ensures
        if two_families(e.alerts) && level != FusionResponseLevel::Relaxed {
            intervenes(decision(e, level))
        } else {
            decision(e, level) is Suspicious
        },
{
    lemma_driver_silent(e.alerts, 0);
    lemma_marks();
    lemma_families(e.alerts);
}

/// Where there is no evidence that counts, the decision is clean.
pub proof fn law_no_evidence_is_clean(e: EvidenceView, level: FusionResponseLevel)
    requires
        e.alerts.len() == 0,
        e.sequences.len() == 0,
        e.tolerant.len() == 0,
        behavior_is_calm(e, level),
        static_is_weak(e, level),
        e.flags.len() == 0 || level != FusionResponseLevel::Aggressive,
    ensures
        decision(e, level) is Clean,
{
    lemma_driver_silent(e.alerts, 0);
    lemma_marks();
}

proof fn lemma_joined_holds(items: Seq<Seq<char>>, separator: Seq<char>, k: int)
    requires
        0 <= k < items.len(),
    ensures
        contains_text(joined(items, separator), items[k]),
    decreases items.len(),
{
    let none = Seq::<char>::empty();
    if items.len() == 1 {
        law_text_is_found_inside(none, items[0], none);
        assert(none + items[0] + none =~= items[0]);
    } else if k == items.len() - 1 {
        let front = joined(items.drop_last(), separator) + separator;
        law_text_is_found_inside(front, items.last(), none);
        assert(front + items.last() + none =~= joined(items, separator));
    } else {
        let front = joined(items.drop_last(), separator);
        lemma_joined_holds(items.drop_last(), separator, k);
        assert(items.drop_last()[k] == items[k]);
        law_more_text_hides_nothing(none, front, separator + items.last(), items[k]);
        assert(none + front + (separator + items.last()) =~= joined(items, separator));
    }
}

proof fn lemma_behind(front: Seq<char>, text: Seq<char>, needle: Seq<char>)
    requires
        contains_text(text, needle),
    ensures
        contains_text(front + text, needle),
{
    let none = Seq::<char>::empty();
    law_more_text_hides_nothing(front, text, none, needle);
    assert(front + text + none =~= front + text);
}

/// The reason for intervening upon strict chains names each of them.
pub proof fn law_reason_names_the_strict_chains(
    e: EvidenceView,
    level: FusionResponseLevel,
    k: int,
)
    requires
        driver_is_silent(e),
        0 <= k < e.sequences.len(),
    ensures
        decision(e, level) matches DecisionView::Malicious { reason, .. } && reason.len() == 1
            && reason[0] is Text && contains_text(reason[0]->Text_0, e.sequences[k]),
{
    lemma_driver_silent(e.alerts, 0);
    lemma_joined_holds(e.sequences, ","@, k);
    lemma_behind(":"@, joined(e.sequences, ","@), e.sequences[k]);
    lemma_behind(
        "fusion:kaspersky_sequence:stage="@ + stage_label(FusionStage::Intervene),
        ":"@ + joined(e.sequences, ","@),
        e.sequences[k],
    );
}

/// The reason drawn from tolerant chains names each of them, and gives the behaviour score.
pub proof fn law_reason_names_the_tolerant_chains(
    e: EvidenceView,
    level: FusionResponseLevel,
    k: int,
)
    requires
        driver_is_silent(e),
        e.sequences.len() == 0,
        0 <= k < e.tolerant.len(),
    ensures
        ({
            let reason = match decision(e, level) {
                DecisionView::Malicious { reason, .. } => reason,
                DecisionView::Suspicious { reason } => reason,
                DecisionView::Clean => Seq::empty(),
            };
            &&& reason.len() == 3
            &&& reason[1] == PartView::Score(
                match e.behavior {
                    Some(b) => b.score,
                    None => Score { units: 0 },
                },
            )
            &&& reason[2] is Text
            &&& contains_text(reason[2]->Text_0, e.tolerant[k])
        }),
{
    lemma_driver_silent(e.alerts, 0);
    lemma_joined_holds(e.tolerant, ","@, k);
    lemma_behind(":"@, joined(e.tolerant, ","@), e.tolerant[k]);
}

/// The reason drawn from alerts names each of them.
pub proof fn law_reason_names_the_alerts(e: EvidenceView, level: FusionResponseLevel, k: int)
    requires
        only_static(e, level),
        static_is_weak(e, level),
        e.flags.len() == 0 || level != FusionResponseLevel::Aggressive,
        0 <= k < e.alerts.len(),
    ensures
        ({
            let reason = match decision(e, level) {
                DecisionView::Malicious { reason, .. } => reason,
                DecisionView::Suspicious { reason } => reason,
                DecisionView::Clean => Seq::empty(),
            };
            &&& reason.len() == 1
            &&& reason[0] is Text
            &&& contains_text(reason[0]->Text_0, e.alerts[k])
        }),
{
    lemma_driver_silent(e.alerts, 0);
    lemma_marks();
    let kept = distinct(e.alerts);
    lemma_distinct_holds(e.alerts, e.alerts[k]);
    assert(e.alerts.contains(e.alerts[k]));
    let i = kept.index_of(e.alerts[k]);
    lemma_joined_holds(kept, "|"@, i);
    let count = families(e.alerts).len();
    let stage = if count >= 2 && level != FusionResponseLevel::Relaxed {
        FusionStage::Intervene
    } else {
        FusionStage::Correlate
    };
    lemma_behind(
        "fusion:hips:stage="@ + stage_label(stage) + (":evidence="@ + decimal(count) + ":"@),
        joined(kept, "|"@),
        e.alerts[k],
    );
}

/// Alerts that speak of one thing are of one family, in whatever case they are written.
pub proof fn law_alerts_on_one_thing_are_one_family(a: Seq<char>, b: Seq<char>)
    requires
        forall|text: Seq<char>| #[trigger]
            contains_text(lowered(a), text) ==> contains_text(lowered(b), text),
        forall|text: Seq<char>| #[trigger]
            contains_text(lowered(b), text) ==> contains_text(lowered(a), text),
        speaks_of_a_known_thing(a),
    ensures
        alert_family(a) == alert_family(b),
{
}

/// The alert speaks of one of the things that families are known for.
pub open spec fn speaks_of_a_known_thing(alert: Seq<char>) -> bool {
    let a = lowered(alert);
    ||| contains_text(a, "module baseline violation"@)
    ||| contains_text(a, "dll"@) && contains_text(a, "load"@)
    ||| contains_text(a, "rwx region"@)
    ||| contains_text(a, "high-entropy private executable memory"@)
    ||| contains_text(a, "apc injection"@)
    ||| contains_text(a, "poolparty"@)
    ||| contains_text(a, "thread-pool injection"@)
    ||| contains_text(a, "reflective pe"@)
    ||| contains_text(a, "ppl process"@)
    ||| contains_text(a, "api patch"@)
    ||| contains_text(a, "thread stack"@)
    ||| contains_text(a, "process inject"@)
    ||| contains_text(a, "cookie"@) && contains_text(a, "suspected"@)
}

/// Each thing has its family.
pub proof fn law_things_have_their_families(alert: Seq<char>)
    ensures
        ({
            let a = lowered(alert);
            let baseline = contains_text(a, "module baseline violation"@);
            let origin = contains_text(a, "dll"@) && (contains_text(a, "load"@) || contains_text(
                a,
                "side-load"@,
            ));
            let memory = contains_text(a, "rwx region"@) || contains_text(
                a,
                "high-entropy private executable memory"@,
            );
            let apc = contains_text(a, "apc injection"@);
            let pool = contains_text(a, "poolparty"@) || contains_text(a, "thread-pool injection"@);
            let reflective = contains_text(a, "reflective pe"@);
            &&& baseline ==> alert_family(alert) == "module_baseline"@
            &&& origin && !baseline ==> alert_family(alert) == "module_origin"@
            &&& memory && !origin && !baseline ==> alert_family(alert) == "memory_execution"@
            &&& apc && !memory && !origin && !baseline ==> alert_family(alert) == "apc_injection"@
            &&& pool && !apc && !memory && !origin && !baseline ==> alert_family(alert)
                == "threadpool_injection"@
            &&& reflective && !pool && !apc && !memory && !origin && !baseline ==> alert_family(
                alert,
            ) == "reflective_pe"@
        }),
{
}

} // verus!
