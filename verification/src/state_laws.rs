//! What events must do to processes, and what undoing a run must cover.

use crate::behavior::{
    events_of, level_threshold, processes_of, table_weight, BehaviorEventKind, EventView,
    SecurityLevel,
};
use crate::monotone::lemma_ratio_monotone;
use crate::process_state::{next_state, ProcessState};
use crate::rollback::{attempt_report, planned_actions, ActionOutcome, ActionView};
use crate::score::{is_power_of_two, lemma_ratio_capped, Score};
use vstd::prelude::*;

verus! {

/// Injection, suspicious calls, credential access, tampering with services, deletion of backups
/// and encryption block a process, whatever was known of it.
pub proof fn law_malicious_behaviour_blocks(previous: ProcessState)
    ensures
        next_state(previous, BehaviorEventKind::ProcessInject) == ProcessState::Blocked,
        next_state(previous, BehaviorEventKind::SuspiciousApiCall) == ProcessState::Blocked,
        next_state(previous, BehaviorEventKind::CredentialAccess) == ProcessState::Blocked,
        next_state(previous, BehaviorEventKind::ServiceTampering) == ProcessState::Blocked,
        next_state(previous, BehaviorEventKind::BackupDeletion) == ProcessState::Blocked,
        next_state(previous, BehaviorEventKind::RansomwareEncryption) == ProcessState::Blocked,
{
}

/// A suspected process is blocked by what is harmless in others: changes of the registry, of
/// persistence, of modules, of files and connections.
pub proof fn law_suspicion_is_confirmed()
    ensures
        next_state(ProcessState::Suspicious, BehaviorEventKind::RegistryWrite)
            == ProcessState::Blocked,
        next_state(ProcessState::Suspicious, BehaviorEventKind::PersistenceChange)
            == ProcessState::Blocked,
        next_state(ProcessState::Suspicious, BehaviorEventKind::SuspiciousPersistence)
            == ProcessState::Blocked,
        next_state(ProcessState::Suspicious, BehaviorEventKind::SuspiciousModuleLoad)
            == ProcessState::Blocked,
        next_state(ProcessState::Suspicious, BehaviorEventKind::NetworkConnect)
            == ProcessState::Blocked,
        next_state(ProcessState::Suspicious, BehaviorEventKind::FileWrite)
            == ProcessState::Blocked,
{
}

/// Other processes are monitored on connections, look-ups and file changes, and instrumented
/// on changes of the registry, of persistence and of modules.
pub proof fn law_ordinary_behaviour_is_watched(previous: ProcessState)
    requires
        previous != ProcessState::Suspicious,
    ensures
        next_state(previous, BehaviorEventKind::NetworkConnect) == ProcessState::Monitored,
        next_state(previous, BehaviorEventKind::FileWrite) == ProcessState::Monitored,
        next_state(previous, BehaviorEventKind::DnsQuery) == ProcessState::Monitored,
        next_state(previous, BehaviorEventKind::RegistryWrite) == ProcessState::Instrumented,
        next_state(previous, BehaviorEventKind::PersistenceChange) == ProcessState::Instrumented,
        next_state(previous, BehaviorEventKind::SuspiciousPersistence)
            == ProcessState::Instrumented,
        next_state(previous, BehaviorEventKind::SuspiciousModuleLoad)
            == ProcessState::Instrumented,
{
}

/// A process that is created is monitored where nothing was known of it and blocked where it
/// was malicious; otherwise its state stays.
pub proof fn law_creation_starts_monitoring(previous: ProcessState)
    ensures
        next_state(ProcessState::Observed, BehaviorEventKind::ProcessCreate)
            == ProcessState::Monitored,
        next_state(ProcessState::Malicious, BehaviorEventKind::ProcessCreate)
            == ProcessState::Blocked,
        previous != ProcessState::Observed && previous != ProcessState::Malicious ==> next_state(
            previous,
            BehaviorEventKind::ProcessCreate,
        ) == previous,
{
}

/// The events of a process are its own, and those of two stretches follow each other.
pub proof fn law_events_are_told_apart(
    first: Seq<EventView>,
    second: Seq<EventView>,
    process: Option<u32>,
)
    ensures
        events_of(first + second, process) == events_of(first, process) + events_of(
            second,
            process,
        ),
        forall|i: int|
            0 <= i < events_of(first, process).len() ==> (#[trigger] events_of(
                first,
                process,
            )[i]).process_id == process,
        (forall|i: int|
            0 <= i < first.len() ==> (#[trigger] first[i]).process_id == process) ==> events_of(
            first,
            process,
        ) == first,
        (forall|i: int|
            0 <= i < first.len() ==> (#[trigger] first[i]).process_id != process) ==> events_of(
            first,
            process,
        ).len() == 0,
{
    lemma_events_joined(first, second, process);
    lemma_events_own(first, process);
    if forall|i: int| 0 <= i < first.len() ==> (#[trigger] first[i]).process_id == process {
        lemma_events_whole(first, process);
    }
    if forall|i: int| 0 <= i < first.len() ==> (#[trigger] first[i]).process_id != process {
        lemma_events_none(first, process);
    }
}

proof fn lemma_events_joined(first: Seq<EventView>, second: Seq<EventView>, process: Option<u32>)
    ensures
        events_of(first + second, process) == events_of(first, process) + events_of(
            second,
            process,
        ),
    decreases second.len(),
{
    if second.len() == 0 {
        assert(first + second =~= first);
    } else {
        lemma_events_joined(first, second.drop_last(), process);
        assert((first + second).drop_last() =~= first + second.drop_last());
        assert((first + second).last() == second.last());
    }
    assert(events_of(first + second, process) =~= events_of(first, process) + events_of(
        second,
        process,
    ));
}

proof fn lemma_events_own(events: Seq<EventView>, process: Option<u32>)
    ensures
        forall|i: int|
            0 <= i < events_of(events, process).len() ==> (#[trigger] events_of(
                events,
                process,
            )[i]).process_id == process,
    decreases events.len(),
{
    if events.len() > 0 {
        lemma_events_own(events.drop_last(), process);
    }
}

proof fn lemma_events_whole(events: Seq<EventView>, process: Option<u32>)
    requires
        forall|i: int| 0 <= i < events.len() ==> (#[trigger] events[i]).process_id == process,
    ensures
        events_of(events, process) == events,
    decreases events.len(),
{
    if events.len() > 0 {
        lemma_events_whole(events.drop_last(), process);
        assert(events[events.len() - 1].process_id == process);
        assert(events.drop_last().push(events.last()) =~= events);
    } else {
        assert(events =~= Seq::empty());
    }
}

proof fn lemma_events_none(events: Seq<EventView>, process: Option<u32>)
    requires
        forall|i: int| 0 <= i < events.len() ==> (#[trigger] events[i]).process_id != process,
    ensures
        events_of(events, process).len() == 0,
    decreases events.len(),
{
    if events.len() > 0 {
        lemma_events_none(events.drop_last(), process);
        assert(events[events.len() - 1].process_id != process);
    }
}

/// A process is listed exactly where one of the events is its own.
pub proof fn law_processes_are_listed(events: Seq<EventView>, process: Option<u32>)
    ensures
        processes_of(events).contains(process) <==> exists|i: int|
            0 <= i < events.len() && (#[trigger] events[i]).process_id == process,
    decreases events.len(),
{
    if events.len() > 0 {
        let front = events.drop_last();
        let before = processes_of(front);
        law_processes_are_listed(front, process);
        law_processes_are_listed(front, events.last().process_id);
        vstd::seq_lib::lemma_seq_contains_after_push(before, events.last().process_id, process);
        if exists|i: int| 0 <= i < front.len() && (#[trigger] front[i]).process_id == process {
            let i = choose|i: int|
                0 <= i < front.len() && (#[trigger] front[i]).process_id == process;
            assert(events[i].process_id == process);
        }
        if events.last().process_id == process {
            assert(events[events.len() - 1].process_id == process);
        }
        if exists|i: int| 0 <= i < events.len() && (#[trigger] events[i]).process_id == process {
            let i = choose|i: int|
                0 <= i < events.len() && (#[trigger] events[i]).process_id == process;
            if i < front.len() {
                assert(front[i].process_id == process);
            } else {
                assert(events.last().process_id == process);
            }
        }
    }
}

/// The stricter the level, the lower the score that it calls malicious.
pub proof fn law_stricter_levels_have_lower_thresholds()
    ensures
        level_threshold(SecurityLevel::Aggressive).units <= level_threshold(
            SecurityLevel::Normal,
        ).units,
        level_threshold(SecurityLevel::Normal).units <= level_threshold(
            SecurityLevel::Relaxed,
        ).units,
{
    reveal_with_fuel(is_power_of_two, 2);
    lemma_ratio_capped(55, 100, 1);
    lemma_ratio_capped(70, 100, 1);
    lemma_ratio_capped(85, 100, 1);
    lemma_ratio_monotone(55, 70, 100);
    lemma_ratio_monotone(70, 85, 100);
}

/// The last entry of a table for a kind counts; a kind without an entry has no weight.
pub proof fn law_last_weight_counts(
    table: Seq<(BehaviorEventKind, Score)>,
    kind: BehaviorEventKind,
    weight: Score,
    other: (BehaviorEventKind, Score),
)
    ensures
        table_weight(table.push((kind, weight)), kind) == Some(weight),
        other.0 != kind ==> table_weight(table.push(other), kind) == table_weight(table, kind),
        table_weight(Seq::empty(), kind) is None,
{
    assert(table.push((kind, weight)).last() == (kind, weight));
    assert(table.push(other).last() == other);
    assert(table.push(other).drop_last() =~= table);
}

/// Every changed file and key is undone, the program is ended where that is asked for, and
/// nothing else is done.
pub proof fn law_every_change_is_undone(
    files: Seq<Seq<char>>,
    keys: Seq<Seq<char>>,
    pid: Option<u32>,
    kill: bool,
    action: ActionView,
)
    ensures
        planned_actions(files, keys, pid, kill).contains(action) <==> match action {
            ActionView::DeleteFile(path) => files.contains(path),
            ActionView::DeleteRegistryKey(key) => keys.contains(key),
            ActionView::KillProcess(p) => kill && pid == Some(p),
            ActionView::RestoreFile { .. } => false,
        },
        planned_actions(files, keys, pid, kill).len() == files.len() + keys.len() + if kill
            && pid is Some {
            1int
        } else {
            0int
        },
{
    let plan = planned_actions(files, keys, pid, kill);
    let f = files.len() as int;
    let k = keys.len() as int;
    assert forall|i: int| 0 <= i < f implies #[trigger] plan[i] == ActionView::DeleteFile(
        files[i],
    ) by {}
    assert forall|i: int| f <= i < f + k implies #[trigger] plan[i]
        == ActionView::DeleteRegistryKey(keys[i - f]) by {}
    match action {
        ActionView::DeleteFile(path) => {
            if files.contains(path) {
                let i = files.index_of(path);
                assert(plan[i] == action);
            }
            if plan.contains(action) {
                let i = plan.index_of(action);
                assert(files[i] == path);
            }
        },
        ActionView::DeleteRegistryKey(key) => {
            if keys.contains(key) {
                let i = keys.index_of(key);
                assert(plan[f + i] == action);
            }
            if plan.contains(action) {
                let i = plan.index_of(action);
                assert(keys[i - f] == key);
            }
        },
        ActionView::KillProcess(p) => {
            if kill && pid == Some(p) {
                assert(plan[f + k] == action);
            }
            if plan.contains(action) {
                let i = plan.index_of(action);
                assert(i == f + k);
            }
        },
        _ => {
            if plan.contains(action) {
                let i = plan.index_of(action);
                assert(plan[i] == action);
            }
        },
    }
}

/// An action that failed is told as failed, for the reason it gave.
pub proof fn law_failed_actions_are_told(action: ActionView, reason: String)
    ensures
        attempt_report(action, ActionOutcome::Failed(reason)) == Err::<Seq<char>, Seq<char>>(
            reason@,
        ),
{
}

/// A file that is gone already needs no deletion, a backup that is gone cannot be restored, and
/// what the platform cannot do has failed.
pub proof fn law_missing_things_are_told(path: Seq<char>, backup: Seq<char>, key: Seq<char>, p: u32)
    ensures
        attempt_report(ActionView::DeleteFile(path), ActionOutcome::Missing) is Ok,
        attempt_report(
            ActionView::RestoreFile { path, backup_path: backup },
            ActionOutcome::Missing,
        ) is Err,
        attempt_report(ActionView::DeleteRegistryKey(key), ActionOutcome::Unsupported) is Err,
        attempt_report(ActionView::KillProcess(p), ActionOutcome::Unsupported) is Err,
{
}

} // verus!
