//! The protection state of each process, driven by its behaviour.

use crate::behavior::BehaviorEventKind;
use crate::clock::now_millis;
use crate::text::concat2;
use std::collections::HashMap;
use vstd::prelude::*;
use vstd::std_specs::hash::group_hash_axioms;

verus! {

broadcast use group_hash_axioms;

#[derive(Debug, Clone, Copy, PartialEq, Eq, Structural)]
pub enum ProcessState {
    Observed,
    Monitored,
    Suspicious,
    Instrumented,
    Malicious,
    Blocked,
}

pub open spec fn state_label(state: ProcessState) -> Seq<char> {
    match state {
        ProcessState::Observed => "observed"@,
        ProcessState::Monitored => "monitored"@,
        ProcessState::Suspicious => "suspicious"@,
        ProcessState::Instrumented => "instrumented"@,
        ProcessState::Malicious => "malicious"@,
        ProcessState::Blocked => "blocked"@,
    }
}

impl ProcessState {
    /// The lower-case label of the state.
    pub fn label(&self) -> (label: &'static str)
        ensures
            label@ == state_label(*self),
    {
        match self {
            ProcessState::Observed => "observed",
            ProcessState::Monitored => "monitored",
            ProcessState::Suspicious => "suspicious",
            ProcessState::Instrumented => "instrumented",
            ProcessState::Malicious => "malicious",
            ProcessState::Blocked => "blocked",
        }
    }
}

#[derive(Debug)]
pub struct ProcessStateTransition {
    pub pid: u32,
    pub previous: ProcessState,
    pub current: ProcessState,
    pub reason: String,
    pub timestamp_ms: u128,
}

pub struct TransitionView {
    pub pid: u32,
    pub previous: ProcessState,
    pub current: ProcessState,
    pub reason: Seq<char>,
    pub timestamp_ms: u128,
}

impl View for ProcessStateTransition {
    type V = TransitionView;

    open spec fn view(&self) -> TransitionView {
        TransitionView {
            pid: self.pid,
            previous: self.previous,
            current: self.current,
            reason: self.reason@,
            timestamp_ms: self.timestamp_ms,
        }
    }
}

pub open spec fn transition_views(transitions: Seq<ProcessStateTransition>) -> Seq<TransitionView> {
    transitions.map_values(|t: ProcessStateTransition| t@)
}

/// The state of every process seen so far, and how it got there.
#[derive(Default)]
pub struct ProcessStateMachine {
    pub states: HashMap<u32, ProcessState>,
    pub history: HashMap<u32, Vec<ProcessStateTransition>>,
}

/// Kinds of behaviour that are malicious by themselves.
pub open spec fn is_decisive(kind: BehaviorEventKind) -> bool {
    match kind {
        BehaviorEventKind::SuspiciousApiCall
        | BehaviorEventKind::ProcessInject
        | BehaviorEventKind::CredentialAccess
        | BehaviorEventKind::ServiceTampering
        | BehaviorEventKind::BackupDeletion
        | BehaviorEventKind::RansomwareEncryption => true,
        _ => false,
    }
}

/// Kinds of behaviour that turn suspicion into certainty.
pub open spec fn is_confirming(kind: BehaviorEventKind) -> bool {
    match kind {
        BehaviorEventKind::RegistryWrite
        | BehaviorEventKind::PersistenceChange
        | BehaviorEventKind::SuspiciousPersistence
        | BehaviorEventKind::SuspiciousModuleLoad
        | BehaviorEventKind::NetworkConnect
        | BehaviorEventKind::FileWrite => true,
        _ => false,
    }
}

/// The state that an event leads to. Malicious processes are blocked at once.
pub open spec fn next_state(previous: ProcessState, kind: BehaviorEventKind) -> ProcessState {
    if is_decisive(kind) || (is_confirming(kind) && previous == ProcessState::Suspicious) {
        ProcessState::Blocked
    } else {
        match kind {
            BehaviorEventKind::ProcessCreate => if previous == ProcessState::Observed {
                ProcessState::Monitored
            } else if previous == ProcessState::Malicious {
                ProcessState::Blocked
            } else {
                previous
            },
            BehaviorEventKind::NetworkConnect
            | BehaviorEventKind::FileWrite
            | BehaviorEventKind::DnsQuery => ProcessState::Monitored,
            _ => ProcessState::Instrumented,
        }
    }
}

/// Why the state is what it is.
pub open spec fn transition_reason(
    previous: ProcessState,
    kind: BehaviorEventKind,
    detail: Seq<char>,
) -> Seq<char> {
    let suspected = previous == ProcessState::Suspicious;
    match kind {
        BehaviorEventKind::ProcessCreate => if previous == ProcessState::Observed {
            "process created"@
        } else {
            "process created while already tracked"@
        },
        BehaviorEventKind::SuspiciousApiCall | BehaviorEventKind::ProcessInject =>
            "suspicious API: "@ + detail,
        BehaviorEventKind::RegistryWrite
        | BehaviorEventKind::PersistenceChange
        | BehaviorEventKind::SuspiciousPersistence
        | BehaviorEventKind::SuspiciousModuleLoad => if suspected {
            "persistence activity after suspicious behavior: "@ + detail
        } else {
            "persistence activity: "@ + detail
        },
        BehaviorEventKind::NetworkConnect => if suspected {
            "network contact after suspicious behavior: "@ + detail
        } else {
            "network connection: "@ + detail
        },
        BehaviorEventKind::FileWrite => if suspected {
            "file write after suspicious behavior: "@ + detail
        } else {
            "file write: "@ + detail
        },
        BehaviorEventKind::DnsQuery => "dns query: "@ + detail,
        BehaviorEventKind::CredentialAccess
        | BehaviorEventKind::ServiceTampering
        | BehaviorEventKind::BackupDeletion
        | BehaviorEventKind::RansomwareEncryption => "high-confidence malicious behavior: "@
            + detail,
    }
}

/// The state and the reason that an event leads to.
fn step(previous: ProcessState, kind: BehaviorEventKind, detail: &str) -> (r: (
    ProcessState,
    String,
))
    ensures
        r.0 == next_state(previous, kind),
        r.1@ == transition_reason(previous, kind, detail@),
{
    let suspected = previous == ProcessState::Suspicious;
    let (current, reason) = match kind {
        BehaviorEventKind::ProcessCreate => if previous == ProcessState::Observed {
            (ProcessState::Monitored, "process created".to_owned())
        } else {
            (previous, "process created while already tracked".to_owned())
        },
        BehaviorEventKind::SuspiciousApiCall | BehaviorEventKind::ProcessInject => (
            ProcessState::Malicious,
            concat2("suspicious API: ", detail),
        ),
        BehaviorEventKind::RegistryWrite
        | BehaviorEventKind::PersistenceChange
        | BehaviorEventKind::SuspiciousPersistence
        | BehaviorEventKind::SuspiciousModuleLoad => if suspected {
            (
                ProcessState::Malicious,
                concat2("persistence activity after suspicious behavior: ", detail),
            )
        } else {
            (ProcessState::Instrumented, concat2("persistence activity: ", detail))
        },
        BehaviorEventKind::NetworkConnect => if suspected {
            (
                ProcessState::Malicious,
                concat2("network contact after suspicious behavior: ", detail),
            )
        } else {
            (ProcessState::Monitored, concat2("network connection: ", detail))
        },
        BehaviorEventKind::FileWrite => if suspected {
            (
                ProcessState::Malicious,
                concat2("file write after suspicious behavior: ", detail),
            )
        } else {
            (ProcessState::Monitored, concat2("file write: ", detail))
        },
        BehaviorEventKind::DnsQuery => (ProcessState::Monitored, concat2("dns query: ", detail)),
        BehaviorEventKind::CredentialAccess
        | BehaviorEventKind::ServiceTampering
        | BehaviorEventKind::BackupDeletion
        | BehaviorEventKind::RansomwareEncryption => (
            ProcessState::Malicious,
            concat2("high-confidence malicious behavior: ", detail),
        ),
    };
    if current == ProcessState::Malicious {
        (ProcessState::Blocked, reason)
    } else {
        (current, reason)
    }
}

impl ProcessStateMachine {
    /// The state that a process is taken to be in: observed, where nothing is known.
    pub open spec fn state_of(&self, pid: u32) -> ProcessState {
        if self.states@.contains_key(pid) {
            self.states@[pid]
        } else {
            ProcessState::Observed
        }
    }

    /// The transitions of a process so far.
    pub open spec fn transitions_of(&self, pid: u32) -> Seq<TransitionView> {
        if self.history@.contains_key(pid) {
            transition_views(self.history@[pid]@)
        } else {
            Seq::empty()
        }
    }

    /// The transition that an event at time `at` causes.
    pub open spec fn transition(
        &self,
        pid: u32,
        kind: BehaviorEventKind,
        detail: Seq<char>,
        at: u128,
    ) -> TransitionView {
        TransitionView {
            pid,
            previous: self.state_of(pid),
            current: next_state(self.state_of(pid), kind),
            reason: transition_reason(self.state_of(pid), kind, detail),
            timestamp_ms: at,
        }
    }

    /// The machine after a transition: only the process that it is about changed.
    pub open spec fn after(&self, t: TransitionView, later: &ProcessStateMachine) -> bool {
        &&& later.states@ == self.states@.insert(t.pid, t.current)
        &&& later.history@.contains_key(t.pid)
        &&& later.history@.remove(t.pid) == self.history@.remove(t.pid)
        &&& later.transitions_of(t.pid) == self.transitions_of(t.pid).push(t)
    }

    pub fn new() -> (machine: Self)
        ensures
            machine.states@ == Map::<u32, ProcessState>::empty(),
            machine.history@ == Map::<u32, Vec<ProcessStateTransition>>::empty(),
    {
        ProcessStateMachine { states: HashMap::new(), history: HashMap::new() }
    }

    /// Records an event of a process that happened at `at`, in milliseconds since the epoch.
    pub fn update_state_at(
        &mut self,
        pid: u32,
        event_kind: BehaviorEventKind,
        detail: &str,
        at: u128,
    ) -> (transition: ProcessStateTransition)
        ensures
            transition@ == old(self).transition(pid, event_kind, detail@, at),
            old(self).after(transition@, final(self)),
    {
        let previous = match self.states.get(&pid) {
            Some(state) => *state,
            None => ProcessState::Observed,
        };
        let (current, reason) = step(previous, event_kind, detail);
        self.states.insert(pid, current);
        let recorded = ProcessStateTransition {
            pid,
            previous,
            current,
            reason: reason.clone(),
            timestamp_ms: at,
        };
        let ghost earlier = self.transitions_of(pid);
        let mut transitions = match self.history.remove(&pid) {
            Some(list) => list,
            None => Vec::new(),
        };
        assert(transition_views(transitions@) =~= earlier);
        transitions.push(recorded);
        assert(transition_views(transitions@) =~= earlier.push(recorded@));
        self.history.insert(pid, transitions);
        assert(self.history@.remove(pid) =~= old(self).history@.remove(pid));
        ProcessStateTransition { pid, previous, current, reason, timestamp_ms: at }
    }

    /// Records an event of a process that happens now.
    pub fn update_state(&mut self, pid: u32, event_kind: BehaviorEventKind, detail: &str) -> (
        transition: ProcessStateTransition)
        ensures
            transition@ == old(self).transition(
                pid,
                event_kind,
                detail@,
                transition.timestamp_ms,
            ),
            old(self).after(transition@, final(self)),
    {
        let now: u128 = now_millis();
        self.update_state_at(pid, event_kind, detail, now)
    }

    /// The state of a process that was seen.
    pub fn get_state(&self, pid: u32) -> (state: Option<&ProcessState>)
        ensures
            match state {
                Some(s) => self.states@.contains_key(pid) && *s == self.states@[pid],
                None => !self.states@.contains_key(pid),
            },
    {
        self.states.get(&pid)
    }

    /// The transitions of a process that was seen.
    pub fn history_for(&self, pid: u32) -> (transitions: Option<&Vec<ProcessStateTransition>>)
        ensures
            match transitions {
                Some(t) => self.history@.contains_key(pid) && *t == self.history@[pid],
                None => !self.history@.contains_key(pid),
            },
    {
        self.history.get(&pid)
    }
}

/// Whatever the state, behaviour that is malicious by itself ends in a block.
pub proof fn law_decisive_behaviour_blocks(previous: ProcessState, kind: BehaviorEventKind)
    requires
        is_decisive(kind),
    ensures
        next_state(previous, kind) == ProcessState::Blocked,
{
}

/// No event leaves a process merely malicious: what is malicious is blocked.
pub proof fn law_malicious_is_blocked(previous: ProcessState, kind: BehaviorEventKind)
    ensures
        next_state(previous, kind) != ProcessState::Malicious,
{
}

/// A state that an event can leave a process in.
pub open spec fn is_settled(state: ProcessState) -> bool {
    state == ProcessState::Monitored || state == ProcessState::Instrumented || state
        == ProcessState::Blocked
}

/// The steps of a process begin where nothing is known of it, and each begins where the one
/// before it ended.
pub open spec fn links_up(pid: u32, steps: Seq<TransitionView>) -> bool {
    &&& steps.len() > 0
    &&& steps[0].previous == ProcessState::Observed
    &&& forall|i: int|
        0 <= i < steps.len() ==> (#[trigger] steps[i]).pid == pid && is_settled(steps[i].current)
    &&& forall|i: int, j: int|
        0 <= i && j == i + 1 && j < steps.len() ==> (#[trigger] steps[j]).previous == (
        #[trigger] steps[i]).current
}

impl ProcessStateMachine {
    /// Every process with a state has a history that links up and ends in that state, and no
    /// other process has a history.
    pub open spec fn consistent(&self) -> bool {
        &&& forall|pid: u32| #[trigger]
            self.states@.contains_key(pid) <==> self.history@.contains_key(pid)
        &&& forall|pid: u32| #[trigger]
            self.states@.contains_key(pid) ==> links_up(pid, self.transitions_of(pid))
                && self.transitions_of(pid).last().current == self.states@[pid]
    }
}

/// An event of a process, as a machine records it.
pub struct ProcessEvent {
    pub pid: u32,
    pub kind: BehaviorEventKind,
    pub detail: Seq<char>,
    pub at: u128,
}

/// A new machine is consistent.
pub proof fn law_new_machine_is_consistent(machine: ProcessStateMachine)
    requires
        machine.states@ == Map::<u32, ProcessState>::empty(),
        machine.history@ == Map::<u32, Vec<ProcessStateTransition>>::empty(),
    ensures
        machine.consistent(),
{
}

/// Recording an event keeps a machine consistent, and adds one step to the history of the
/// process that it is about and none to another.
pub proof fn law_events_keep_machines_consistent(
    before: ProcessStateMachine,
    event: ProcessEvent,
    later: ProcessStateMachine,
)
    requires
        before.consistent(),
        before.after(
            before.transition(event.pid, event.kind, event.detail, event.at),
            &later,
        ),
    ensures
        later.consistent(),
        later.transitions_of(event.pid).len() == before.transitions_of(event.pid).len() + 1,
        forall|pid: u32|
            pid != event.pid ==> #[trigger] later.transitions_of(pid) == before.transitions_of(pid),
{
    let t = before.transition(event.pid, event.kind, event.detail, event.at);
    let earlier = before.transitions_of(event.pid);
    assert forall|pid: u32| pid != event.pid implies #[trigger] later.transitions_of(pid)
        == before.transitions_of(pid) by {
        lemma_others_stay(before, t, later, pid);
    }
    if before.states@.contains_key(event.pid) {
        assert(is_settled(earlier[earlier.len() - 1].current));
    }
    lemma_step_settles(before.state_of(event.pid), event.kind);
    lemma_step_links(event.pid, earlier, t);
    assert forall|pid: u32| #[trigger] later.states@.contains_key(pid) implies links_up(
        pid,
        later.transitions_of(pid),
    ) && later.transitions_of(pid).last().current == later.states@[pid] by {
        lemma_others_stay(before, t, later, pid);
    }
    assert forall|pid: u32| #[trigger]
        later.states@.contains_key(pid) <==> later.history@.contains_key(pid) by {
        lemma_others_stay(before, t, later, pid);
        assert(before.states@.contains_key(pid) <==> before.history@.contains_key(pid));
    }
}

/// A step changes nothing of another process.
proof fn lemma_others_stay(
    before: ProcessStateMachine,
    t: TransitionView,
    later: ProcessStateMachine,
    pid: u32,
)
    requires
        before.after(t, &later),
    ensures
        pid != t.pid ==> {
            &&& later.transitions_of(pid) == before.transitions_of(pid)
            &&& later.history@.contains_key(pid) == before.history@.contains_key(pid)
            &&& later.states@.contains_key(pid) == before.states@.contains_key(pid)
            &&& before.states@.contains_key(pid) ==> later.states@[pid] == before.states@[pid]
        },
{
    if pid != t.pid {
        let rest = before.history@.remove(t.pid);
        assert(later.history@.remove(t.pid) == rest);
        assert(later.history@.contains_key(pid) == rest.contains_key(pid));
        assert(before.history@.contains_key(pid) == rest.contains_key(pid));
        if rest.contains_key(pid) {
            assert(later.history@[pid] == rest[pid]);
            assert(before.history@[pid] == rest[pid]);
        }
    }
}

proof fn lemma_step_settles(previous: ProcessState, kind: BehaviorEventKind)
    requires
        previous == ProcessState::Observed || is_settled(previous),
    ensures
        is_settled(next_state(previous, kind)),
{
}

/// A step that begins where the steps before it ended links up with them.
proof fn lemma_step_links(pid: u32, earlier: Seq<TransitionView>, t: TransitionView)
    requires
        t.pid == pid,
        is_settled(t.current),
        earlier.len() == 0 ==> t.previous == ProcessState::Observed,
        earlier.len() > 0 ==> links_up(pid, earlier) && t.previous == earlier.last().current,
    ensures
        links_up(pid, earlier.push(t)),
{
    let steps = earlier.push(t);
    assert forall|i: int, j: int| 0 <= i && j == i + 1 && j < steps.len() implies (
    #[trigger] steps[j]).previous == (#[trigger] steps[i]).current by {
        assert(steps[i] == earlier[i]);
        if j < earlier.len() {
            assert(steps[j] == earlier[j]);
        }
    }
    assert forall|i: int| 0 <= i < steps.len() implies (#[trigger] steps[i]).pid == pid
        && is_settled(steps[i].current) by {
        if i < earlier.len() {
            assert(steps[i] == earlier[i]);
        }
    }
}

/// The machines that a new machine goes through while events are recorded one by one.
pub open spec fn is_run(machines: Seq<ProcessStateMachine>, events: Seq<ProcessEvent>) -> bool {
    &&& machines.len() == events.len() + 1
    &&& machines[0].states@ == Map::<u32, ProcessState>::empty()
    &&& machines[0].history@ == Map::<u32, Vec<ProcessStateTransition>>::empty()
    &&& forall|i: int|
        0 <= i < events.len() ==> (#[trigger] machines[i]).after(
            machines[i].transition(events[i].pid, events[i].kind, events[i].detail, events[i].at),
            &machines[i + 1],
        )
}

/// How many events are about a process.
pub open spec fn events_of(events: Seq<ProcessEvent>, pid: u32) -> nat
    decreases events.len(),
{
    if events.len() == 0 {
        0
    } else {
        events_of(events.drop_last(), pid) + if events.last().pid == pid {
            1nat
        } else {
            0nat
        }
    }
}

/// Whatever events a new machine records, a process has a state and a history exactly if an
/// event was about it. The history then has a step for each of its events, begins where
/// nothing was known, links up and ends in the state, which is one that an event can leave it
/// in.
pub proof fn law_history_tells_every_event(
    machines: Seq<ProcessStateMachine>,
    events: Seq<ProcessEvent>,
    pid: u32,
)
    requires
        is_run(machines, events),
    ensures
        machines.last().consistent(),
        machines.last().transitions_of(pid).len() == events_of(events, pid),
        machines.last().states@.contains_key(pid) <==> events_of(events, pid) > 0,
        machines.last().history@.contains_key(pid) <==> events_of(events, pid) > 0,
        events_of(events, pid) > 0 ==> {
            &&& links_up(pid, machines.last().transitions_of(pid))
            &&& machines.last().states@[pid] == machines.last().transitions_of(pid).last().current
            &&& is_settled(machines.last().states@[pid])
        },
    decreases events.len(),
{
    if events.len() == 0 {
        law_new_machine_is_consistent(machines[0]);
    } else {
        let fewer = machines.drop_last();
        assert forall|i: int| 0 <= i < events.drop_last().len() implies (#[trigger] fewer[i]).after(
            fewer[i].transition(
                events.drop_last()[i].pid,
                events.drop_last()[i].kind,
                events.drop_last()[i].detail,
                events.drop_last()[i].at,
            ),
            &fewer[i + 1],
        ) by {
            assert(fewer[i] == machines[i] && fewer[i + 1] == machines[i + 1]);
        }
        law_history_tells_every_event(fewer, events.drop_last(), pid);
        let before = machines[events.len() - 1];
        assert(fewer.last() == before);
        assert(machines[events.len() - 1 + 1] == machines.last());
        law_events_keep_machines_consistent(before, events.last(), machines.last());
        let last = machines.last();
        assert(last.states@.contains_key(pid) == last.history@.contains_key(pid));
        if last.states@.contains_key(pid) {
            let steps = last.transitions_of(pid);
            assert(links_up(pid, steps));
            assert(is_settled(steps[steps.len() - 1].current));
        }
    }
}

} // verus!
