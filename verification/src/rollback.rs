//! Plans that undo what a sandboxed program did, and what carrying them out reports.

use crate::sandbox::SandboxReport;
use crate::text::{concat2, concat3, decimal, decimal_text, texts};
use vstd::prelude::*;

verus! {

#[derive(Debug)]
pub enum RollbackAction {
    DeleteFile(String),
    DeleteRegistryKey(String),
    KillProcess(u32),
    RestoreFile { path: String, backup_path: String },
}

pub enum ActionView {
    DeleteFile(Seq<char>),
    DeleteRegistryKey(Seq<char>),
    KillProcess(u32),
    RestoreFile { path: Seq<char>, backup_path: Seq<char> },
}

impl View for RollbackAction {
    type V = ActionView;

    open spec fn view(&self) -> ActionView {
        match self {
            RollbackAction::DeleteFile(path) => ActionView::DeleteFile(path@),
            RollbackAction::DeleteRegistryKey(key) => ActionView::DeleteRegistryKey(key@),
            RollbackAction::KillProcess(pid) => ActionView::KillProcess(*pid),
            RollbackAction::RestoreFile { path, backup_path } => ActionView::RestoreFile {
                path: path@,
                backup_path: backup_path@,
            },
        }
    }
}

pub open spec fn action_views(actions: Seq<RollbackAction>) -> Seq<ActionView> {
    actions.map_values(|a: RollbackAction| a@)
}

#[derive(Debug)]
pub struct RollbackRecord {
    pub target_pid: Option<u32>,
    pub actions: Vec<RollbackAction>,
    pub reason: String,
}

/// How an action that was attempted came out.
#[derive(Debug)]
pub enum ActionOutcome {
    /// It was done.
    Done,
    /// What it is about does not exist.
    Missing,
    /// The platform does not offer it.
    Unsupported,
    /// It failed, for the reason given.
    Failed(String),
}

/// Text in quotes as the debug format of `str` writes it.
pub uninterp spec fn quoted(text: Seq<char>) -> Seq<char>;

/// The debug format of `str`: the text in quotes with what is not printable escaped. What
/// it escapes depends on the text alone.
#[verifier::external_body]
pub(crate) fn quote(text: &str) -> (q: String)
    ensures
        q@ == quoted(text@),
{
    format!("{:?}", text)
}

/// A path in quotes as the debug format of `std::path::Path` writes it.
pub uninterp spec fn quoted_path(path: Seq<char>) -> Seq<char>;

/// The debug format of `std::path::Path`: the path in quotes with what is not printable
/// escaped. What it escapes depends on the path alone.
#[verifier::external_body]
pub(crate) fn quote_path(path: &str) -> (q: String)
    ensures
        q@ == quoted_path(path@),
{
    format!("{:?}", std::path::Path::new(path))
}

/// An action as a text.
pub open spec fn action_text(action: ActionView) -> Seq<char> {
    match action {
        ActionView::DeleteFile(path) => "DeleteFile("@ + quoted_path(path) + ")"@,
        ActionView::DeleteRegistryKey(key) => "DeleteRegistryKey("@ + quoted(key) + ")"@,
        ActionView::KillProcess(pid) => "KillProcess("@ + decimal(pid as nat) + ")"@,
        ActionView::RestoreFile { path, backup_path } => "RestoreFile { path: "@ + quoted_path(path)
            + ", backup_path: "@ + (quoted_path(backup_path) + " }"@),
    }
}

/// The outcome is one that the action can have.
pub open spec fn outcome_fits(action: ActionView, outcome: ActionOutcome) -> bool {
    match action {
        ActionView::DeleteFile(_) | ActionView::RestoreFile { .. } => !(outcome is Unsupported),
        ActionView::DeleteRegistryKey(_) | ActionView::KillProcess(_) => !(outcome is Missing),
    }
}

/// What is reported of an action that was attempted.
pub open spec fn attempt_report(action: ActionView, outcome: ActionOutcome) -> Result<
    Seq<char>,
    Seq<char>,
> {
    match (action, outcome) {
        (_, ActionOutcome::Failed(reason)) => Err(reason@),
        (ActionView::DeleteFile(path), ActionOutcome::Missing) => Ok(
            "file not found: "@ + quoted_path(path),
        ),
        (ActionView::DeleteFile(path), _) => Ok("deleted file: "@ + quoted_path(path)),
        (ActionView::DeleteRegistryKey(_), ActionOutcome::Unsupported) => Err(
            "registry delete unsupported on this platform"@,
        ),
        (ActionView::DeleteRegistryKey(key), _) => Ok("deleted registry key: "@ + key),
        (ActionView::KillProcess(_), ActionOutcome::Unsupported) => Err(
            "process kill unsupported on this platform"@,
        ),
        (ActionView::KillProcess(pid), _) => Ok("killed process: "@ + decimal(pid as nat)),
        (ActionView::RestoreFile { backup_path, .. }, ActionOutcome::Missing) => Err(
            "backup missing: "@ + quoted_path(backup_path),
        ),
        (ActionView::RestoreFile { path, backup_path }, _) => Ok(
            "restored file: "@ + quoted_path(path) + " from "@ + quoted_path(backup_path),
        ),
    }
}

pub open spec fn text_result(r: Result<String, String>) -> Result<Seq<char>, Seq<char>> {
    match r {
        Ok(s) => Ok(s@),
        Err(s) => Err(s@),
    }
}

#[derive(Debug, Clone, Copy)]
pub struct RollbackExecutor {
    pub dry_run: bool,
    pub allow_restore: bool,
}

fn describe(action: &RollbackAction) -> (s: String)
    ensures
        s@ == action_text(action@),
{
    match action {
        RollbackAction::DeleteFile(path) => {
            let q = quote_path(path.as_str());
            concat3("DeleteFile(", q.as_str(), ")")
        },
        RollbackAction::DeleteRegistryKey(key) => {
            let q = quote(key.as_str());
            concat3("DeleteRegistryKey(", q.as_str(), ")")
        },
        RollbackAction::KillProcess(pid) => {
            let n = decimal_text(*pid as u64);
            concat3("KillProcess(", n.as_str(), ")")
        },
        RollbackAction::RestoreFile { path, backup_path } => {
            let q = quote_path(path.as_str());
            let head = concat3("RestoreFile { path: ", q.as_str(), ", backup_path: ");
            let b = quote_path(backup_path.as_str());
            let tail = concat2(b.as_str(), " }");
            concat2(head.as_str(), tail.as_str())
        },
    }
}

impl RollbackExecutor {
    pub fn new(dry_run: bool, allow_restore: bool) -> (executor: Self)
        ensures
            executor.dry_run == dry_run,
            executor.allow_restore == allow_restore,
    {
        RollbackExecutor { dry_run, allow_restore }
    }

    /// The action is to be attempted: never in a dry run, and restoring only where it is
    /// allowed.
    pub open spec fn attempts(&self, action: ActionView) -> bool {
        !self.dry_run && (action is RestoreFile ==> self.allow_restore)
    }

    /// What is reported of an action, given how the attempt came out if it is attempted.
    pub open spec fn report(&self, action: ActionView, outcome: ActionOutcome) -> Result<
        Seq<char>,
        Seq<char>,
    > {
        if self.dry_run {
            Ok("dry-run: "@ + action_text(action))
        } else if !self.attempts(action) {
            Err("restore disabled"@)
        } else {
            attempt_report(action, outcome)
        }
    }

    /// Tells whether an action is to be attempted.
    pub fn must_attempt(&self, action: &RollbackAction) -> (b: bool)
        ensures
            b == self.attempts(action@),
    {
        if self.dry_run {
            return false;
        }
        match action {
            RollbackAction::RestoreFile { path: _, backup_path: _ } => self.allow_restore,
            _ => true,
        }
    }

    /// What is reported of one action. The outcome counts only where the action is attempted.
    pub fn execute_action(&self, action: &RollbackAction, outcome: &ActionOutcome) -> (result:
        Result<String, String>)
        requires
            self.attempts(action@) ==> outcome_fits(action@, *outcome),
        ensures
            text_result(result) == self.report(action@, *outcome),
    {
        if self.dry_run {
            let text = describe(action);
            return Ok(concat2("dry-run: ", text.as_str()));
        }
        if !self.must_attempt(action) {
            return Err("restore disabled".to_owned());
        }
        if let ActionOutcome::Failed(reason) = outcome {
            return Err(reason.clone());
        }
        match action {
            RollbackAction::DeleteFile(path) => {
                let q = quote_path(path.as_str());
                match outcome {
                    ActionOutcome::Missing => Ok(concat2("file not found: ", q.as_str())),
                    _ => Ok(concat2("deleted file: ", q.as_str())),
                }
            },
            RollbackAction::DeleteRegistryKey(key) => match outcome {
                ActionOutcome::Unsupported => Err(
                    "registry delete unsupported on this platform".to_owned(),
                ),
                _ => Ok(concat2("deleted registry key: ", key.as_str())),
            },
            RollbackAction::KillProcess(pid) => match outcome {
                ActionOutcome::Unsupported => Err(
                    "process kill unsupported on this platform".to_owned(),
                ),
                _ => {
                    let n = decimal_text(*pid as u64);
                    Ok(concat2("killed process: ", n.as_str()))
                },
            },
            RollbackAction::RestoreFile { path, backup_path } => {
                let b = quote_path(backup_path.as_str());
                match outcome {
                    ActionOutcome::Missing => Err(concat2("backup missing: ", b.as_str())),
                    _ => {
                        let q = quote_path(path.as_str());
                        let head = concat3("restored file: ", q.as_str(), " from ");
                        Ok(concat2(head.as_str(), b.as_str()))
                    },
                }
            },
        }
    }

    /// What is reported of every action of a record, in order. In a dry run nothing is
    /// attempted and no outcomes are needed; otherwise there is one for each action.
    pub fn execute(&self, record: &RollbackRecord, outcomes: &[ActionOutcome]) -> (results: Vec<
        Result<String, String>,
    >)
        requires
            self.dry_run || outcomes@.len() == record.actions@.len(),
            forall|i: int|
                0 <= i < record.actions@.len() && self.attempts(
                    (#[trigger] record.actions@[i])@,
                ) ==> outcome_fits(record.actions@[i]@, outcomes@[i]),
        ensures
            results@.len() == record.actions@.len(),
            forall|i: int|
                0 <= i < results@.len() ==> text_result(#[trigger] results@[i]) == self.report(
                    record.actions@[i]@,
                    outcomes@[i],
                ),
    {
        let mut results: Vec<Result<String, String>> = Vec::new();
        let mut i: usize = 0;
        while i < record.actions.len()
            invariant
                i <= record.actions@.len(),
                results@.len() == i,
                self.dry_run || outcomes@.len() == record.actions@.len(),
                forall|k: int|
                    0 <= k < record.actions@.len() && self.attempts(
                        (#[trigger] record.actions@[k])@,
                    ) ==> outcome_fits(record.actions@[k]@, outcomes@[k]),
                forall|k: int|
                    0 <= k < i ==> text_result(#[trigger] results@[k]) == self.report(
                        record.actions@[k]@,
                        outcomes@[k],
                    ),
            decreases record.actions@.len() - i,
        {
            let action = &record.actions[i];
            if self.dry_run {
                results.push(self.execute_action(action, &ActionOutcome::Done));
            } else {
                results.push(self.execute_action(action, &outcomes[i]));
            }
            i = i + 1;
        }
        results
    }
}

/// A dry run attempts nothing and reports every action as fine.
pub proof fn law_dry_run_is_harmless(
    executor: RollbackExecutor,
    action: ActionView,
    outcome: ActionOutcome,
)
    requires
        executor.dry_run,
    ensures
        !executor.attempts(action),
        executor.report(action, outcome) == Ok::<Seq<char>, Seq<char>>(
            "dry-run: "@ + action_text(action),
        ),
{
}

pub struct RollbackPlanner;

/// The actions that undo a sandbox run: changed files and registry keys are deleted, and the
/// program is killed where it outlived its time or reached the network.
pub open spec fn planned_actions(
    files: Seq<Seq<char>>,
    keys: Seq<Seq<char>>,
    pid: Option<u32>,
    kill: bool,
) -> Seq<ActionView> {
    files.map_values(|f: Seq<char>| ActionView::DeleteFile(f)) + keys.map_values(
        |k: Seq<char>| ActionView::DeleteRegistryKey(k),
    ) + match pid {
        Some(p) => if kill {
            seq![ActionView::KillProcess(p)]
        } else {
            Seq::empty()
        },
        None => Seq::empty(),
    }
}

pub open spec fn plan_reason(timed_out: bool, keys: nat, files: nat) -> Seq<char> {
    if timed_out {
        "sandbox timed out, rollback actions may be required"@
    } else if keys > 0 {
        "registry or file modifications detected during sandbox execution"@
    } else if files > 0 {
        "file modifications detected during sandbox execution"@
    } else {
        "no rollback actions detected"@
    }
}

impl RollbackPlanner {
    /// The plan that undoes what a sandbox run did.
    pub fn from_sandbox_report(report: &SandboxReport) -> (record: RollbackRecord)
        ensures
            record.target_pid == report.target_pid,
            action_views(record.actions@) == planned_actions(
                texts(report.files_changed@),
                texts(report.registry_writes@),
                report.target_pid,
                report.timed_out || report.network_connections@.len() > 0,
            ),
            record.reason@ == plan_reason(
                report.timed_out,
                report.registry_writes@.len(),
                report.files_changed@.len(),
            ),
    {
        let ghost files = texts(report.files_changed@).map_values(
            |f: Seq<char>| ActionView::DeleteFile(f),
        );
        let ghost keys = texts(report.registry_writes@).map_values(
            |k: Seq<char>| ActionView::DeleteRegistryKey(k),
        );
        let mut actions: Vec<RollbackAction> = Vec::new();
        let mut i: usize = 0;
        assert(action_views(actions@) =~= files.take(0));
        while i < report.files_changed.len()
            invariant
                i <= report.files_changed@.len(),
                files == texts(report.files_changed@).map_values(
                    |f: Seq<char>| ActionView::DeleteFile(f),
                ),
                action_views(actions@) == files.take(i as int),
            decreases report.files_changed@.len() - i,
        {
            let ghost before = action_views(actions@);
            let action = RollbackAction::DeleteFile(report.files_changed[i].clone());
            actions.push(action);
            assert(action_views(actions@) =~= before.push(action@));
            assert(files[i as int] == action@);
            assert(files.take(i + 1) =~= files.take(i as int).push(action@));
            i = i + 1;
        }
        assert(files.take(i as int) =~= files);
        let mut k: usize = 0;
        assert(action_views(actions@) =~= files + keys.take(0));
        while k < report.registry_writes.len()
            invariant
                k <= report.registry_writes@.len(),
                keys == texts(report.registry_writes@).map_values(
                    |k: Seq<char>| ActionView::DeleteRegistryKey(k),
                ),
                action_views(actions@) == files + keys.take(k as int),
            decreases report.registry_writes@.len() - k,
        {
            let ghost before = action_views(actions@);
            let action = RollbackAction::DeleteRegistryKey(report.registry_writes[k].clone());
            actions.push(action);
            assert(action_views(actions@) =~= before.push(action@));
            assert(keys[k as int] == action@);
            assert(files + keys.take(k + 1) =~= (files + keys.take(k as int)).push(action@));
            k = k + 1;
        }
        assert(keys.take(k as int) =~= keys);
        if let Some(pid) = report.target_pid {
            if report.timed_out || report.network_connections.len() > 0 {
                actions.push(RollbackAction::KillProcess(pid));
            }
        }
        assert(action_views(actions@) =~= planned_actions(
            texts(report.files_changed@),
            texts(report.registry_writes@),
            report.target_pid,
            report.timed_out || report.network_connections@.len() > 0,
        ));
        let reason = if report.timed_out {
            "sandbox timed out, rollback actions may be required"
        } else if report.registry_writes.len() > 0 {
            "registry or file modifications detected during sandbox execution"
        } else if report.files_changed.len() > 0 {
            "file modifications detected during sandbox execution"
        } else {
            "no rollback actions detected"
        };
        RollbackRecord { target_pid: report.target_pid, actions, reason: reason.to_owned() }
    }
}

pub open spec fn pid_text(pid: Option<u32>) -> Seq<char> {
    match pid {
        Some(p) => "Some("@ + decimal(p as nat) + ")"@,
        None => "None"@,
    }
}

impl RollbackRecord {
    /// The record in one line.
    pub fn summary(&self) -> (s: String)
        ensures
            s@ == "rollback record for pid="@ + pid_text(self.target_pid) + ", actions="@ + (decimal(
                self.actions@.len(),
            ) + " reason="@ + self.reason@),
    {
        let pid = match self.target_pid {
            Some(p) => {
                let n = decimal_text(p as u64);
                concat3("Some(", n.as_str(), ")")
            },
            None => "None".to_owned(),
        };
        let head = concat3("rollback record for pid=", pid.as_str(), ", actions=");
        let count = decimal_text(self.actions.len() as u64);
        let tail = concat3(count.as_str(), " reason=", self.reason.as_str());
        concat2(head.as_str(), tail.as_str())
    }
}

} // verus!
