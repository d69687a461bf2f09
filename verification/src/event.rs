//! Events broadcast over the live stream: run and task state changes, log
//! lines, ingests and function invocations. Each carries the time it was
//! made.

use vstd::prelude::*;

use crate::model::{now, valid_timestamp, Id, Run, TaskRun, Timestamp};

verus! {

/// An event on the live stream.
#[derive(Debug)]
pub enum CortexEvent {
    RunUpdated { ts: Timestamp, run: Run },
    TaskUpdated { ts: Timestamp, task: TaskRun },
    Log { ts: Timestamp, run_id: Id, task_id: String, line: String },
    Ingested { ts: Timestamp, dataset: String, records: u64, bytes: u64 },
    FunctionInvoked { ts: Timestamp, name: String, ok: bool, duration_ms: u64 },
}

/// The same events, under the name the data-loom services use.
pub type LoomEvent = CortexEvent;

/// The run an event belongs to, if any.
pub open spec fn event_run(e: CortexEvent) -> Option<Id> {
    match e {
        CortexEvent::RunUpdated { run, .. } => Some(run.id),
        CortexEvent::TaskUpdated { task, .. } => Some(task.run_id),
        CortexEvent::Log { run_id, .. } => Some(run_id),
        _ => None,
    }
}

impl CortexEvent {
    /// A run changed; stamped now.
    pub fn run_updated(run: Run) -> (e: CortexEvent)
        ensures
            e matches CortexEvent::RunUpdated { ts, run: r } && r == run && valid_timestamp(ts),
    {
        CortexEvent::RunUpdated { ts: now(), run }
    }

    /// A task run changed; stamped now.
    pub fn task_updated(task: TaskRun) -> (e: CortexEvent)
        ensures
            e matches CortexEvent::TaskUpdated { ts, task: t } && t == task && valid_timestamp(ts),
    {
        CortexEvent::TaskUpdated { ts: now(), task }
    }

    /// A log line of a task in a run; stamped now.
    pub fn log(run_id: Id, task_id: String, line: String) -> (e: CortexEvent)
        ensures
            e matches CortexEvent::Log { ts, run_id: r, task_id: t, line: l } && r == run_id && t == task_id
                && l == line && valid_timestamp(ts),
    {
        CortexEvent::Log { ts: now(), run_id, task_id, line }
    }

    /// The run this event belongs to, if any — used to filter per-run streams.
    pub fn run_id(&self) -> (r: Option<Id>)
        ensures
            r == event_run(*self),
    {
        match self {
            CortexEvent::RunUpdated { run, .. } => Some(run.id),
            CortexEvent::TaskUpdated { task, .. } => Some(task.run_id),
            CortexEvent::Log { run_id, .. } => Some(*run_id),
            _ => None,
        }
    }
}

} // verus!
