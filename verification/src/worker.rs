//! The scheduling vocabulary shared by the repair and scrub tasks: what a
//! bounded work step reports back to the external scheduler, and the
//! read-only status snapshot a task exposes.
use vstd::prelude::*;

verus! {

/// Outcome of one bounded work step, as reported to the external scheduler.
#[derive(Clone, Copy, Debug, PartialEq, Eq, Structural)]
pub enum WorkerState {
    /// More work is ready at once.
    Busy,
    /// More work is ready, but the scheduler should idle for the given
    /// number of milliseconds first (rate limiting).
    Throttled(u64),
    /// No work until some external event or timer.
    Idle,
    /// The task is finished for good.
    Done,
}

/// A whole, consistent status snapshot of a task.
pub struct WorkerStatus {
    /// Progress rendered as a percentage, when the task can tell.
    pub progress: Option<String>,
    /// Free-form diagnostic lines.
    pub freeform: Vec<String>,
    /// Count of persistent errors (corruptions detected, for the scrub task).
    pub persistent_errors: Option<u64>,
    /// Current tranquility setting, for tasks that are rate limited.
    pub tranquility: Option<u32>,
}

impl WorkerStatus {
    /// An empty status, every field unset.
    pub fn none() -> (r: WorkerStatus)
        ensures
            r.progress is None,
            r.freeform@.len() == 0,
            r.persistent_errors is None,
            r.tranquility is None,
    {
        WorkerStatus { progress: None, freeform: Vec::new(), persistent_errors: None, tranquility: None }
    }
}

} // verus!
