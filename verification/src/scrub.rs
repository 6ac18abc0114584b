//! The continuous scrub task: a command-driven state machine wrapping a
//! walker, a rate limiter and a persisted record. An external scheduler
//! drives it by bounded work steps; commands arrive over an ordered channel
//! and are handled one at a time. Completion self-schedules the next run
//! with randomized jitter to desynchronize nodes.
use vstd::prelude::*;

use crate::rng::rand_u64_below;
use crate::textnum::{format_percent_fp, percent_string, u64_to_dec_string, dec_string, PROGRESS_FP};
use crate::tranquilizer::{spec_delay, Tranquilizer};
use crate::walker::{
    dv_of, initial_stack, min_known_cap, stack_progress, stack_wf, total_cap,
    BlockStoreIterator, DataDir, TodoV,
};
use crate::worker::{WorkerState, WorkerStatus};

verus! {

/// A full scrub pass is owed this long after the last complete one.
pub const SCRUB_INTERVAL_MS: u64 = 3600 * 24 * 25 * 1000;

/// Exclusive bound on the random addition to the scrub interval.
pub const SCRUB_JITTER_MS: u64 = 3600 * 24 * 10 * 1000;

/// Tranquility before anyone tunes it.
pub const INITIAL_SCRUB_TRANQUILITY: u32 = 4;

/// A checkpoint is persisted at most once per this period of wall clock,
/// bounding what a crash can lose to about this much re-scannable progress.
pub const CHECKPOINT_PERIOD_MS: u64 = 60 * 1000;

/// How many recent step costs the rate limiter averages over.
pub const TRANQUILIZER_WINDOW: usize = 30;

/// Latest timestamp from which a next run can still be scheduled without
/// leaving the integer range.
pub const MAX_SCHEDULABLE_MS: u64 = u64::MAX - SCRUB_INTERVAL_MS - SCRUB_JITTER_MS;

/// The next scrub is owed a fixed interval after `timestamp`, plus a random
/// whole number of seconds below the jitter window, so that nodes do not
/// scrub in lockstep.
pub fn randomize_next_scrub_run_time(timestamp: u64) -> (r: u64)
    requires
        timestamp <= MAX_SCHEDULABLE_MS,
    ensures
        timestamp + SCRUB_INTERVAL_MS <= r < timestamp + SCRUB_INTERVAL_MS + SCRUB_JITTER_MS,
{
    let jitter_secs = rand_u64_below(3600 * 24 * 10);
    timestamp + SCRUB_INTERVAL_MS + jitter_secs * 1000
}

/// The durable record of the scrub task, persisted across restarts.
pub struct ScrubWorkerPersisted {
    pub tranquility: u32,
    pub time_last_complete_scrub: u64,
    pub time_next_run_scrub: u64,
    pub corruptions_detected: u64,
    pub checkpoint: Option<BlockStoreIterator>,
}

/// Mathematical image of the persisted record.
pub struct ScrubPersistedV {
    pub tranquility: u32,
    pub time_last_complete_scrub: u64,
    pub time_next_run_scrub: u64,
    pub corruptions_detected: u64,
    pub checkpoint: Option<Seq<TodoV>>,
}

impl View for ScrubWorkerPersisted {
    type V = ScrubPersistedV;

    open spec fn view(&self) -> ScrubPersistedV {
        ScrubPersistedV {
            tranquility: self.tranquility,
            time_last_complete_scrub: self.time_last_complete_scrub,
            time_next_run_scrub: self.time_next_run_scrub,
            corruptions_detected: self.corruptions_detected,
            checkpoint: match self.checkpoint {
                Some(ref w) => Some(w@),
                None => None,
            },
        }
    }
}

impl ScrubWorkerPersisted {
    /// The record a node starts from when none was ever persisted: no scrub
    /// done yet, the first run owed one randomized interval from now.
    pub fn initial(now_msec: u64) -> (r: Self)
        requires
            now_msec <= MAX_SCHEDULABLE_MS,
        ensures
            r@.tranquility == INITIAL_SCRUB_TRANQUILITY,
            r@.time_last_complete_scrub == 0,
            now_msec + SCRUB_INTERVAL_MS <= r@.time_next_run_scrub < now_msec
                + SCRUB_INTERVAL_MS + SCRUB_JITTER_MS,
            r@.corruptions_detected == 0,
            r@.checkpoint is None,
    {
        ScrubWorkerPersisted {
            tranquility: INITIAL_SCRUB_TRANQUILITY,
            time_last_complete_scrub: 0,
            time_next_run_scrub: randomize_next_scrub_run_time(now_msec),
            corruptions_detected: 0,
            checkpoint: None,
        }
    }
}

/// The persisted record as an earlier schema wrote it, before the task
/// self-scheduled runs and checkpointed its walker.
pub struct ScrubWorkerPersistedPrev {
    pub tranquility: u32,
    pub time_last_complete_scrub: u64,
    pub corruptions_detected: u64,
}

/// Forward-migrate a record of the earlier schema: the next run time, which
/// the old schema did not keep, is synthesized by the usual randomized
/// formula, and no checkpoint is carried over.
pub fn migrate_scrub_persisted(prev: &ScrubWorkerPersistedPrev) -> (r: ScrubWorkerPersisted)
    requires
        prev.time_last_complete_scrub <= MAX_SCHEDULABLE_MS,
    ensures
        r@.tranquility == prev.tranquility,
        r@.time_last_complete_scrub == prev.time_last_complete_scrub,
        prev.time_last_complete_scrub + SCRUB_INTERVAL_MS <= r@.time_next_run_scrub
            < prev.time_last_complete_scrub + SCRUB_INTERVAL_MS + SCRUB_JITTER_MS,
        r@.corruptions_detected == prev.corruptions_detected,
        r@.checkpoint is None,
{
    ScrubWorkerPersisted {
        tranquility: prev.tranquility,
        time_last_complete_scrub: prev.time_last_complete_scrub,
        time_next_run_scrub: randomize_next_scrub_run_time(prev.time_last_complete_scrub),
        corruptions_detected: prev.corruptions_detected,
        checkpoint: None,
    }
}

/// A command delivered to the scrub task over its ordered channel.
#[derive(Clone, Copy, Debug, PartialEq, Eq, Structural)]
pub enum ScrubWorkerCommand {
    Start,
    /// Pause for the given number of milliseconds.
    Pause(u64),
    Resume,
    Cancel,
}

/// In-memory state of the scrub task.
pub enum ScrubWorkerState {
    Running { iterator: BlockStoreIterator, t_cp: u64 },
    Paused { iterator: BlockStoreIterator, t_resume: u64 },
    Finished,
}

/// Mathematical image of the in-memory state.
pub enum ScrubStateV {
    Running { iterator: Seq<TodoV>, t_cp: u64 },
    Paused { iterator: Seq<TodoV>, t_resume: u64 },
    Finished,
}

impl View for ScrubWorkerState {
    type V = ScrubStateV;

    open spec fn view(&self) -> ScrubStateV {
        match self {
            ScrubWorkerState::Running { iterator, t_cp } => ScrubStateV::Running {
                iterator: iterator@,
                t_cp: *t_cp,
            },
            ScrubWorkerState::Paused { iterator, t_resume } => ScrubStateV::Paused {
                iterator: iterator@,
                t_resume: *t_resume,
            },
            ScrubWorkerState::Finished => ScrubStateV::Finished,
        }
    }
}

/// What reading one block back reported.
#[derive(Clone, Copy, Debug, PartialEq, Eq, Structural)]
pub enum BlockReadOutcome {
    /// The content matched its hash.
    Valid,
    /// The content did not match its hash: corruption, counted and scanned
    /// past.
    Corrupt,
    /// Some other I/O failure: fatal to the step, propagated for retry.
    IoError,
}

/// Whether the current step goes on or is aborted for external retry.
#[derive(Clone, Copy, Debug, PartialEq, Eq, Structural)]
pub enum ScanStepResult {
    Continue,
    Abort,
}

/// What the task should do in its wait path.
pub enum WaitPlan {
    /// Running: no waiting, the next work step is due at once.
    Proceed,
    /// A deadline has already passed: issue this command to itself now.
    AutoCommand(ScrubWorkerCommand),
    /// Sleep until the given time (or an external command), then issue this
    /// command to itself.
    WaitUntil(u64, ScrubWorkerCommand),
}

/// The continuous scrub task.
pub struct ScrubWorker {
    pub work: ScrubWorkerState,
    pub tranquilizer: Tranquilizer,
    pub persisted: ScrubWorkerPersisted,
}

impl ScrubWorker {
    pub open spec fn wf(&self) -> bool {
        &&& match self.work@ {
            ScrubStateV::Running { iterator, .. } => stack_wf(iterator),
            ScrubStateV::Paused { iterator, .. } => stack_wf(iterator),
            ScrubStateV::Finished => true,
        }
        &&& match self.persisted@.checkpoint {
            Some(s) => stack_wf(s),
            None => true,
        }
        &&& self.tranquilizer.wf()
    }

    /// Set the task up from its persisted record: with a checkpoint it
    /// resumes the interrupted scan at once, else it waits as finished.
    pub fn new(persisted: ScrubWorkerPersisted, now_msec: u64) -> (r: Self)
        requires
            match persisted@.checkpoint {
                Some(s) => stack_wf(s),
                None => true,
            },
        ensures
            r.wf(),
            r.persisted@ == persisted@,
            r.tranquilizer@.observations.len() == 0,
            r.tranquilizer@.max_observations == TRANQUILIZER_WINDOW,
            match persisted@.checkpoint {
                Some(s) => r.work@ == (ScrubStateV::Running { iterator: s, t_cp: now_msec }),
                None => r.work@ == ScrubStateV::Finished,
            },
    {
        let work = match &persisted.checkpoint {
            Some(it) => ScrubWorkerState::Running { iterator: it.snapshot(), t_cp: now_msec },
            None => ScrubWorkerState::Finished,
        };
        ScrubWorker { work, tranquilizer: Tranquilizer::new(TRANQUILIZER_WINDOW), persisted }
    }

    /// The task's display name.
    pub fn name(&self) -> (r: String)
        ensures
            r@ == "Block scrub worker"@,
    {
        String::from_str("Block scrub worker")
    }

    /// Handle one command, as the transition table prescribes: `Start` only
    /// from `Finished` (a new walker over the current directories, an
    /// immediate checkpoint), `Pause` only from `Running` or `Paused`
    /// (checkpoint, then sleep for the given duration), `Resume` only from
    /// `Paused`, `Cancel` only from `Running` or `Paused` (the in-memory
    /// walker is dropped and the persisted checkpoint cleared, so a later
    /// scrub never resumes against a changed layout). A command invalid for
    /// the current state changes nothing and is reported back as a warning.
    pub fn handle_cmd(
        &mut self,
        cmd: ScrubWorkerCommand,
        now_msec: u64,
        dirs: &Vec<DataDir>,
    ) -> (warned: bool)
        requires
            old(self).wf(),
            cmd is Start && old(self).work@ is Finished ==> {
                &&& (dirs@.len() > 0 ==> total_cap(dv_of(dirs@), min_known_cap(dv_of(dirs@)))
                    > 0)
                &&& total_cap(dv_of(dirs@), min_known_cap(dv_of(dirs@))) <= u64::MAX
            },
            cmd matches ScrubWorkerCommand::Pause(d) ==> now_msec + d <= u64::MAX,
        ensures
            final(self).wf(),
            final(self).tranquilizer@ == old(self).tranquilizer@,
            final(self).persisted@.tranquility == old(self).persisted@.tranquility,
            final(self).persisted@.time_last_complete_scrub == old(
                self,
            ).persisted@.time_last_complete_scrub,
            final(self).persisted@.time_next_run_scrub == old(
                self,
            ).persisted@.time_next_run_scrub,
            final(self).persisted@.corruptions_detected == old(
                self,
            ).persisted@.corruptions_detected,
            match cmd {
                ScrubWorkerCommand::Start => match old(self).work@ {
                    ScrubStateV::Finished => {
                        &&& final(self).work@ == (ScrubStateV::Running {
                            iterator: initial_stack(dv_of(dirs@)),
                            t_cp: now_msec,
                        })
                        &&& final(self).persisted@.checkpoint == Some(
                            initial_stack(dv_of(dirs@)),
                        )
                        &&& !warned
                    },
                    _ => {
                        &&& final(self).work@ == old(self).work@
                        &&& final(self).persisted@.checkpoint == old(
                            self,
                        ).persisted@.checkpoint
                        &&& warned
                    },
                },
                ScrubWorkerCommand::Pause(d) => match old(self).work@ {
                    ScrubStateV::Running { iterator, .. } => {
                        &&& final(self).work@ == (ScrubStateV::Paused {
                            iterator,
                            t_resume: (now_msec + d) as u64,
                        })
                        &&& final(self).persisted@.checkpoint == Some(iterator)
                        &&& !warned
                    },
                    ScrubStateV::Paused { iterator, .. } => {
                        &&& final(self).work@ == (ScrubStateV::Paused {
                            iterator,
                            t_resume: (now_msec + d) as u64,
                        })
                        &&& final(self).persisted@.checkpoint == Some(iterator)
                        &&& !warned
                    },
                    ScrubStateV::Finished => {
                        &&& final(self).work@ == old(self).work@
                        &&& final(self).persisted@.checkpoint == old(
                            self,
                        ).persisted@.checkpoint
                        &&& warned
                    },
                },
                ScrubWorkerCommand::Resume => match old(self).work@ {
                    ScrubStateV::Paused { iterator, .. } => {
                        &&& final(self).work@ == (ScrubStateV::Running {
                            iterator,
                            t_cp: now_msec,
                        })
                        &&& final(self).persisted@.checkpoint == old(
                            self,
                        ).persisted@.checkpoint
                        &&& !warned
                    },
                    _ => {
                        &&& final(self).work@ == old(self).work@
                        &&& final(self).persisted@.checkpoint == old(
                            self,
                        ).persisted@.checkpoint
                        &&& warned
                    },
                },
                ScrubWorkerCommand::Cancel => match old(self).work@ {
                    ScrubStateV::Finished => {
                        &&& final(self).work@ == old(self).work@
                        &&& final(self).persisted@.checkpoint == old(
                            self,
                        ).persisted@.checkpoint
                        &&& warned
                    },
                    _ => {
                        &&& final(self).work@ == ScrubStateV::Finished
                        &&& final(self).persisted@.checkpoint is None
                        &&& !warned
                    },
                },
            },
    {
        match cmd {
            ScrubWorkerCommand::Start => {
                match &self.work {
                    ScrubWorkerState::Finished => {
                        let iterator = BlockStoreIterator::new(dirs);
                        self.persisted.checkpoint = Some(iterator.snapshot());
                        self.work = ScrubWorkerState::Running { iterator, t_cp: now_msec };
                        false
                    },
                    _ => true,
                }
            },
            ScrubWorkerCommand::Pause(d) => {
                let mut work = ScrubWorkerState::Finished;
                core::mem::swap(&mut work, &mut self.work);
                match work {
                    ScrubWorkerState::Running { iterator, .. }
                    | ScrubWorkerState::Paused { iterator, .. } => {
                        self.persisted.checkpoint = Some(iterator.snapshot());
                        self.work = ScrubWorkerState::Paused {
                            iterator,
                            t_resume: now_msec + d,
                        };
                        false
                    },
                    ScrubWorkerState::Finished => {
                        self.work = work;
                        true
                    },
                }
            },
            ScrubWorkerCommand::Resume => {
                let mut work = ScrubWorkerState::Finished;
                core::mem::swap(&mut work, &mut self.work);
                match work {
                    ScrubWorkerState::Paused { iterator, .. } => {
                        self.work = ScrubWorkerState::Running { iterator, t_cp: now_msec };
                        false
                    },
                    _ => {
                        self.work = work;
                        true
                    },
                }
            },
            ScrubWorkerCommand::Cancel => {
                match &self.work {
                    ScrubWorkerState::Running { .. } | ScrubWorkerState::Paused { .. } => {
                        self.work = ScrubWorkerState::Finished;
                        self.persisted.checkpoint = None;
                        false
                    },
                    ScrubWorkerState::Finished => true,
                }
            },
        }
    }

    /// The walker of the running scan, for one step of the walk protocol;
    /// `None` when no scan is running.
    pub fn running_iterator(&mut self) -> (r: Option<&mut BlockStoreIterator>)
        ensures
            match r {
                Some(it) => {
                    &&& old(self).work@ is Running
                    &&& it@ == (match old(self).work@ {
                        ScrubStateV::Running { iterator, .. } => iterator,
                        _ => Seq::empty(),
                    })
                    &&& final(self).work@ == (match old(self).work@ {
                        ScrubStateV::Running { t_cp, .. } => ScrubStateV::Running {
                            iterator: final(it)@,
                            t_cp,
                        },
                        _ => ScrubStateV::Finished,
                    })
                },
                None => {
                    &&& !(old(self).work@ is Running)
                    &&& final(self).work@ == old(self).work@
                },
            },
            final(self).persisted@ == old(self).persisted@,
            final(self).tranquilizer@ == old(self).tranquilizer@,
    {
        match &mut self.work {
            ScrubWorkerState::Running { iterator, .. } => Some(iterator),
            _ => None,
        }
    }

    /// Mark the beginning of one rate-limited work step.
    pub fn begin_step(&mut self, now_msec: u64)
        ensures
            final(self).work@ == old(self).work@,
            final(self).persisted@ == old(self).persisted@,
            final(self).tranquilizer@.observations == old(self).tranquilizer@.observations,
            final(self).tranquilizer@.max_observations == old(
                self,
            ).tranquilizer@.max_observations,
            final(self).tranquilizer@.last_step_begin == now_msec,
            old(self).wf() ==> final(self).wf(),
    {
        self.tranquilizer.reset(now_msec);
    }

    /// Account one checked block: a corruption is counted and the scan goes
    /// on; any other failure aborts the step for external retry, changing
    /// nothing; a valid block changes nothing.
    pub fn note_block_check(&mut self, outcome: BlockReadOutcome) -> (r: ScanStepResult)
        requires
            old(self).wf(),
            outcome == BlockReadOutcome::Corrupt ==> old(self).persisted@.corruptions_detected
                < u64::MAX,
        ensures
            final(self).wf(),
            final(self).work@ == old(self).work@,
            final(self).tranquilizer@ == old(self).tranquilizer@,
            final(self).persisted@.tranquility == old(self).persisted@.tranquility,
            final(self).persisted@.time_last_complete_scrub == old(
                self,
            ).persisted@.time_last_complete_scrub,
            final(self).persisted@.time_next_run_scrub == old(
                self,
            ).persisted@.time_next_run_scrub,
            final(self).persisted@.checkpoint == old(self).persisted@.checkpoint,
            match outcome {
                BlockReadOutcome::Corrupt => {
                    &&& final(self).persisted@.corruptions_detected == old(
                        self,
                    ).persisted@.corruptions_detected + 1
                    &&& r == ScanStepResult::Continue
                },
                BlockReadOutcome::Valid => {
                    &&& final(self).persisted@.corruptions_detected == old(
                        self,
                    ).persisted@.corruptions_detected
                    &&& r == ScanStepResult::Continue
                },
                BlockReadOutcome::IoError => {
                    &&& final(self).persisted@.corruptions_detected == old(
                        self,
                    ).persisted@.corruptions_detected
                    &&& r == ScanStepResult::Abort
                },
            },
    {
        match outcome {
            BlockReadOutcome::Valid => ScanStepResult::Continue,
            BlockReadOutcome::Corrupt => {
                self.persisted.corruptions_detected = self.persisted.corruptions_detected + 1;
                ScanStepResult::Continue
            },
            BlockReadOutcome::IoError => ScanStepResult::Abort,
        }
    }

    /// Persist a walker checkpoint when the last one is older than the
    /// checkpoint period; says whether a checkpoint was taken (the caller
    /// then saves the record).
    pub fn maybe_checkpoint(&mut self, now_msec: u64) -> (saved: bool)
        requires
            old(self).wf(),
            old(self).work@ matches ScrubStateV::Running { t_cp, .. } ==> t_cp <= now_msec,
        ensures
            final(self).wf(),
            final(self).tranquilizer@ == old(self).tranquilizer@,
            final(self).persisted@.tranquility == old(self).persisted@.tranquility,
            final(self).persisted@.time_last_complete_scrub == old(
                self,
            ).persisted@.time_last_complete_scrub,
            final(self).persisted@.time_next_run_scrub == old(
                self,
            ).persisted@.time_next_run_scrub,
            final(self).persisted@.corruptions_detected == old(
                self,
            ).persisted@.corruptions_detected,
            match old(self).work@ {
                ScrubStateV::Running { iterator, t_cp } => {
                    if now_msec - t_cp > CHECKPOINT_PERIOD_MS {
                        &&& saved
                        &&& final(self).work@ == (ScrubStateV::Running {
                            iterator,
                            t_cp: now_msec,
                        })
                        &&& final(self).persisted@.checkpoint == Some(iterator)
                    } else {
                        &&& !saved
                        &&& final(self).work@ == old(self).work@
                        &&& final(self).persisted@.checkpoint == old(
                            self,
                        ).persisted@.checkpoint
                    }
                },
                _ => {
                    &&& !saved
                    &&& final(self).work@ == old(self).work@
                    &&& final(self).persisted@.checkpoint == old(self).persisted@.checkpoint
                },
            },
    {
        match &mut self.work {
            ScrubWorkerState::Running { iterator, t_cp } => {
                if now_msec - *t_cp > CHECKPOINT_PERIOD_MS {
                    self.persisted.checkpoint = Some(iterator.snapshot());
                    *t_cp = now_msec;
                    true
                } else {
                    false
                }
            },
            _ => false,
        }
    }

    /// Account the finished step and report how long the scheduler should
    /// idle, scaled by the current tranquility setting.
    pub fn end_step_throttle(&mut self, now_msec: u64) -> (r: WorkerState)
        requires
            old(self).wf(),
            now_msec >= old(self).tranquilizer@.last_step_begin,
        ensures
            final(self).wf(),
            final(self).work@ == old(self).work@,
            final(self).persisted@ == old(self).persisted@,
            ({
                let pushed = old(self).tranquilizer@.observations.push(
                    (now_msec - old(self).tranquilizer@.last_step_begin) as u64,
                );
                let obs = if pushed.len() > old(self).tranquilizer@.max_observations {
                    pushed.skip(1)
                } else {
                    pushed
                };
                r == (if spec_delay(obs, old(self).persisted@.tranquility) > 0 {
                    WorkerState::Throttled(spec_delay(obs, old(self).persisted@.tranquility))
                } else {
                    WorkerState::Busy
                })
            }),
    {
        self.tranquilizer.tranquilize_worker(now_msec, self.persisted.tranquility)
    }

    /// The scan is exhausted: record the completion time, schedule the next
    /// run a randomized interval ahead, clear the checkpoint and the rate
    /// limiter, and go back to waiting.
    pub fn finish_scan(&mut self, now_msec: u64) -> (r: WorkerState)
        requires
            old(self).wf(),
            old(self).work@ is Running,
            now_msec <= MAX_SCHEDULABLE_MS,
        ensures
            final(self).wf(),
            final(self).work@ == ScrubStateV::Finished,
            final(self).persisted@.tranquility == old(self).persisted@.tranquility,
            final(self).persisted@.corruptions_detected == old(
                self,
            ).persisted@.corruptions_detected,
            final(self).persisted@.time_last_complete_scrub == now_msec,
            now_msec + SCRUB_INTERVAL_MS <= final(self).persisted@.time_next_run_scrub
                < now_msec + SCRUB_INTERVAL_MS + SCRUB_JITTER_MS,
            final(self).persisted@.checkpoint is None,
            final(self).tranquilizer@.observations.len() == 0,
            r == WorkerState::Idle,
    {
        let next = randomize_next_scrub_run_time(now_msec);
        self.persisted.time_last_complete_scrub = now_msec;
        self.persisted.time_next_run_scrub = next;
        self.persisted.checkpoint = None;
        self.work = ScrubWorkerState::Finished;
        self.tranquilizer.clear();
        WorkerState::Idle
    }

    /// Take over a changed tranquility setting; it applies from the next
    /// step on.
    pub fn set_tranquility(&mut self, tranquility: u32)
        ensures
            final(self).work@ == old(self).work@,
            final(self).tranquilizer@ == old(self).tranquilizer@,
            final(self).persisted@.tranquility == tranquility,
            final(self).persisted@.time_last_complete_scrub == old(
                self,
            ).persisted@.time_last_complete_scrub,
            final(self).persisted@.time_next_run_scrub == old(
                self,
            ).persisted@.time_next_run_scrub,
            final(self).persisted@.corruptions_detected == old(
                self,
            ).persisted@.corruptions_detected,
            final(self).persisted@.checkpoint == old(self).persisted@.checkpoint,
            old(self).wf() ==> final(self).wf(),
    {
        self.persisted.tranquility = tranquility;
    }

    /// What the wait path should do: keep working while running; while
    /// paused, sleep until the resume time and then resume by itself; while
    /// finished, sleep until the scheduled next run and then start by
    /// itself. A deadline already passed turns into the command at once.
    pub fn wait_plan(&self, now_msec: u64) -> (r: WaitPlan)
        ensures
            match self.work@ {
                ScrubStateV::Running { .. } => r is Proceed,
                ScrubStateV::Paused { t_resume, .. } => if now_msec >= t_resume {
                    r == WaitPlan::AutoCommand(ScrubWorkerCommand::Resume)
                } else {
                    r == WaitPlan::WaitUntil(t_resume, ScrubWorkerCommand::Resume)
                },
                ScrubStateV::Finished => if now_msec >= self.persisted@.time_next_run_scrub {
                    r == WaitPlan::AutoCommand(ScrubWorkerCommand::Start)
                } else {
                    r == WaitPlan::WaitUntil(
                        self.persisted@.time_next_run_scrub,
                        ScrubWorkerCommand::Start,
                    )
                },
            },
    {
        let (wait_until, command) = match &self.work {
            ScrubWorkerState::Running { .. } => {
                return WaitPlan::Proceed;
            },
            ScrubWorkerState::Paused { t_resume, .. } => (
                *t_resume,
                ScrubWorkerCommand::Resume,
            ),
            ScrubWorkerState::Finished => (
                self.persisted.time_next_run_scrub,
                ScrubWorkerCommand::Start,
            ),
        };
        if now_msec >= wait_until {
            WaitPlan::AutoCommand(command)
        } else {
            WaitPlan::WaitUntil(wait_until, command)
        }
    }

    /// A whole, consistent status snapshot: the corruption count and the
    /// tranquility always; the progress percentage while a scan is running
    /// or paused; the resume time while paused; the last and next run times
    /// while finished. Times are reported in milliseconds.
    pub fn status(&self) -> (r: WorkerStatus)
        requires
            self.wf(),
        ensures
            r.persistent_errors == Some(self.persisted@.corruptions_detected),
            r.tranquility == Some(self.persisted@.tranquility),
            match self.work@ {
                ScrubStateV::Running { iterator, .. } => {
                    &&& (r.progress matches Some(p) && p@ == percent_string(
                        stack_progress(iterator),
                    ))
                    &&& r.freeform@.len() == 0
                },
                ScrubStateV::Paused { iterator, t_resume } => {
                    &&& (r.progress matches Some(p) && p@ == percent_string(
                        stack_progress(iterator),
                    ))
                    &&& r.freeform@.len() == 1
                    &&& r.freeform@[0]@ == "Scrub paused, resumes at "@ + dec_string(
                        t_resume as nat,
                    )
                },
                ScrubStateV::Finished => {
                    &&& r.progress is None
                    &&& r.freeform@.len() == 2
                    &&& r.freeform@[0]@ == "Last scrub completed at "@ + dec_string(
                        self.persisted@.time_last_complete_scrub as nat,
                    )
                    &&& r.freeform@[1]@ == "Next scrub scheduled for "@ + dec_string(
                        self.persisted@.time_next_run_scrub as nat,
                    )
                },
            },
    {
        let mut r = WorkerStatus::none();
        r.persistent_errors = Some(self.persisted.corruptions_detected);
        r.tranquility = Some(self.persisted.tranquility);
        match &self.work {
            ScrubWorkerState::Running { iterator, .. } => {
                r.progress = Some(format_percent_fp(iterator.progress_fp()));
            },
            ScrubWorkerState::Paused { iterator, t_resume } => {
                r.progress = Some(format_percent_fp(iterator.progress_fp()));
                let mut line = String::new();
                line.append("Scrub paused, resumes at ");
                let t = u64_to_dec_string(*t_resume);
                line.append(t.as_str());
                r.freeform.push(line);
                proof {
                    assert(r.freeform@[0]@ =~= "Scrub paused, resumes at "@ + dec_string(
                        t_resume as nat,
                    ));
                }
            },
            ScrubWorkerState::Finished => {
                let mut line1 = String::new();
                line1.append("Last scrub completed at ");
                let t1 = u64_to_dec_string(self.persisted.time_last_complete_scrub);
                line1.append(t1.as_str());
                r.freeform.push(line1);
                let mut line2 = String::new();
                line2.append("Next scrub scheduled for ");
                let t2 = u64_to_dec_string(self.persisted.time_next_run_scrub);
                line2.append(t2.as_str());
                r.freeform.push(line2);
                proof {
                    assert(r.freeform@[0]@ =~= "Last scrub completed at "@ + dec_string(
                        self.persisted@.time_last_complete_scrub as nat,
                    ));
                    assert(r.freeform@[1]@ =~= "Next scrub scheduled for "@ + dec_string(
                        self.persisted@.time_next_run_scrub as nat,
                    ));
                }
            },
        }
        r
    }
}

} // verus!
