//! Rate limiter for a repeating unit of work: it accounts the wall-clock
//! cost of recent steps in a sliding window and computes an enforced idle
//! pause proportional to the average cost times the tranquility setting, so
//! that a higher tranquility bounds average resource usage more tightly.
//! Tranquility zero means no throttling.
use vstd::prelude::*;

use crate::worker::WorkerState;

verus! {

/// Sum of a sequence of durations, as a mathematical integer.
pub open spec fn seq_sum(s: Seq<u64>) -> int
    decreases s.len(),
{
    if s.len() == 0 {
        0
    } else {
        seq_sum(s.drop_last()) + s.last()
    }
}

pub proof fn lemma_seq_sum_nonneg(s: Seq<u64>)
    ensures
        seq_sum(s) >= 0,
    decreases s.len(),
{
    if s.len() > 0 {
        lemma_seq_sum_nonneg(s.drop_last());
    }
}

pub proof fn lemma_seq_sum_skip_first(s: Seq<u64>)
    requires
        s.len() > 0,
    ensures
        seq_sum(s) == s[0] + seq_sum(s.skip(1)),
    decreases s.len(),
{
    if s.len() == 1 {
        assert(s.skip(1) =~= Seq::empty());
        assert(seq_sum(s.skip(1)) == 0);
        assert(s.drop_last() =~= Seq::empty());
        assert(seq_sum(s) == seq_sum(s.drop_last()) + s.last());
        assert(s.last() == s[0]);
        assert(seq_sum(s) == s[0] + seq_sum(s.skip(1)));
    } else {
        assert(s.drop_last().skip(1) =~= s.skip(1).drop_last());
        lemma_seq_sum_skip_first(s.drop_last());
        assert(s.drop_last()[0] == s[0]);
        assert(s.skip(1).last() == s.last());
        assert(seq_sum(s) == seq_sum(s.drop_last()) + s.last());
        assert(s.skip(1).len() > 0);
        assert(seq_sum(s.skip(1)) == seq_sum(s.skip(1).drop_last()) + s.skip(1).last());
        assert(seq_sum(s.drop_last()) == s[0] + seq_sum(s.skip(1).drop_last()));
    }
}

/// Bound on each observation: at most `len * u64::MAX`.
pub proof fn lemma_seq_sum_bound(s: Seq<u64>)
    ensures
        seq_sum(s) <= s.len() * (u64::MAX as int),
    decreases s.len(),
{
    if s.len() > 0 {
        lemma_seq_sum_bound(s.drop_last());
        assert((s.len() - 1) * (u64::MAX as int) + (u64::MAX as int) == s.len() * (
        u64::MAX as int)) by (nonlinear_arith);
    }
}

/// Transient accounting of the wall-clock cost of recent work steps.
pub struct Tranquilizer {
    /// Durations of the most recent steps, in milliseconds, oldest first.
    observations: Vec<u64>,
    /// Sum of `observations`, kept alongside.
    sum: u128,
    /// How many observations the window keeps at most.
    max_observations: usize,
    /// When the current step began, in milliseconds; set by `reset`.
    last_step_begin: u64,
}

/// Mathematical image of the rate limiter.
pub struct TranquilizerV {
    pub observations: Seq<u64>,
    pub max_observations: int,
    pub last_step_begin: u64,
}

impl View for Tranquilizer {
    type V = TranquilizerV;

    closed spec fn view(&self) -> TranquilizerV {
        TranquilizerV {
            observations: self.observations@,
            max_observations: self.max_observations as int,
            last_step_begin: self.last_step_begin,
        }
    }
}

/// The idle pause owed after a step: window sum times tranquility over
/// window length, saturated to the integer range of a duration.
pub open spec fn spec_delay(observations: Seq<u64>, tranquility: u32) -> u64 {
    if observations.len() == 0 {
        0
    } else {
        let d = seq_sum(observations) * (tranquility as int) / (observations.len() as int);
        if d > u64::MAX as int {
            u64::MAX
        } else {
            d as u64
        }
    }
}

impl Tranquilizer {
    pub closed spec fn wf(&self) -> bool {
        &&& self.sum == seq_sum(self@.observations)
        &&& self@.observations.len() <= self@.max_observations
        &&& 0 < self@.max_observations <= 65536
    }

    /// A fresh rate limiter whose window keeps the given number of
    /// observations. The window is kept small so the accounting stays in
    /// integer range.
    pub fn new(max_observations: usize) -> (r: Self)
        requires
            0 < max_observations <= 65536,
        ensures
            r.wf(),
            r@.observations.len() == 0,
            r@.max_observations == max_observations,
    {
        Tranquilizer {
            observations: Vec::new(),
            sum: 0,
            max_observations,
            last_step_begin: 0,
        }
    }

    /// Mark the beginning of a work step: cost accounting for the step
    /// starts now.
    pub fn reset(&mut self, now_msec: u64)
        ensures
            final(self)@.observations == old(self)@.observations,
            final(self)@.max_observations == old(self)@.max_observations,
            final(self)@.last_step_begin == now_msec,
            old(self).wf() ==> final(self).wf(),
    {
        self.last_step_begin = now_msec;
    }

    /// Account the step that began at the last `reset` as finished now, and
    /// return the idle pause owed: the recent average step cost scaled by
    /// `tranquility` (zero means no pause).
    pub fn tranquilize(&mut self, now_msec: u64, tranquility: u32) -> (delay: u64)
        requires
            old(self).wf(),
            now_msec >= old(self)@.last_step_begin,
        ensures
            final(self).wf(),
            final(self)@.max_observations == old(self)@.max_observations,
            final(self)@.last_step_begin == old(self)@.last_step_begin,
            final(self)@.observations == {
                let pushed = old(self)@.observations.push(
                    (now_msec - old(self)@.last_step_begin) as u64,
                );
                if pushed.len() > old(self)@.max_observations {
                    pushed.skip(1)
                } else {
                    pushed
                }
            },
            delay == spec_delay(final(self)@.observations, tranquility),
    {
        let observation = now_msec - self.last_step_begin;
        proof {
            lemma_seq_sum_bound(self@.observations);
        }
        self.observations.push(observation);
        proof {
            assert(self.observations@.drop_last() =~= old(self)@.observations);
        }
        self.sum = self.sum + observation as u128;
        assert(self.sum == seq_sum(self@.observations));
        if self.observations.len() > self.max_observations {
            proof {
                lemma_seq_sum_skip_first(self@.observations);
                lemma_seq_sum_nonneg(self@.observations.skip(1));
            }
            let first = self.observations.remove(0);
            self.sum = self.sum - first as u128;
            proof {
                assert(old(self)@.observations.push(observation).skip(1) =~= self@.observations);
            }
        }
        proof {
            lemma_seq_sum_bound(self@.observations);
            lemma_seq_sum_nonneg(self@.observations);
        }
        let len = self.observations.len();
        if len == 0 {
            0
        } else {
            proof {
                assert(self.sum <= (len as int) * (u64::MAX as int));
                assert((len as int) <= 65536);
                assert((len as int) * (u64::MAX as int) <= 65536 * (u64::MAX as int))
                    by (nonlinear_arith)
                    requires
                        0 < (len as int) <= 65536,
                ;
                assert((self.sum as int) * (tranquility as int) <= (u128::MAX as int))
                    by (nonlinear_arith)
                    requires
                        0 <= (self.sum as int) <= 65536 * (u64::MAX as int),
                        0 <= (tranquility as int) <= u32::MAX as int,
                ;
            }
            let q: u128 = self.sum * (tranquility as u128) / (len as u128);
            if q > (u64::MAX as u128) {
                u64::MAX
            } else {
                q as u64
            }
        }
    }

    /// Account the step and report back to the scheduler: throttled by the
    /// owed pause when there is one, else ready for more work at once.
    pub fn tranquilize_worker(&mut self, now_msec: u64, tranquility: u32) -> (r: WorkerState)
        requires
            old(self).wf(),
            now_msec >= old(self)@.last_step_begin,
        ensures
            final(self).wf(),
            final(self)@.max_observations == old(self)@.max_observations,
            ({
                let pushed = old(self)@.observations.push(
                    (now_msec - old(self)@.last_step_begin) as u64,
                );
                let obs = if pushed.len() > old(self)@.max_observations {
                    pushed.skip(1)
                } else {
                    pushed
                };
                &&& final(self)@.observations == obs
                &&& r == (if spec_delay(obs, tranquility) > 0 {
                    WorkerState::Throttled(spec_delay(obs, tranquility))
                } else {
                    WorkerState::Busy
                })
            }),
    {
        let delay = self.tranquilize(now_msec, tranquility);
        if delay > 0 {
            WorkerState::Throttled(delay)
        } else {
            WorkerState::Busy
        }
    }

    /// Forget all accounted work: the task is idle, no pause is owed.
    pub fn clear(&mut self)
        ensures
            final(self)@.observations.len() == 0,
            final(self)@.max_observations == old(self)@.max_observations,
            old(self).wf() ==> final(self).wf(),
    {
        proof {
            assert(seq_sum(Seq::<u64>::empty()) == 0);
        }
        self.observations.clear();
        self.sum = 0;
    }
}

} // verus!
