//! The one-shot repair task. Phase 1 scans the reference-count index in
//! ascending key order, in bounded batches, and feeds every referenced hash
//! to the resync queue, so blocks that should be stored but are missing get
//! fetched. Phase 2 walks the blocks actually on disk and feeds those hashes
//! too, so blocks stored but no longer referenced get reconciled. The task
//! runs to completion and stops; its phase-1 cursor is memory only, a
//! restart rescans from the start (re-enqueueing is idempotent).
use vstd::prelude::*;

use crate::hexutil::{copy_bytes, hex_encoded, hex_encode_bytes};
use crate::textnum::{format_percent_fp, percent_string};
use crate::walker::{
    dv_of, initial_stack, min_known_cap, stack_progress, stack_wf, total_cap,
    BlockStoreIterator, DataDir,
};
use crate::worker::WorkerStatus;

verus! {

/// How many hashes one index scan reads at most. Reading a whole batch
/// before issuing any write keeps no live read cursor on the index while
/// the resync queue is written.
pub const REPAIR_BATCH_SIZE: usize = 1000;

/// The one-shot repair task: the phase-1 index cursor, and the phase-2
/// walker once the index scan is done.
pub struct RepairWorker {
    /// Phase 1 reads index keys strictly after this hash; `None` from the
    /// very start.
    pub next_start: Option<Vec<u8>>,
    /// The disk walker of phase 2; `None` while still in phase 1.
    pub block_iter: Option<BlockStoreIterator>,
}

impl RepairWorker {
    pub open spec fn wf(&self) -> bool {
        &&& match self.next_start {
            Some(ref h) => h@.len() == 32,
            None => true,
        }
        &&& match self.block_iter {
            Some(ref it) => it.wf(),
            None => true,
        }
    }

    /// A repair task at its start: phase 1, cursor at the very beginning.
    pub fn new() -> (r: Self)
        ensures
            r.wf(),
            r.next_start is None,
            r.block_iter is None,
    {
        RepairWorker { next_start: None, block_iter: None }
    }

    /// The task's display name.
    pub fn name(&self) -> (r: String)
        ensures
            r@ == "Block repair worker"@,
    {
        String::from_str("Block repair worker")
    }

    /// Still scanning the index (phase 1)?
    pub fn in_phase_1(&self) -> (r: bool)
        ensures
            r == (self.block_iter is None),
    {
        self.block_iter.is_none()
    }

    /// Record that a hash read from the index was handed to the resync
    /// queue: the cursor advances to it, so the next batch starts strictly
    /// after it.
    pub fn phase1_record_enqueued(&mut self, hash: &Vec<u8>)
        requires
            old(self).wf(),
            hash@.len() == 32,
        ensures
            final(self).wf(),
            final(self).next_start matches Some(h) && h@ == hash@,
            final(self).block_iter == old(self).block_iter,
    {
        self.next_start = Some(copy_bytes(hash));
    }

    /// An empty batch ends phase 1: the disk walker over the given
    /// directories takes over.
    pub fn phase1_finish(&mut self, dirs: &Vec<DataDir>)
        requires
            old(self).wf(),
            old(self).block_iter is None,
            dirs@.len() > 0 ==> total_cap(dv_of(dirs@), min_known_cap(dv_of(dirs@))) > 0,
            total_cap(dv_of(dirs@), min_known_cap(dv_of(dirs@))) <= u64::MAX,
        ensures
            final(self).wf(),
            final(self).next_start == old(self).next_start,
            final(self).block_iter matches Some(it) && it@ == initial_stack(dv_of(dirs@)),
    {
        self.block_iter = Some(BlockStoreIterator::new(dirs));
    }

    /// A whole, consistent status snapshot: phase 1 reports no measurable
    /// progress and shows the cursor's leading bytes for diagnostics;
    /// phase 2 mirrors the walker's progress.
    pub fn status(&self) -> (r: WorkerStatus)
        requires
            self.wf(),
        ensures
            r.persistent_errors is None,
            r.tranquility is None,
            match self.block_iter {
                Some(ref it) => {
                    &&& (r.progress matches Some(p) && p@ == percent_string(
                        stack_progress(it@),
                    ))
                    &&& r.freeform@.len() == 1
                    &&& r.freeform@[0]@ == "Currently in phase 2"@
                },
                None => {
                    &&& (r.progress matches Some(p) && p@ == percent_string(0))
                    &&& r.freeform@.len() == 1
                    &&& r.freeform@[0]@ == "Currently in phase 1, iterator position: "@
                        + hex_encoded(
                        match self.next_start {
                            Some(ref h) => h@.take(4),
                            None => Seq::empty(),
                        },
                    )
                },
            },
    {
        let mut r = WorkerStatus::none();
        match &self.block_iter {
            Some(it) => {
                r.progress = Some(format_percent_fp(it.progress_fp()));
                r.freeform.push(String::from_str("Currently in phase 2"));
            },
            None => {
                r.progress = Some(format_percent_fp(0));
                let hex = match &self.next_start {
                    Some(h) => {
                        let lead = vstd::slice::slice_subrange(h.as_slice(), 0, 4);
                        hex_encode_bytes(lead)
                    },
                    None => {
                        let empty: Vec<u8> = Vec::new();
                        hex_encode_bytes(empty.as_slice())
                    },
                };
                let mut line = String::new();
                line.append("Currently in phase 1, iterator position: ");
                line.append(hex.as_str());
                r.freeform.push(line);
                proof {
                    assert(r.freeform@[0]@ =~= "Currently in phase 1, iterator position: "@
                        + hex_encoded(
                        match self.next_start {
                            Some(ref h) => h@.take(4),
                            None => Seq::<u8>::empty(),
                        },
                    ));
                }
            },
        }
        r
    }
}

} // verus!
