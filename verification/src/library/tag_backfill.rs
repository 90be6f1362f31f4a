//! Filling tag columns that a row predates: the single-flight slot of the
//! backfill worker, and how wide its reader pool is for a batch.

use vstd::prelude::*;

verus! {

/// The event announcing running and idle transitions of the pass.
pub const STATE_EVENT: &'static str = "tag-backfill-state-changed";

/// Parallel tag readers: a tag read is latency-bound on the share, so the
/// pool is small and fixed.
pub const READ_CONCURRENCY: usize = 4;

/// Rows per commit.
pub const COMMIT_BATCH: usize = 200;

/// Whether the pass is working; `total` is what the drain found.
#[derive(Clone, Copy, Debug, PartialEq, Eq, Structural)]
pub enum TagBackfillStatus {
    Idle,
    Running { total: usize },
}

impl Default for TagBackfillStatus {
    fn default() -> (s: TagBackfillStatus)
        ensures
            s == TagBackfillStatus::Idle,
    {
        TagBackfillStatus::Idle
    }
}

/// The worker's single-flight slot and the notes left for it.
#[derive(Debug)]
pub struct TagBackfillJob {
    pub running: bool,
    /// Work arrived while a worker was running.
    pub kicked: bool,
    pub cancel: bool,
}

impl Default for TagBackfillJob {
    fn default() -> (j: TagBackfillJob)
        ensures
            !j.running && !j.kicked && !j.cancel,
    {
        TagBackfillJob { running: false, kicked: false, cancel: false }
    }
}

impl TagBackfillJob {
    /// Request the running worker (if any) to stop after the current batch.
    pub fn cancel(&mut self)
        ensures
            final(self).cancel,
            final(self).running == old(self).running,
            final(self).kicked == old(self).kicked,
    {
        self.cancel = true;
    }

    /// A kick: claim the slot, clearing an old cancel, or leave a note for
    /// the worker holding it.
    pub fn claim(&mut self) -> (started: bool)
        ensures
            started == !old(self).running,
            final(self).running,
            final(self).kicked == (old(self).kicked || old(self).running),
            final(self).cancel == (old(self).cancel && old(self).running),
    {
        if self.running {
            self.kicked = true;
            return false;
        }
        self.running = true;
        self.cancel = false;
        true
    }

    /// A drain is starting: every kick so far is served by it.
    pub fn begin_drain(&mut self)
        ensures
            !final(self).kicked,
            final(self).running == old(self).running,
            final(self).cancel == old(self).cancel,
    {
        self.kicked = false;
    }

    /// Release the slot after a drain and say whether to take it back.
    pub fn release(&mut self) -> (again: bool)
        ensures
            again == (!old(self).cancel && old(self).kicked),
            final(self).running == again,
            final(self).cancel == old(self).cancel,
            final(self).kicked == (old(self).kicked && old(self).cancel),
            old(self).kicked ==> again || final(self).kicked,
    {
        self.running = false;
        self.claim_rerun()
    }

    /// Whether the worker that just released the slot should take it back:
    /// only for a kick it has not served, only if it is not cancelled, and
    /// only if no other kick claimed the free slot first.
    pub fn claim_rerun(&mut self) -> (again: bool)
        ensures
            again == (!old(self).cancel && old(self).kicked && !old(self).running),
            final(self).cancel == old(self).cancel,
            final(self).kicked == (old(self).kicked && old(self).cancel),
            final(self).running == (old(self).running || again),
    {
        if self.cancel {
            return false;
        }
        let kicked = self.kicked;
        self.kicked = false;
        if !kicked {
            return false;
        }
        let held = self.running;
        self.running = true;
        !held
    }
}

/// Readers for a batch of `len` rows: never more than the pool, never none.
pub fn readers_for(len: usize) -> (n: usize)
    ensures
        n == (if len < 1 {
            1
        } else if len < READ_CONCURRENCY {
            len
        } else {
            READ_CONCURRENCY
        }),
{
    let wanted = if len < 1 {
        1
    } else {
        len
    };
    if wanted < READ_CONCURRENCY {
        wanted
    } else {
        READ_CONCURRENCY
    }
}

} // verus!
