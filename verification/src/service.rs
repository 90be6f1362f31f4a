//! Rules the playlist service applies around the engine.

use vstd::prelude::*;

verus! {

/// The retry delay used when the configured schedule is empty.
pub const DEFAULT_BACKOFF_MS: u64 = 1000;

/// Delay for retry number `attempt`: the schedule's entry, saturating on its
/// last one so a long outage keeps retrying at a steady pace, or
/// [`DEFAULT_BACKOFF_MS`] when the schedule is empty.
pub fn backoff_ms(schedule: &[u64], attempt: usize) -> (d: u64)
    ensures
        schedule@.len() == 0 ==> d == DEFAULT_BACKOFF_MS,
        schedule@.len() > 0 && attempt < schedule@.len() ==> d == schedule@[attempt as int],
        schedule@.len() > 0 && attempt >= schedule@.len() ==> d == schedule@.last(),
{
    let n = schedule.len();
    if n == 0 {
        return DEFAULT_BACKOFF_MS;
    }
    let index = if attempt < n - 1 {
        attempt
    } else {
        n - 1
    };
    schedule[index]
}


/// The outage retry timer's guard. Every retry armed or cancelled bumps the
/// generation; a sleeping timer whose generation no longer matches has been
/// superseded and does nothing, which is how an explicit track change
/// cancels a pending outage retry.
#[derive(Clone, Copy, Debug, PartialEq, Eq, Structural)]
pub struct RetryGate {
    pub generation: u64,
}

/// The generation after one more arm or cancel; the counter wraps.
pub open spec fn bump(g: u64) -> u64 {
    if g == u64::MAX {
        0
    } else {
        (g + 1) as u64
    }
}

impl RetryGate {
    pub fn new() -> (g: RetryGate)
        ensures
            g.generation == 0,
    {
        RetryGate { generation: 0 }
    }

    /// Arm a retry: returns the generation its timer must still find when
    /// it fires.
    pub fn arm(&mut self) -> (ticket: u64)
        ensures
            final(self).generation == bump(old(self).generation),
            ticket == final(self).generation,
    {
        self.generation = if self.generation == u64::MAX {
            0
        } else {
            self.generation + 1
        };
        self.generation
    }

    /// Cancel whatever retry is pending.
    pub fn cancel(&mut self)
        ensures
            final(self).generation == bump(old(self).generation),
    {
        self.generation = if self.generation == u64::MAX {
            0
        } else {
            self.generation + 1
        };
    }

    /// Whether the timer holding `ticket` still fires.
    pub fn fires(&self, ticket: u64) -> (r: bool)
        ensures
            r == (self.generation == ticket),
    {
        self.generation == ticket
    }
}

/// A retry whose timer was followed by a cancel or by another arm never
/// fires: the generation it holds is no longer current.
pub proof fn a_superseded_retry_never_fires(ticket: u64)
    ensures
        bump(ticket) != ticket,
{
}

} // verus!
