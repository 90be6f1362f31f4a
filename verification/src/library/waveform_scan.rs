//! The background analysis pass: the single-flight slot its worker holds,
//! how a cancel and a kick are served, how wide the decode pool is, and what
//! one track's analysis came to. The decoding and the thread plumbing belong
//! to the application.

use std::collections::HashSet;
use vstd::prelude::*;

use super::db::AnalysisJob;
use crate::playlist::model::CuePoints;
use crate::text::{push_text, views};

verus! {

broadcast use vstd::std_specs::hash::group_hash_axioms;

/// The event announcing a track's committed automatic cue points, with the
/// whole stored set.
pub const CUE_POINTS_READY_EVENT: &'static str = "cue-points-ready";

/// Hard ceiling on parallel decode workers.
pub const MAX_CONCURRENCY: usize = 8;

/// Cores held back from the decode pool so playback and the UI stay
/// responsive when a backfill runs mid-set.
pub const RESERVED_CORES: usize = 2;

/// Progress of the background pass, cumulative across all libraries.
#[derive(Clone, Copy, Debug, PartialEq, Eq, Structural)]
pub enum WaveformStatus {
    Idle,
    Running { processed: usize, total: usize },
}

impl Default for WaveformStatus {
    fn default() -> (s: WaveformStatus)
        ensures
            s == WaveformStatus::Idle,
    {
        WaveformStatus::Idle
    }
}

/// The automatic cue points a track was given, as announced to every holder
/// of a copy of it.
#[derive(Clone, Copy, Debug, PartialEq, Eq, Structural)]
pub struct CuePointsReady {
    pub id: i64,
    pub cue_points: CuePoints,
}

/// Why a drain loop ended.
#[derive(Clone, Copy, Debug, PartialEq, Eq, Structural)]
pub enum Stop {
    /// Nothing left to analyse, or the work list could not be read.
    Drained,
    /// The operator stopped the pass.
    Cancelled,
}

/// The worker's single-flight slot and the two notes left for it.
#[derive(Debug)]
pub struct WaveformJob {
    /// A worker holds the slot.
    pub running: bool,
    /// Work arrived while a worker was running.
    pub kicked: bool,
    /// The operator asked the running pass to stop.
    pub cancel: bool,
    pub status: WaveformStatus,
}

impl Default for WaveformJob {
    fn default() -> (j: WaveformJob)
        ensures
            !j.running && !j.kicked && !j.cancel,
            j.status == WaveformStatus::Idle,
    {
        WaveformJob { running: false, kicked: false, cancel: false, status: WaveformStatus::Idle }
    }
}

impl WaveformJob {
    /// Current progress, for hydration when the UI mounts mid-run.
    pub fn status(&self) -> (s: WaveformStatus)
        ensures
            s == self.status,
    {
        self.status
    }

    pub fn set_status(&mut self, next: WaveformStatus)
        ensures
            final(self).status == next,
            final(self).running == old(self).running,
            final(self).kicked == old(self).kicked,
            final(self).cancel == old(self).cancel,
    {
        self.status = next;
    }

    /// Request the running worker (if any) to stop after the current file.
    pub fn cancel(&mut self)
        ensures
            final(self).cancel,
            final(self).running == old(self).running,
            final(self).kicked == old(self).kicked,
            final(self).status == old(self).status,
    {
        self.cancel = true;
    }

    /// A kick: claim the single-flight slot and say so, clearing any old
    /// cancel for the fresh pass; or, with the slot held, leave a note for
    /// the worker holding it.
    pub fn claim(&mut self) -> (started: bool)
        ensures
            started == !old(self).running,
            final(self).running,
            final(self).kicked == (old(self).kicked || old(self).running),
            final(self).cancel == (old(self).cancel && old(self).running),
            final(self).status == old(self).status,
    {
        if self.running {
            self.kicked = true;
            return false;
        }
        self.running = true;
        self.cancel = false;
        true
    }

    /// A drain is starting: every kick so far is served by it.
    pub fn begin_drain(&mut self)
        ensures
            !final(self).kicked,
            final(self).running == old(self).running,
            final(self).cancel == old(self).cancel,
            final(self).status == old(self).status,
    {
        self.kicked = false;
    }

    /// Release the slot after a drain and say whether to take it back and
    /// drain again. A cancel is consumed here, by the pass it stopped.
    pub fn finish(&mut self, stop: Stop) -> (again: bool)
        ensures
            stop == Stop::Cancelled ==> !again && !final(self).cancel && !final(self).running
                && final(self).kicked == old(self).kicked,
            stop == Stop::Drained ==> again == (!old(self).cancel && old(self).kicked)
                && final(self).running == again && final(self).cancel == old(self).cancel
                && final(self).kicked == (old(self).kicked && old(self).cancel),
            // A kick is never lost: it is served by another drain, or it
            // stands for the next start.
            old(self).kicked ==> again || final(self).kicked,
            final(self).status == old(self).status,
    {
        let cancelled = stop == Stop::Cancelled;
        if cancelled {
            self.cancel = false;
        }
        self.running = false;
        !cancelled && self.claim_rerun()
    }

    /// Whether the worker that has just released the slot should take it
    /// back: only for a kick it has not served, only if it is not cancelled,
    /// and only if no other kick claimed the free slot first.
    pub fn claim_rerun(&mut self) -> (again: bool)
        ensures
            again == (!old(self).cancel && old(self).kicked && !old(self).running),
            final(self).cancel == old(self).cancel,
            final(self).kicked == (old(self).kicked && old(self).cancel),
            final(self).running == (old(self).running || again),
            final(self).status == old(self).status,
    {
        if self.cancel {
            return false;
        }
        let kicked = self.kicked;
        self.kicked = false;
        if !kicked {
            return false;
        }
        let held = self.running;
        self.running = true;
        !held
    }
}

/// Parallel decode workers for a machine with `cores` cores: the cores
/// minus the reserve, never fewer than two, never more than the ceiling.
pub open spec fn spec_decode_workers(cores: usize) -> usize {
    let spare: int = if cores >= RESERVED_CORES {
        cores - RESERVED_CORES
    } else {
        0
    };
    if spare < 2 {
        2
    } else if spare > MAX_CONCURRENCY {
        MAX_CONCURRENCY
    } else {
        spare as usize
    }
}

pub fn decode_workers(cores: usize) -> (n: usize)
    ensures
        n == spec_decode_workers(cores),
        2 <= n <= MAX_CONCURRENCY,
{
    let spare = cores.saturating_sub(RESERVED_CORES);
    if spare < 2 {
        2
    } else if spare > MAX_CONCURRENCY {
        MAX_CONCURRENCY
    } else {
        spare
    }
}

/// The jobs of `missing` not skipped for this run, in order.
pub fn pending_jobs(missing: Vec<AnalysisJob>, failed: &HashSet<i64>) -> (p: Vec<AnalysisJob>)
    ensures
        p@ == missing@.filter(|j: AnalysisJob| !failed@.contains(j.id)),
{
    broadcast use vstd::seq::Seq::lemma_filter_push;

    let ghost keep = |j: AnalysisJob| !failed@.contains(j.id);
    let mut p: Vec<AnalysisJob> = Vec::new();
    let mut src = missing;
    let ghost all = src@;
    let mut rev: Vec<AnalysisJob> = Vec::new();
    while src.len() > 0
        invariant
            src@ + rev@.reverse() == all,
        decreases src@.len(),
    {
        let ghost before = src@;
        let ghost old_rev = rev@;
        let j = src.pop().unwrap();
        rev.push(j);
        proof {
            assert(before =~= src@.push(j));
            assert(rev@.reverse() =~= seq![j] + old_rev.reverse());
            assert(src@ + rev@.reverse() =~= before + old_rev.reverse());
        }
    }
    proof {
        assert(rev@.reverse() =~= all);
        assert(all.skip(0) =~= all);
        assert(p@ =~= all.take(0).filter(keep));
    }
    while rev.len() > 0
        invariant
            keep == (|j: AnalysisJob| !failed@.contains(j.id)),
            rev@.reverse() == all.skip(all.len() - rev@.len()),
            p@ == all.take(all.len() - rev@.len()).filter(keep),
            rev@.len() <= all.len(),
        decreases rev@.len(),
    {
        let ghost n = all.len() - rev@.len();
        let ghost before = rev@;
        let j = rev.pop().unwrap();
        proof {
            assert(before =~= rev@.push(j));
            assert(before.reverse() =~= seq![j] + rev@.reverse());
            assert(before.reverse()[0] == j);
            assert(all.skip(n)[0] == all[n]);
            assert(rev@.reverse() =~= all.skip(n + 1)) by {
                assert(rev@.reverse() =~= before.reverse().skip(1));
                assert(all.skip(n + 1) =~= all.skip(n).skip(1));
            }
            assert(all.take(n + 1) =~= all.take(n).push(j));
            all.take(n).lemma_filter_push(j, keep);
        }
        if !failed.contains(&j.id) {
            p.push(j);
        }
    }
    proof {
        assert(all.take(all.len() as int) =~= all);
    }
    p
}

/// What analysing one track came to.
#[derive(Debug, PartialEq)]
pub enum Outcome {
    Done,
    /// The file could not be read, or a result could not be stored. Worth
    /// another try on the next run.
    Retry,
    /// The file was read but cannot be decoded; the errors, joined.
    Unreadable(String),
}

/// One turn of the drain loop: stop when the operator cancelled; else read
/// the work list, which `missing` is (`None` when the query failed, which
/// ends the pass as drained); else work on what was not skipped this run,
/// `failed`, and stop as drained once nothing is left.
pub fn next_pass(cancelled: bool, missing: Option<Vec<AnalysisJob>>, failed: &HashSet<i64>) -> (r: Result<
    Vec<AnalysisJob>,
    Stop,
>)
    ensures
        cancelled ==> (r matches Err(s) && s == Stop::Cancelled),
        !cancelled && missing is None ==> (r matches Err(s) && s == Stop::Drained),
        (!cancelled && missing is Some) ==> (match r {
            Ok(p) => p@ == missing->0@.filter(|j: AnalysisJob| !failed@.contains(j.id)) && p@.len() > 0,
            Err(s) => s == Stop::Drained && missing->0@.filter(|j: AnalysisJob| !failed@.contains(j.id)).len()
                == 0,
        }),
{
    if cancelled {
        return Err(Stop::Cancelled);
    }
    match missing {
        None => Err(Stop::Drained),
        Some(m) => {
            let pending = pending_jobs(m, failed);
            if pending.len() == 0 {
                Err(Stop::Drained)
            } else {
                Ok(pending)
            }
        },
    }
}

/// `errors` joined by `; `.
pub open spec fn joined_errors(errors: Seq<Seq<char>>) -> Seq<char>
    decreases errors.len(),
{
    if errors.len() == 0 {
        Seq::empty()
    } else if errors.len() == 1 {
        errors[0]
    } else {
        joined_errors(errors.drop_last()) + seq![';', ' '] + errors.last()
    }
}

/// A retry wins over everything; otherwise the track is done unless
/// something could not be decoded.
pub fn outcome(retry: bool, errors: &Vec<String>) -> (o: Outcome)
    ensures
        retry ==> o == Outcome::Retry,
        !retry && errors@.len() == 0 ==> o == Outcome::Done,
        !retry && errors@.len() > 0 ==> (o matches Outcome::Unreadable(m) && m@ == joined_errors(
            views(errors@),
        )),
{
    if retry {
        return Outcome::Retry;
    }
    if errors.len() == 0 {
        return Outcome::Done;
    }
    let mut m = String::new();
    let mut i: usize = 0;
    while i < errors.len()
        invariant
            i <= errors@.len(),
            m@ == joined_errors(views(errors@).take(i as int)),
        decreases errors@.len() - i,
    {
        if i > 0 {
            push_text(&mut m, "; ");
        }
        push_text(&mut m, errors[i].as_str());
        proof {
            reveal_strlit("; ");
            let t = views(errors@).take(i as int + 1);
            assert(t.drop_last() =~= views(errors@).take(i as int));
            if i == 0 {
                assert(m@ =~= t[0]);
            } else {
                assert(m@ =~= joined_errors(t.drop_last()) + seq![';', ' '] + t.last());
            }
        }
        i = i + 1;
    }
    proof {
        assert(views(errors@).take(errors@.len() as int) =~= views(errors@));
    }
    Outcome::Unreadable(m)
}

/// A track needs its audio decoded for anything but a fingerprint.
pub open spec fn spec_needs_decode(job: AnalysisJob) -> bool {
    job.needs_waveform || job.needs_loudness || job.needs_auto_cue || job.needs_auto_cue_levels
}

pub fn needs_decode(job: &AnalysisJob) -> (r: bool)
    ensures
        r == spec_needs_decode(*job),
{
    job.needs_waveform || job.needs_loudness || job.needs_auto_cue || job.needs_auto_cue_levels
}

} // verus!
