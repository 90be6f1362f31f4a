use radiodiodj::library::scan_state::{ScanResult, ScanState, ScanStatus};
use radiodiodj::library::scanner::ScanOutcome;
use radiodiodj::library::tag_backfill::{readers_for, TagBackfillJob};
use radiodiodj::library::db::AnalysisJob;
use radiodiodj::library::waveform_scan::{decode_workers, next_pass, outcome, Outcome, Stop, WaveformJob};
use std::collections::HashSet;

#[test]
fn a_kick_during_the_last_drain_runs_the_worker_again() {
    let mut job = WaveformJob::default();
    job.running = true;
    job.kicked = true;
    job.running = false;

    assert!(job.claim_rerun());
    assert!(job.running, "the slot is held again");
    assert!(!job.kicked, "the kick is served");
}

#[test]
fn a_worker_nobody_kicked_stops() {
    let mut job = WaveformJob::default();
    assert!(!job.claim_rerun());
    assert!(!job.running);
}

#[test]
fn a_cancelled_worker_stops_despite_a_kick() {
    let mut job = WaveformJob::default();
    job.running = true;
    job.kicked = true;
    job.cancel();

    assert!(!job.finish(Stop::Cancelled));
    assert!(!job.running);
    assert!(job.kicked, "the kick stands for the next start");
}

#[test]
fn a_cancel_is_consumed_by_the_pass_it_stopped() {
    let mut job = WaveformJob::default();
    job.running = true;
    job.cancel();

    assert!(!job.finish(Stop::Cancelled));
    assert!(!job.cancel, "the cancel is consumed");
}

#[test]
fn a_cancel_after_the_last_drain_holds_the_worker_back() {
    let mut job = WaveformJob::default();
    job.running = true;
    job.kicked = true;
    job.cancel();

    assert!(!job.finish(Stop::Drained));
    assert!(!job.running);
}

#[test]
fn a_drained_worker_with_a_kick_drains_again() {
    let mut job = WaveformJob::default();
    job.running = true;
    job.kicked = true;

    assert!(job.finish(Stop::Drained));
    assert!(job.running, "the slot is held again");
}

#[test]
fn a_worker_that_lost_the_slot_stops() {
    let mut job = WaveformJob::default();
    job.kicked = true;
    job.running = true;

    assert!(!job.claim_rerun());
}

#[test]
fn a_kick_while_running_leaves_a_note_and_starts_nothing() {
    let mut job = WaveformJob::default();
    assert!(job.claim());
    assert!(job.running);
    assert!(!job.claim());
    assert!(job.kicked);
    job.begin_drain();
    assert!(!job.kicked);
}

#[test]
fn the_decode_pool_keeps_two_cores_free_within_bounds() {
    assert_eq!(decode_workers(1), 2);
    assert_eq!(decode_workers(4), 2);
    assert_eq!(decode_workers(7), 5);
    assert_eq!(decode_workers(64), 8);
}

#[test]
fn a_retry_wins_and_decode_errors_are_joined() {
    assert_eq!(outcome(true, &vec!["x".to_string()]), Outcome::Retry);
    assert_eq!(outcome(false, &vec![]), Outcome::Done);
    assert_eq!(
        outcome(false, &vec!["waveform: bad".to_string(), "fingerprint: worse".to_string()]),
        Outcome::Unreadable("waveform: bad; fingerprint: worse".to_string())
    );
}

#[test]
fn the_backfill_serves_a_late_kick_unless_cancelled() {
    let mut job = TagBackfillJob::default();
    assert!(job.claim());
    job.begin_drain();
    assert!(!job.claim());
    assert!(job.release());
    assert!(job.running);
    job.begin_drain();
    job.cancel();
    assert!(!job.claim());
    assert!(!job.release());
    assert!(job.kicked);
}

#[test]
fn the_backfill_reads_with_a_small_pool() {
    assert_eq!(readers_for(0), 1);
    assert_eq!(readers_for(3), 3);
    assert_eq!(readers_for(200), 4);
}

#[test]
fn a_scan_cannot_start_twice() {
    let mut state = ScanState::default();
    assert!(!state.is_running());
    assert!(!state.start().already_running);
    assert!(state.start().already_running);
    state.progress(3, 10);
    assert_eq!(state.status(), ScanStatus::Running { processed: 3, total: 10 });
}

#[test]
fn a_scan_ends_idle_canceled_or_failed() {
    let mut state = ScanState::default();
    state.start();
    let done = ScanOutcome { total: 5, added: 2, canceled: false, missing: 1, reattached: 1, replaced: 0 };
    state.finish(Ok(done));
    assert_eq!(
        state.status(),
        ScanStatus::Idle { last_result: Some(ScanResult { total: 5, added: 2, reattached: 1, missing: 1 }) }
    );
    state.start();
    state.finish(Ok(ScanOutcome { canceled: true, ..done }));
    assert_eq!(state.status(), ScanStatus::Canceled { processed: 5, total: 5, added: 2 });
    state.start();
    state.finish(Err("disk on fire".to_string()));
    assert_eq!(state.status(), ScanStatus::Error { message: "disk on fire".to_string() });
}

fn analysis_job(id: i64) -> AnalysisJob {
    AnalysisJob {
        id,
        path: format!("/music/{id}.wav"),
        mtime: Some(1),
        content_type: "music".to_string(),
        needs_waveform: true,
        needs_fingerprint: false,
        needs_loudness: false,
        needs_auto_cue: false,
        needs_auto_cue_levels: false,
    }
}

#[test]
fn the_drain_loop_stops_on_cancel_on_a_failed_query_and_on_nothing_left() {
    let failed: HashSet<i64> = [2].into_iter().collect();
    assert_eq!(next_pass(true, Some(vec![analysis_job(1)]), &failed), Err(Stop::Cancelled));
    assert_eq!(next_pass(false, None, &failed), Err(Stop::Drained));
    assert_eq!(next_pass(false, Some(vec![analysis_job(2)]), &failed), Err(Stop::Drained));
    assert_eq!(next_pass(false, Some(vec![]), &failed), Err(Stop::Drained));
    let pass = next_pass(false, Some(vec![analysis_job(1), analysis_job(2), analysis_job(3)]), &failed).unwrap();
    assert_eq!(pass.iter().map(|j| j.id).collect::<Vec<_>>(), vec![1, 3]);
}
