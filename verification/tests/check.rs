use radiodiodj::library::check::{check, CheckReport, CheckSchedule, Wake, IDLE_POLL_MS};
use radiodiodj::library::scan_state::ScanStatus;
use radiodiodj::library::db::IndexRow;
use radiodiodj::library::listing::{list_roots, Enumeration, Found, ScanRoot};
use radiodiodj::library::scanner::{plan, Plan};

#[test]
fn the_signature_ignores_when_the_check_ran() {
    let a = CheckReport { checked_at: 1, new: vec!["x".into()], ..Default::default() };
    let b = CheckReport { checked_at: 2, ..a.clone() };
    assert_eq!(a.signature(), b.signature());
    let c = CheckReport { new: vec!["y".into()], ..a.clone() };
    assert_ne!(a.signature(), c.signature());
}

fn row(id: i64, path: &str, mtime: i64, missing_since: Option<i64>) -> IndexRow {
    IndexRow {
        id,
        path: path.into(),
        content_type: "music".into(),
        mtime: Some(mtime),
        missing_since,
        fingerprint: None,
    }
}

fn music_root(path: &str) -> ScanRoot {
    ScanRoot { content_type: "music", path: path.into() }
}

fn listed(files: &[&str], complete: bool) -> Option<Enumeration> {
    Some(Enumeration { files: files.iter().map(|f| f.to_string()).collect(), complete })
}

#[test]
fn a_check_reports_new_changed_and_gone_files_sorted() {
    let roots = vec![music_root("/music")];
    let listing = list_roots(&roots, vec![listed(&["/music/z.mp3", "/music/a.mp3", "/music/b.mp3"], true)]);
    let index = vec![
        row(1, "/music/b.mp3", 10, None),
        row(2, "/music/a.mp3", 10, None),
        row(3, "/music/gone.mp3", 10, None),
        row(4, "/elsewhere/x.mp3", 10, None),
    ];
    let mtime_of = |f: &Found| if f.path == "/music/b.mp3" { 11 } else { 10 };
    let report = check(&listing, &index, &roots, 77, || false, mtime_of).unwrap();
    assert_eq!(report.checked_at, 77);
    assert_eq!(report.new, vec!["/music/z.mp3".to_string()]);
    assert_eq!(report.changed, vec!["/music/b.mp3".to_string()]);
    assert_eq!(report.gone, vec!["/music/gone.mp3".to_string()]);
    assert_eq!(report.unrooted, vec!["/elsewhere/x.mp3".to_string()]);
    assert!(report.has_changes());
}

#[test]
fn an_unchanged_library_reports_nothing() {
    let roots = vec![music_root("/music")];
    let listing = list_roots(&roots, vec![listed(&["/music/a.wav", "/music/b.wav"], true)]);
    let index = vec![row(1, "/music/a.wav", 10, None), row(2, "/music/b.wav", 10, None)];
    let report = check(&listing, &index, &roots, 1, || false, |_| 10).unwrap();
    assert!(!report.has_changes(), "{report:?}");
    assert!(report.unreachable.is_empty() && report.partial.is_empty());
}

#[test]
fn a_file_back_at_a_missing_tracks_path_is_new() {
    let roots = vec![music_root("/music")];
    let listing = list_roots(&roots, vec![listed(&["/music/a.wav"], true)]);
    let index = vec![row(1, "/music/a.wav", 10, Some(1))];
    let report = check(&listing, &index, &roots, 1, || false, |_| 10).unwrap();
    assert_eq!(report.new, vec!["/music/a.wav".to_string()]);
}

#[test]
fn an_unreachable_root_is_reported_and_its_tracks_are_not_gone() {
    let roots = vec![music_root("/music")];
    let listing = list_roots(&roots, vec![None]);
    let index = vec![row(1, "/music/a.wav", 10, None)];
    let report = check(&listing, &index, &roots, 1, || false, |_| 10).unwrap();
    assert_eq!(report.unreachable, vec!["/music".to_string()]);
    assert!(!report.has_changes(), "{report:?}");
}

#[test]
fn a_partially_readable_root_marks_nothing_gone() {
    let roots = vec![music_root("/music")];
    let listing = list_roots(&roots, vec![listed(&[], false)]);
    let index = vec![row(1, "/music/a.wav", 10, None)];
    let report = check(&listing, &index, &roots, 1, || false, |_| 10).unwrap();
    assert_eq!(report.partial.len(), 1);
    assert!(report.gone.is_empty(), "{report:?}");
}

#[test]
fn tracks_outside_every_root_are_reported_separately() {
    let roots = vec![music_root("/other")];
    let listing = list_roots(&roots, vec![listed(&[], true)]);
    let index = vec![row(1, "/music/a.wav", 10, None)];
    let report = check(&listing, &index, &roots, 1, || false, |_| 10).unwrap();
    assert!(report.gone.is_empty());
    assert_eq!(report.unrooted, vec!["/music/a.wav".to_string()]);
}

#[test]
fn a_canceled_check_reports_nothing() {
    let roots = vec![music_root("/music")];
    let listing = list_roots(&roots, vec![listed(&["/music/a.wav"], true)]);
    let index = vec![row(1, "/music/a.wav", 10, None)];
    assert!(check(&listing, &index, &roots, 1, || true, |_| 10).is_none());
}

#[test]
fn roots_are_matched_by_whole_components() {
    let roots = vec![music_root("/Music")];
    let listing = list_roots(&roots, vec![listed(&[], true)]);
    let index = vec![row(1, "/Music2/a.mp3", 10, None)];
    let report = check(&listing, &index, &roots, 1, || false, |_| 10).unwrap();
    assert_eq!(report.unrooted, vec!["/Music2/a.mp3".to_string()]);
    assert!(report.gone.is_empty());
}

#[test]
fn a_scan_transition_discards_the_check_in_flight() {
    let mut s = CheckSchedule::new();
    let started = s.begin(1_000, false).unwrap();
    assert!(s.is_current(started));
    assert!(!s.on_scan_event(&ScanStatus::Running { processed: 0, total: 3 }, 1_500));
    assert!(s.cancel);
    assert!(!s.is_current(started));
}

#[test]
fn no_check_runs_alongside_a_scan() {
    let mut s = CheckSchedule::new();
    assert_eq!(s.begin(7, true), None);
    assert_eq!(s.last, Some(7));
}

#[test]
fn a_completed_scan_makes_the_report_moot() {
    let mut s = CheckSchedule::new();
    assert!(s.on_scan_event(&ScanStatus::Idle { last_result: None }, 42));
    assert_eq!(s.last, Some(42));
    assert_eq!(s.generation, 1);
}

#[test]
fn a_canceled_scan_requests_a_check() {
    let mut s = CheckSchedule::new();
    s.on_scan_event(&ScanStatus::Canceled { processed: 1, total: 2, added: 0 }, 5);
    assert_eq!(s.next_wake(0, 5), Wake::Run);
    assert!(!s.now_requested);
    assert_eq!(s.next_wake(0, 5), Wake::Sleep(IDLE_POLL_MS));
}

#[test]
fn the_timer_waits_out_the_interval() {
    let mut s = CheckSchedule::new();
    assert_eq!(s.next_wake(1, 0), Wake::Run);
    s.begin(10_000, false);
    assert_eq!(s.next_wake(1, 30_000), Wake::Sleep(40_000));
    assert_eq!(s.next_wake(1, 70_000), Wake::Run);
    assert_eq!(s.next_wake(5, 10_000), Wake::Sleep(IDLE_POLL_MS));
}

#[test]
fn a_check_agrees_with_the_scan_that_follows_it() {
    let roots = vec![music_root("/music")];
    let listing = list_roots(&roots, vec![listed(&["/music/b.wav", "/music/c.wav"], true)]);
    let index = vec![row(1, "/music/a.wav", 10, None), row(2, "/music/b.wav", 10, None)];
    let report = check(&listing, &index, &roots, 1, || false, |_| 10).unwrap();
    assert_eq!(report.new, vec!["/music/c.wav".to_string()]);
    assert_eq!(report.gone, vec!["/music/a.wav".to_string()]);
    // The scan plans the same files the same way, and marks the same rows gone.
    for file in &listing.found {
        let planned = plan(file, 10, &index, &listing.seen, true);
        match file.path.as_str() {
            "/music/c.wav" => assert!(matches!(planned, Plan::Unknown { .. })),
            _ => assert_eq!(planned, Plan::Skip),
        }
    }
    let gone: Vec<i64> = listing.gone(&index, &roots).iter().map(|r| r.id).collect();
    assert_eq!(gone.len(), report.gone.len());
    assert_eq!(gone, vec![1]);
}

#[test]
fn a_scan_marks_missing_only_the_gone_rows_of_reachable_roots() {
    let roots = vec![music_root("/music"), music_root("/share")];
    let listing = list_roots(&roots, vec![listed(&["/music/b.wav"], true), None]);
    let index = vec![
        row(1, "/music/a.wav", 10, None),
        row(2, "/music/b.wav", 10, None),
        row(3, "/share/c.wav", 10, None),
        row(4, "/elsewhere/d.wav", 10, None),
        row(5, "/music/e.wav", 10, Some(7)),
    ];
    assert_eq!(listing.gone_ids(&index, &roots), vec![1, 4]);
}
