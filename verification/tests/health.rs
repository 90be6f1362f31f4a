use radiodiodj::library::check::CheckReport;
use radiodiodj::library::db::{Dismissal, HealthRow, MissingRow};
use radiodiodj::library::health::{
    build, check_is_dismissed, dismissal, dismissal_key, group_signature, missing_signature,
    normalise, DismissError, Dismissed, DuplicateGroup, FindingKind, HealthReport, MissingTrack,
};
use radiodiodj::library::listing::ScanRoot;
use radiodiodj::playlist::model::{CuePoints, Track};

#[test]
fn normalise_folds_case_and_punctuation_but_keeps_words() {
    assert_eq!(normalise("  Don't   Stop!! "), "don t stop");
    assert_eq!(normalise("DON'T STOP"), "don t stop");
    assert_eq!(normalise("Björk"), "björk");
    assert_eq!(normalise("Song (Remix)"), "song remix");
    assert_ne!(normalise("Song (Remix)"), normalise("Song"));
    assert_eq!(normalise("?!"), "");
}

fn row(id: i64, path: &str, content_type: &str, artist: &str, title: &str, fp: Option<&str>) -> HealthRow {
    HealthRow {
        track: Track {
            id,
            title: title.into(),
            artist: artist.into(),
            album: "Album".into(),
            duration_ms: 200_000,
            play_count: 0,
            genre: None,
            year: None,
            bpm_milli: None,
            sample_rate: None,
            bitrate: None,
            format: None,
            cue_points: CuePoints::none(),
            edited_fields: 0,
        },
        path: path.into(),
        content_type: content_type.into(),
        fingerprint: fp.map(|f| f.to_string()),
    }
}

fn music_root() -> Vec<ScanRoot> {
    vec![ScanRoot { content_type: "music", path: "/music".into() }]
}

fn ids(group: &DuplicateGroup) -> Vec<i64> {
    group.tracks.iter().map(|m| m.track.id).collect()
}

fn dismissed(kind: &str, key: &str, value: &str) -> Dismissal {
    Dismissal { kind: kind.into(), key: key.into(), value: value.into() }
}

#[test]
fn present_tracks_sharing_a_fingerprint_form_one_exact_group() {
    let twins = vec![
        row(1, "/music/a.mp3", "music", "X", "One", Some("v1:1")),
        row(2, "/music/b.mp3", "jingle", "Y", "Two", Some("v1:1")),
    ];
    let (report, stale) = build(&[], &music_root(), &twins, &[], &[], 1);
    assert_eq!(report.exact.len(), 1);
    assert_eq!(report.exact[0].key, "v1:1");
    assert_eq!(ids(&report.exact[0]), vec![1, 2]);
    assert_eq!(report.unhashed, 1);
    assert!(stale.is_empty());
}

#[test]
fn music_with_the_same_artist_and_title_is_a_possible_duplicate() {
    let tagged = vec![
        row(1, "/music/a.mp3", "music", "The Band", "Song", Some("v1:1")),
        row(2, "/music/b.flac", "music", "the band", "Song!", Some("v1:2")),
        row(3, "/music/c.mp3", "music", "THE BAND", "song", None),
        row(4, "/music/d.mp3", "music", "The Band", "Song (Remix)", Some("v1:3")),
    ];
    let (report, _) = build(&[], &music_root(), &[], &tagged, &[], 0);
    assert_eq!(report.possible.len(), 1);
    assert_eq!(ids(&report.possible[0]), vec![1, 2, 3]);
    assert_eq!(report.possible[0].key, "the band\u{1f}song");
    assert!(report.exact.is_empty());
}

#[test]
fn possible_duplicates_leave_out_untagged_files() {
    let tagged = vec![
        row(1, "/music/u1.mp3", "music", "Unknown", "Track", Some("v1:3")),
        row(2, "/music/u2.mp3", "music", "Unknown", "Track", Some("v1:4")),
        row(3, "/music/e1.mp3", "music", "", "Blank", Some("v1:5")),
        row(4, "/music/e2.mp3", "music", "", "Blank", Some("v1:6")),
    ];
    let (report, _) = build(&[], &music_root(), &[], &tagged, &[], 0);
    assert!(report.possible.is_empty());
}

#[test]
fn a_title_group_that_is_already_exact_is_listed_once() {
    let rows = vec![
        row(1, "/music/a.mp3", "music", "X", "One", Some("v1:1")),
        row(2, "/music/b.mp3", "music", "X", "One", Some("v1:1")),
    ];
    let (report, _) = build(&[], &music_root(), &rows, &rows, &[], 0);
    assert_eq!(report.exact.len(), 1);
    assert!(report.possible.is_empty());
}

#[test]
fn groups_are_listed_by_artist_then_title() {
    let twins = vec![
        row(5, "/music/z1.mp3", "music", "Zed", "A", Some("v1:1")),
        row(6, "/music/z2.mp3", "music", "Zed", "A", Some("v1:1")),
        row(1, "/music/a1.mp3", "music", "Abba", "B", Some("v1:2")),
        row(2, "/music/a2.mp3", "music", "Abba", "B", Some("v1:2")),
    ];
    let (report, _) = build(&[], &music_root(), &twins, &[], &[], 0);
    assert_eq!(report.exact.len(), 2);
    assert_eq!(report.exact[0].key, "v1:2");
    assert_eq!(report.exact[1].key, "v1:1");
}

fn missing(id: i64, path: &str, since: i64, play_count: i64, cued: bool) -> MissingRow {
    MissingRow {
        id,
        title: "T".into(),
        artist: "A".into(),
        path: path.into(),
        missing_since: since,
        play_count,
        has_cue_points: cued,
    }
}

#[test]
fn missing_tracks_are_listed_newest_first_with_what_a_purge_loses() {
    let rows = vec![missing(2, "/gone-root/new.mp3", 20, 0, false), missing(1, "/music/old.mp3", 10, 1, true)];
    let (report, _) = build(&rows, &music_root(), &[], &[], &[], 0);
    let listed: Vec<(i64, i64, bool, i64, bool)> = report
        .missing
        .iter()
        .map(|m| (m.id, m.missing_since, m.has_cue_points, m.play_count, m.outside_roots))
        .collect();
    assert_eq!(listed, vec![(2, 20, false, 0, true), (1, 10, true, 1, false)]);
}

#[test]
fn a_dismissed_group_lights_again_when_its_members_change() {
    let twins = vec![
        row(1, "/music/a.mp3", "music", "X", "One", Some("v1:1")),
        row(2, "/music/b.mp3", "music", "Y", "Two", Some("v1:1")),
    ];
    let (report, _) = build(&[], &music_root(), &twins, &[], &[], 0);
    let signature = group_signature(&report.exact[0]);
    assert_eq!(signature, "1,2");
    let ds = vec![dismissed("exact", "v1:1", &signature)];
    let (report, _) = build(&[], &music_root(), &twins, &[], &ds, 0);
    assert!(report.exact[0].dismissed);

    let mut more = twins;
    more.push(row(3, "/music/c.mp3", "music", "Z", "Three", Some("v1:1")));
    let (report, _) = build(&[], &music_root(), &more, &[], &ds, 0);
    assert_eq!(report.exact[0].tracks.len(), 3);
    assert!(!report.exact[0].dismissed);
}

#[test]
fn a_dismissal_is_forgotten_once_its_group_is_gone() {
    let ds = vec![dismissed("exact", "v1:1", "1,2"), dismissed("possible", "nobody\u{1f}nothing", "1,2")];
    let (_, stale) = build(&[], &music_root(), &[], &[], &ds, 0);
    assert_eq!(stale.len(), 2);
    assert!(stale.contains(&("exact".to_string(), "v1:1".to_string())));
    assert!(stale.contains(&("possible".to_string(), "nobody\u{1f}nothing".to_string())));
}

#[test]
fn dismissed_missing_tracks_light_again_when_another_goes_missing() {
    let ds = vec![dismissed("missing", "", "10")];
    let one = vec![missing(1, "/music/a.mp3", 10, 0, false)];
    let (report, stale) = build(&one, &music_root(), &[], &[], &ds, 0);
    assert!(report.missing_dismissed);
    assert!(stale.is_empty());
    let two = vec![missing(2, "/music/b.mp3", 20, 0, false), missing(1, "/music/a.mp3", 10, 0, false)];
    let (report, _) = build(&two, &music_root(), &[], &[], &ds, 0);
    assert!(!report.missing_dismissed);
}

#[test]
fn a_group_signature_lists_ids_in_ascending_order() {
    let twins = vec![
        row(12, "/music/a.mp3", "music", "X", "One", Some("v1:9")),
        row(-3, "/music/b.mp3", "music", "X", "One", Some("v1:9")),
        row(5, "/music/c.mp3", "music", "X", "One", Some("v1:9")),
    ];
    let (report, _) = build(&[], &music_root(), &twins, &[], &[], 0);
    assert_eq!(group_signature(&report.exact[0]), "-3,5,12");
}

#[test]
fn dismissing_records_what_the_finding_looks_like() {
    let rows = vec![missing(1, "/music/a.mp3", 42, 0, false)];
    let twins = vec![
        row(7, "/music/a.mp3", "music", "X", "One", Some("v1:1")),
        row(3, "/music/b.mp3", "music", "X", "One", Some("v1:1")),
    ];
    let (report, _) = build(&rows, &music_root(), &twins, &[], &[], 0);
    match dismissal(&report, &None, FindingKind::Missing, "ignored").unwrap() {
        Dismissed::Stored(d) => assert_eq!(d, dismissed("missing", "", "42")),
        other => panic!("unexpected {:?}", other),
    }
    match dismissal(&report, &None, FindingKind::Exact, "v1:1").unwrap() {
        Dismissed::Stored(d) => assert_eq!(d, dismissed("exact", "v1:1", "3,7")),
        other => panic!("unexpected {:?}", other),
    }
    assert_eq!(dismissal(&report, &None, FindingKind::Possible, "v1:1"), Err(DismissError::NoGroup));
    assert_eq!(dismissal(&report, &None, FindingKind::Check, ""), Err(DismissError::NoCheck));
    let empty = HealthReport::default();
    assert_eq!(dismissal(&empty, &None, FindingKind::Missing, ""), Err(DismissError::NoMissing));
    assert_eq!(DismissError::NoGroup.message(), "that duplicate group no longer exists");
}

#[test]
fn a_dismissed_check_stays_dismissed_until_it_finds_something_else() {
    let check = CheckReport { checked_at: 5, new: vec!["/music/x.mp3".into()], ..Default::default() };
    let sig = match dismissal(&HealthReport::default(), &Some(check.clone()), FindingKind::Check, "").unwrap() {
        Dismissed::Check(s) => s,
        other => panic!("unexpected {:?}", other),
    };
    let later = CheckReport { checked_at: 9, ..check.clone() };
    assert!(check_is_dismissed(&Some(later), Some(sig)));
    let other = CheckReport { new: vec!["/music/y.mp3".into()], ..check };
    assert!(!check_is_dismissed(&Some(other), Some(sig)));
    assert!(!check_is_dismissed(&None, Some(sig)));
}

#[test]
fn missing_tracks_share_one_dismissal_key() {
    assert_eq!(dismissal_key(FindingKind::Missing, "whatever"), "");
    assert_eq!(dismissal_key(FindingKind::Exact, "v1:1"), "v1:1");
    assert_eq!(FindingKind::Possible.as_str(), "possible");
}

#[test]
fn the_missing_signature_is_when_the_newest_track_went_missing() {
    assert_eq!(missing_signature(&vec![]), None);
    let gone = |id: i64, since: i64| MissingTrack {
        id,
        title: "t".into(),
        artist: "a".into(),
        path: format!("/m/{id}.mp3"),
        missing_since: since,
        play_count: 0,
        has_cue_points: false,
        outside_roots: false,
    };
    assert_eq!(missing_signature(&vec![gone(2, 1_700), gone(1, 900)]), Some("1700".to_string()));
    assert_eq!(missing_signature(&vec![gone(3, -5)]), Some("-5".to_string()));
}
