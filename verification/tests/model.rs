use radiodiodj::playlist::model::{CuePoints, PlaylistItem, Track};
use radiodiodj::persist::session::SessionPlaylistItem;

fn track(id: i64) -> Track {
    Track {
        id,
        title: format!("t{}", id),
        artist: "a".into(),
        album: "al".into(),
        duration_ms: 100_000,
        play_count: 0,
        genre: None,
        year: None,
        bpm_milli: None,
        sample_rate: None,
        bitrate: None,
        format: None,
        cue_points: CuePoints::none(),
        edited_fields: 0,
    }
}

fn session_track(id: i64) -> SessionPlaylistItem {
    SessionPlaylistItem::Track {
        id,
        cue_override: None,
    }
}

/// Stands in for the library: ids 1..=9 exist, anything else was pruned.
fn library(id: i64) -> Option<Track> {
    (1..=9).contains(&id).then(|| track(id))
}

fn cue_override(item: &PlaylistItem) -> Option<CuePoints> {
    match item {
        PlaylistItem::Track { cue_override, .. } => *cue_override,
        PlaylistItem::Stop => None,
    }
}

fn ids(items: &[PlaylistItem]) -> Vec<Option<i64>> {
    items.iter().map(|i| i.as_track().map(|t| t.id)).collect()
}

#[test]
fn from_session_rebuilds_items_including_stop_markers() {
    let items = vec![
        session_track(1),
        SessionPlaylistItem::Stop,
        session_track(2),
    ];
    let rebuilt = PlaylistItem::from_session(&items, &[], library);
    assert_eq!(ids(&rebuilt), vec![Some(1), None, Some(2)]);
}

#[test]
fn from_session_falls_back_to_legacy_ids_when_items_are_absent() {
    let rebuilt = PlaylistItem::from_session(&[], &[3, 4], library);
    assert_eq!(ids(&rebuilt), vec![Some(3), Some(4)]);
}

#[test]
fn from_session_drops_ids_the_library_no_longer_has() {
    let items = vec![session_track(1), session_track(99), session_track(2)];
    assert_eq!(
        ids(&PlaylistItem::from_session(&items, &[], library)),
        vec![Some(1), Some(2)]
    );
    assert_eq!(
        ids(&PlaylistItem::from_session(&[], &[1, 99, 2], library)),
        vec![Some(1), Some(2)]
    );
}

#[test]
fn from_session_restores_item_overrides() {
    let points = CuePoints {
        cue_in_ms: Some(2_000),
        ..Default::default()
    };
    let items = vec![
        SessionPlaylistItem::Track {
            id: 1,
            cue_override: Some(points),
        },
        session_track(2),
    ];
    let rebuilt = PlaylistItem::from_session(&items, &[], library);
    assert_eq!(cue_override(&rebuilt[0]), Some(points));
    assert_eq!(cue_override(&rebuilt[1]), None);
}

#[test]
fn from_session_of_an_empty_file_is_empty() {
    assert!(PlaylistItem::from_session(&[], &[], library).is_empty());
}

#[test]
fn a_track_item_references_its_track_and_a_stop_is_a_stop() {
    let item = PlaylistItem::track(track(1));
    assert_eq!(item.as_track().map(|t| t.id), Some(1));
    assert_eq!(cue_override(&item), None);
    assert!(!item.is_stop());
    assert!(PlaylistItem::Stop.is_stop());
    assert_eq!(PlaylistItem::Stop.as_track(), None);
}

#[test]
fn a_session_without_the_switch_auto_advances() {
    assert!(radiodiodj::persist::session::default_auto_advance());
}
