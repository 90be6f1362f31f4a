use radiodiodj::library::db::SelectionFilter;
use radiodiodj::playlist::generate::{
    cadence_count, commercial_bucket_size, interleave_evenly, Interleave, MusicPicker, Rotation,
};
use radiodiodj::playlist::model::{CuePoints, Track};

fn track_with(id: i64, artist: &str) -> Track {
    Track {
        id,
        title: format!("t{}", id),
        artist: artist.to_string(),
        album: "al".to_string(),
        duration_ms: 100_000,
        play_count: 0,
        genre: None,
        year: None,
        bpm_milli: None,
        sample_rate: None,
        bitrate: None,
        format: None,
        cue_points: CuePoints::none(),
        edited_fields: 0,
    }
}

fn track(id: i64) -> Track {
    track_with(id, &format!("a{}", id))
}

#[test]
fn empty_inputs_yield_empty_output() {
    assert!(interleave_evenly(vec![], vec![], vec![]).is_empty());
}

#[test]
fn music_only_passes_through() {
    let m = vec![track(1), track(2), track(3)];
    let r = interleave_evenly(m, vec![], vec![]);
    assert_eq!(r.iter().map(|t| t.id).collect::<Vec<_>>(), vec![1, 2, 3]);
}

#[test]
fn jingles_and_commercials_spread_across_total() {
    let music: Vec<Track> = (1..=12).map(track).collect();
    let jingles: Vec<Track> = (101..=103).map(track).collect();
    let commercials: Vec<Track> = (201..=202).map(track).collect();
    let r = interleave_evenly(music, jingles, commercials);
    assert_eq!(r.len(), 17);
    let jingle_positions: Vec<usize> = r
        .iter()
        .enumerate()
        .filter_map(|(i, t)| if t.id >= 101 && t.id <= 103 { Some(i) } else { None })
        .collect();
    assert_eq!(jingle_positions.len(), 3);
    for w in jingle_positions.windows(2) {
        assert!(w[1] - w[0] >= 2, "jingles too close: {:?}", w);
    }
}

#[test]
fn music_count_is_clamped_for_small_totals() {
    let il = Interleave::default();
    let total = 3i64;
    let jingle_count = total / il.jingle_every;
    let commercial_count = total / il.commercial_every;
    assert_eq!(jingle_count, 0);
    assert_eq!(commercial_count, 0);
}

#[test]
fn commercial_bucket_size_respects_multiplier_and_min() {
    let il = Interleave::default();
    assert_eq!(commercial_bucket_size(1, &il), 10);
    assert_eq!(commercial_bucket_size(5, &il), 15);
    let custom = Interleave {
        commercial_bucket_multiplier: 2,
        commercial_bucket_min: 4,
        ..Interleave::default()
    };
    assert_eq!(commercial_bucket_size(1, &custom), 4);
    assert_eq!(commercial_bucket_size(10, &custom), 20);
}

#[test]
fn cadence_count_zero_disables_without_dividing() {
    assert_eq!(cadence_count(100, 0), 0);
    assert_eq!(cadence_count(100, 4), 25);
    assert_eq!(cadence_count(3, 4), 0);
}

/// A library answering a pick as the database does: the first track no rule
/// of the filter rejects. `aired` holds (track id, artist, aired at).
struct Library {
    tracks: Vec<Track>,
    aired: Vec<(i64, String, i64)>,
}

fn key(artist: &str) -> String {
    artist.trim().to_ascii_lowercase()
}

impl Library {
    fn pick(&self, f: &SelectionFilter) -> Option<Track> {
        self.tracks
            .iter()
            .find(|t| {
                if f.exclude_ids.contains(&t.id) {
                    return false;
                }
                if let Some(since) = f.title_since {
                    if self.aired.iter().any(|(id, _, at)| *id == t.id && *at >= since) {
                        return false;
                    }
                }
                if let Some(since) = f.artist_since {
                    if self
                        .aired
                        .iter()
                        .any(|(_, a, at)| !key(a).is_empty() && key(a) == key(&t.artist) && *at >= since)
                    {
                        return false;
                    }
                }
                !f.artist_keys.iter().any(|k| *k == key(&t.artist))
            })
            .cloned()
    }

    fn block(&self, count: i64, queued: &[Track], rot: Rotation, now_ms: i64) -> Vec<Track> {
        let mut picker = MusicPicker::new(count, queued, rot, now_ms);
        loop {
            let answer = match picker.query() {
                Some(f) => self.pick(&f),
                None => break,
            };
            picker.answer(answer);
        }
        picker.finish()
    }
}

fn ids(tracks: &[Track]) -> Vec<i64> {
    tracks.iter().map(|t| t.id).collect()
}

#[test]
fn a_block_from_the_picker_never_repeats_an_artist() {
    let lib = Library {
        tracks: vec![track_with(1, "A"), track_with(2, "A"), track_with(3, "B"), track_with(4, "C")],
        aired: vec![],
    };
    let picked = lib.block(3, &[], Rotation::default(), 1_000_000_000);
    assert_eq!(ids(&picked), vec![1, 3, 4]);
}

#[test]
fn the_picker_skips_an_artist_already_queued() {
    let lib = Library {
        tracks: vec![track_with(1, "A"), track_with(2, "B")],
        aired: vec![],
    };
    let queued = vec![track_with(9, " a ")];
    let picked = lib.block(1, &queued, Rotation::default(), 1_000_000_000);
    assert_eq!(ids(&picked), vec![2]);
}

#[test]
fn the_picker_relaxes_the_artist_rule_before_the_title_rule() {
    let now = 100 * 60_000 * 1000;
    let lib = Library {
        tracks: vec![track_with(1, "A"), track_with(2, "A")],
        aired: vec![(1, "A".to_string(), now - 60_000)],
    };
    let picked = lib.block(2, &[], Rotation::default(), now);
    assert_eq!(ids(&picked), vec![2, 1]);
}

#[test]
fn the_picker_never_repeats_a_track_however_far_it_relaxes() {
    let lib = Library { tracks: vec![track_with(1, "A"), track_with(2, "A")], aired: vec![] };
    let picked = lib.block(5, &[], Rotation::default(), 1_000_000_000);
    assert_eq!(ids(&picked), vec![1, 2]);
}

#[test]
fn a_zero_window_turns_its_rule_off_in_the_picker() {
    let now = 1_000_000_000;
    let lib = Library {
        tracks: vec![track_with(1, "A")],
        aired: vec![(1, "A".to_string(), now - 1)],
    };
    let rot = Rotation { title_window_min: 0, artist_window_min: 0 };
    let mut picker = MusicPicker::new(1, &[], rot, now);
    let f = picker.query().unwrap();
    assert_eq!(f.title_since, None);
    assert_eq!(f.artist_since, None);
    let answer = lib.pick(&f);
    assert_eq!(picker.answer(answer), None);
    assert_eq!(ids(&picker.finish()), vec![1]);
}
