use std::cell::Cell;
use std::collections::HashSet;

use radiodiodj::library::db::SelectionFilter;
use radiodiodj::playlist::generate::{interleave_evenly, plan_block, Interleave, MusicPicker, Rotation};
use radiodiodj::playlist::model::{CuePoints, Track};

/// Music-only cadence, so a generated block is nothing but the material the
/// rotation rules govern.
const MUSIC_ONLY: Interleave = Interleave {
    jingle_every: 0,
    commercial_every: 0,
    commercial_bucket_multiplier: 3,
    commercial_bucket_min: 10,
};

const NOW: i64 = 10_000_000;

fn track(id: i64, title: &str, artist: &str) -> Track {
    Track {
        id,
        title: title.to_string(),
        artist: artist.to_string(),
        album: "al".to_string(),
        duration_ms: 100_000,
        play_count: 0,
        genre: None,
        year: None,
        bpm_milli: None,
        sample_rate: None,
        bitrate: None,
        format: None,
        cue_points: CuePoints::none(),
        edited_fields: 0,
    }
}

fn key(artist: &str) -> String {
    artist.trim().to_ascii_lowercase()
}

/// A library that answers each query as the database does: some track that
/// no rule of the filter rejects. Successive answers walk round the eligible
/// tracks, standing in for `ORDER BY RANDOM()`.
struct Library {
    music: Vec<Track>,
    jingles: Vec<Track>,
    commercials: Vec<Track>,
    /// (track id, artist as aired, aired at)
    aired: Vec<(i64, String, i64)>,
    turn: Cell<usize>,
}

/// A library of `(title, artist)` music, with ids running 1..n.
fn library(tracks: &[(&str, &str)]) -> Library {
    Library {
        music: tracks.iter().enumerate().map(|(i, (t, a))| track(i as i64 + 1, t, a)).collect(),
        jingles: vec![],
        commercials: vec![],
        aired: vec![],
        turn: Cell::new(0),
    }
}

impl Library {
    fn record_airing(&mut self, id: i64, at: i64) {
        let artist = self
            .music
            .iter()
            .chain(&self.jingles)
            .chain(&self.commercials)
            .find(|t| t.id == id)
            .map(|t| t.artist.clone())
            .unwrap();
        self.aired.push((id, artist, at));
    }

    fn eligible(&self, pool: &[Track], f: &SelectionFilter) -> Vec<Track> {
        pool.iter()
            .filter(|t| {
                if f.exclude_ids.contains(&t.id) {
                    return false;
                }
                if let Some(since) = f.title_since {
                    if self.aired.iter().any(|(id, _, at)| *id == t.id && *at >= since) {
                        return false;
                    }
                }
                if let Some(since) = f.artist_since {
                    if self
                        .aired
                        .iter()
                        .any(|(_, a, at)| !key(a).is_empty() && key(a) == key(&t.artist) && *at >= since)
                    {
                        return false;
                    }
                }
                !f.artist_keys.iter().any(|k| *k == key(&t.artist))
            })
            .cloned()
            .collect()
    }

    fn random(&self, pool: &[Track], f: &SelectionFilter, count: i64) -> Vec<Track> {
        let mut eligible = self.eligible(pool, f);
        let mut out = Vec::new();
        while (out.len() as i64) < count && !eligible.is_empty() {
            let turn = self.turn.get();
            self.turn.set(turn + 1);
            out.push(eligible.remove(turn % eligible.len()));
        }
        out
    }
}

/// A block drawn the way the station draws one: the plan, the music picked
/// slot by slot under the rotation rules, jingles and commercials at random
/// with only the queue excluded, then spread through the music.
fn generate(lib: &Library, count: i64, queued: &[Track], il: &Interleave, rot: Rotation, now: i64) -> Vec<Track> {
    let Some(plan) = plan_block(count, il) else {
        return vec![];
    };
    let mut picker = MusicPicker::new(plan.music, queued, rot, now);
    loop {
        let answer = match picker.query() {
            Some(f) => lib.random(&lib.music, &f, 1).pop(),
            None => break,
        };
        picker.answer(answer);
    }
    let exclude: Vec<i64> = queued.iter().map(|t| t.id).collect();
    let plain = SelectionFilter::excluding(&exclude);
    let jingles = lib.random(&lib.jingles, &plain, plan.jingles);
    let commercials = lib.random(&lib.commercials, &plain, plan.commercials);
    interleave_evenly(picker.finish(), jingles, commercials)
}

fn block(lib: &Library, count: i64, queued: &[Track], rot: Rotation) -> Vec<Track> {
    generate(lib, count, queued, &MUSIC_ONLY, rot, NOW)
}

fn ids(tracks: &[Track]) -> Vec<i64> {
    tracks.iter().map(|t| t.id).collect()
}

fn artists(tracks: &[Track]) -> Vec<String> {
    tracks.iter().map(|t| t.artist.clone()).collect()
}

#[test]
fn one_block_never_repeats_an_artist() {
    let lib = library(&[("1", "A"), ("2", "A"), ("3", "B"), ("4", "C")]);
    let picked = block(&lib, 3, &[], Rotation::default());
    let mut got = artists(&picked);
    got.sort();
    assert_eq!(got, vec!["A", "B", "C"]);
}

#[test]
fn an_artist_already_queued_is_not_selected() {
    let lib = library(&[("1", "A"), ("2", "B")]);
    let queued = track(1, "1", "A");
    let picked = block(&lib, 1, &[queued], Rotation::default());
    assert_eq!(artists(&picked), vec!["B"]);
}

#[test]
fn an_airing_inside_the_title_window_is_not_reselected() {
    let mut lib = library(&[("1", "A"), ("2", "B")]);
    lib.record_airing(1, NOW - 60_000);
    let picked = block(&lib, 1, &[], Rotation::default());
    assert_eq!(ids(&picked), vec![2]);
}

#[test]
fn a_zero_window_disables_the_rule() {
    let mut lib = library(&[("1", "A"), ("2", "B")]);
    lib.record_airing(1, NOW - 1_000);

    let picked = block(&lib, 1, &[], Rotation::default());
    assert_eq!(ids(&picked), vec![2], "the airing is inside both windows");

    let off = Rotation { title_window_min: 0, artist_window_min: 0 };
    let mut seen: HashSet<i64> = HashSet::new();
    for _ in 0..50 {
        seen.extend(ids(&block(&lib, 1, &[], off)));
    }
    assert_eq!(seen.len(), 2, "both are eligible again: {seen:?}");
}

#[test]
fn the_ladder_drops_the_artist_rule_before_the_title_rule() {
    let mut lib = library(&[("1", "A"), ("2", "A")]);
    lib.record_airing(1, NOW - 60_000);
    let picked = block(&lib, 2, &[], Rotation::default());
    assert_eq!(ids(&picked), vec![2, 1]);
}

#[test]
fn a_block_never_repeats_a_track_however_far_it_relaxes() {
    let lib = library(&[("1", "A")]);
    let picked = block(&lib, 5, &[], Rotation::default());
    assert_eq!(picked.len(), 1);
}

#[test]
fn jingles_and_commercials_ignore_the_rotation_rules() {
    let mut lib = library(&[]);
    lib.jingles.push(track(1, "station", "Station"));
    lib.commercials.push(track(2, "station", "Station"));
    lib.record_airing(1, NOW - 1_000);
    lib.record_airing(2, NOW - 1_000);
    let il = Interleave { jingle_every: 1, commercial_every: 2, ..Interleave::default() };
    let picked = generate(&lib, 2, &[], &il, Rotation::default(), NOW);
    assert_eq!(picked.len(), 2, "both just aired and both came back");
}
