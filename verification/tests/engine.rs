use std::cell::RefCell;

use radiodiodj::playlist::engine::{Effect, Playlist, Refiller, Transition};
use radiodiodj::playlist::model::{CuePoints, PlaylistItem, Track};

fn track(id: i64) -> Track {
    Track {
        id,
        title: format!("t{}", id),
        artist: format!("a{}", id),
        album: format!("al{}", id),
        duration_ms: 100_000,
        play_count: 0,
        genre: None,
        year: None,
        bpm_milli: None,
        sample_rate: None,
        bitrate: None,
        format: None,
        cue_points: CuePoints::none(),
        edited_fields: 0,
    }
}

/// Records what the engine asked for. `generating` hands back as many fresh
/// tracks as were requested; the default stands in for an empty library.
struct FakeRefiller {
    generating: bool,
    buffer: i64,
    threshold: i64,
    calls: RefCell<Vec<(i64, Vec<i64>)>>,
    next_id: RefCell<i64>,
}

impl FakeRefiller {
    fn new() -> Self {
        Self {
            generating: false,
            buffer: 20,
            threshold: 5,
            calls: RefCell::new(vec![]),
            next_id: RefCell::new(1000),
        }
    }

    fn generating(buffer: i64, threshold: i64) -> Self {
        Self {
            generating: true,
            buffer,
            threshold,
            ..Self::new()
        }
    }

    fn calls(&self) -> Vec<(i64, Vec<i64>)> {
        self.calls.borrow().clone()
    }
}

impl Refiller for FakeRefiller {
    fn generate(&self, count: i64, exclude: &[i64]) -> Vec<Track> {
        self.calls.borrow_mut().push((count, exclude.to_vec()));
        if !self.generating {
            return vec![];
        }
        (0..count.max(0))
            .map(|_| {
                let mut id = self.next_id.borrow_mut();
                *id += 1;
                track(*id)
            })
            .collect()
    }

    fn buffer(&self) -> i64 {
        self.buffer
    }

    fn threshold(&self) -> i64 {
        self.threshold
    }

    fn buffer_size(&self) -> i64 {
        self.buffer
    }

    fn threshold_size(&self) -> i64 {
        self.threshold
    }
}

/// Never asked for material: asserts refill stayed out of a transition.
struct NoRefill;

impl Refiller for NoRefill {
    fn generate(&self, _count: i64, _exclude: &[i64]) -> Vec<Track> {
        panic!("refill must not be requested here");
    }
    fn buffer(&self) -> i64 {
        20
    }
    fn threshold(&self) -> i64 {
        5
    }
    fn buffer_size(&self) -> i64 {
        20
    }
    fn threshold_size(&self) -> i64 {
        5
    }
}

fn queued(p: &Playlist) -> Vec<Option<i64>> {
    p.snapshot(None)
        .playlist
        .iter()
        .map(|i| i.as_track().map(|t| t.id))
        .collect()
}

fn current_id(p: &Playlist) -> Option<i64> {
    p.snapshot(None).current.map(|t| t.id)
}

fn with(items: &[Option<i64>]) -> Playlist {
    let mut p = Playlist::new();
    for item in items {
        match item {
            Some(id) => p.add(track(*id)),
            None => p.add_stop(),
        };
    }
    p
}

// ----- queue mutations -----

#[test]
fn add_appends_tracks() {
    let p = with(&[Some(1), Some(2)]);
    assert_eq!(queued(&p), vec![Some(1), Some(2)]);
}

#[test]
fn add_front_inserts_at_the_head() {
    let mut p = with(&[Some(1), Some(2)]);
    p.add_front(track(9));
    assert_eq!(queued(&p), vec![Some(9), Some(1), Some(2)]);
}

#[test]
fn remove_splices_without_touching_the_track_on_air() {
    let mut p = with(&[Some(1), Some(2), Some(3)]);
    p.play_index(0, &NoRefill);
    p.remove(0);
    assert_eq!(queued(&p), vec![Some(3)]);
    assert_eq!(current_id(&p), Some(1));
}

#[test]
fn remove_out_of_range_is_a_no_op() {
    let mut p = with(&[Some(1)]);
    p.remove(7);
    assert_eq!(queued(&p), vec![Some(1)]);
}

#[test]
fn move_item_reorders() {
    let mut p = with(&[Some(1), Some(2), Some(3)]);
    p.move_item(2, 0);
    assert_eq!(queued(&p), vec![Some(3), Some(1), Some(2)]);
}

#[test]
fn move_item_is_a_no_op_when_from_equals_to() {
    let mut p = with(&[Some(1), Some(2)]);
    assert_eq!(p.move_item(1, 1), Transition::default());
    assert_eq!(queued(&p), vec![Some(1), Some(2)]);
}

#[test]
fn clear_empties_the_queue_but_leaves_the_track_on_air() {
    let mut p = with(&[Some(1), Some(2)]);
    p.play_index(0, &NoRefill);
    p.clear();
    assert!(queued(&p).is_empty());
    assert_eq!(current_id(&p), Some(1));
}

// ----- transport -----

#[test]
fn play_index_pulls_the_track_out_of_the_queue_and_plays_it() {
    let mut p = with(&[Some(1), Some(2)]);
    let t = p.play_index(1, &NoRefill);
    assert_eq!(queued(&p), vec![Some(1)]);
    assert_eq!(current_id(&p), Some(2));
    assert_eq!(
        t.effects,
        vec![Effect::CancelRetry, Effect::Play(2), Effect::TrackPlayed(2)]
    );
    assert_eq!(t.displaced, None);
}

#[test]
fn playing_a_new_track_displaces_the_previous_one() {
    let mut p = with(&[Some(1), Some(2)]);
    p.play_index(0, &NoRefill);
    let t = p.play_index(0, &NoRefill);
    assert_eq!(t.displaced.map(|d| d.id), Some(1));
    assert_eq!(current_id(&p), Some(2));
}

#[test]
fn play_index_out_of_range_is_a_no_op() {
    let mut p = with(&[Some(1)]);
    assert_eq!(p.play_index(5, &NoRefill), Transition::default());
    assert_eq!(queued(&p), vec![Some(1)]);
    assert_eq!(current_id(&p), None);
}

#[test]
fn play_now_airs_a_track_without_enqueuing_it() {
    let mut p = with(&[Some(1)]);
    let t = p.play_now(track(9), &NoRefill);
    assert_eq!(queued(&p), vec![Some(1)]);
    assert_eq!(current_id(&p), Some(9));
    assert!(t.effects.contains(&Effect::Play(9)));
}

#[test]
fn next_plays_the_head() {
    let mut p = with(&[Some(1), Some(2)]);
    p.next(&NoRefill);
    assert_eq!(current_id(&p), Some(1));
    assert_eq!(queued(&p), vec![Some(2)]);
}

#[test]
fn next_is_a_no_op_when_the_queue_is_empty() {
    let mut p = Playlist::new();
    assert_eq!(p.next(&NoRefill), Transition::default());
    assert_eq!(current_id(&p), None);
}

#[test]
fn prev_returns_the_outgoing_track_to_the_head_and_displaces_nothing() {
    let mut p = with(&[Some(2)]);
    p.play_index(0, &NoRefill);
    let t = p.prev(track(1), &NoRefill);
    assert_eq!(current_id(&p), Some(1));
    assert_eq!(queued(&p), vec![Some(2)]);
    // History is the renderer's; `prev` steps back through it rather than
    // appending to it.
    assert_eq!(t.displaced, None);
}

#[test]
fn stop_clears_the_deck_the_auto_playlist_and_displaces_the_track() {
    let mut p = with(&[Some(2)]);
    p.set_auto_playlist(true, &FakeRefiller::new());
    let t = p.stop();
    assert_eq!(t.effects, vec![Effect::CancelRetry, Effect::Stop]);
    assert_eq!(t.displaced.map(|d| d.id), Some(2));
    let snap = p.snapshot(None);
    assert_eq!(snap.current, None);
    assert!(!snap.auto_playlist_active);
}

#[test]
fn set_auto_advance_flips_the_flag() {
    let mut p = Playlist::new();
    assert!(p.snapshot(None).auto_advance);
    p.set_auto_advance(false);
    assert!(!p.snapshot(None).auto_advance);
}

#[test]
fn enabling_the_auto_playlist_refills_and_starts_the_show_when_idle() {
    let mut p = Playlist::new();
    let r = FakeRefiller::generating(20, 5);
    p.set_auto_playlist(true, &r);
    assert_eq!(current_id(&p), Some(1001));
    assert_eq!(queued(&p).len(), 19);
}

#[test]
fn enabling_the_auto_playlist_leaves_a_playing_deck_alone() {
    let mut p = with(&[Some(1), Some(2)]);
    p.play_index(0, &NoRefill);
    let r = FakeRefiller::new();
    p.set_auto_playlist(true, &r);
    assert_eq!(current_id(&p), Some(1));
}

#[test]
fn disabling_the_auto_playlist_does_not_touch_playback() {
    let mut p = with(&[Some(1)]);
    p.play_index(0, &NoRefill);
    assert_eq!(p.set_auto_playlist(false, &NoRefill), Transition::default());
    assert_eq!(current_id(&p), Some(1));
}

// ----- auto-playlist refill -----

#[test]
fn refill_does_nothing_while_the_auto_playlist_is_off() {
    let mut p = with(&[Some(1)]);
    p.play_index(0, &NoRefill);
    assert_eq!(queued(&p), Vec::<Option<i64>>::new());
}

#[test]
fn refill_tops_an_empty_queue_up_to_the_buffer() {
    let mut p = Playlist::new();
    let r = FakeRefiller::generating(20, 5);
    p.set_auto_playlist(true, &r);
    assert_eq!(r.calls(), vec![(20, vec![])]);
}

#[test]
fn refill_requests_only_the_deficit_and_excludes_what_is_queued() {
    let mut p = with(&[Some(1), Some(2)]);
    let r = FakeRefiller::generating(20, 5);
    p.set_auto_playlist(true, &r);
    assert_eq!(r.calls(), vec![(18, vec![1, 2])]);
}

#[test]
fn refill_does_nothing_while_the_queue_is_above_the_threshold() {
    let mut p = with(&[Some(1), Some(2), Some(3), Some(4), Some(5)]);
    p.play_now(track(9), &NoRefill);
    let r = FakeRefiller::generating(20, 5);
    p.set_auto_playlist(true, &r);
    assert!(r.calls().is_empty());
}

#[test]
fn refill_is_skipped_while_a_stop_marker_is_queued() {
    let mut p = with(&[Some(1), None]);
    p.play_now(track(9), &NoRefill);
    let r = FakeRefiller::generating(20, 5);
    p.set_auto_playlist(true, &r);
    assert!(r.calls().is_empty());
}

/// Putting a track on air tops the playlist back up, which is what keeps a
/// running auto-playlist ahead of the deck without any separate timer.
#[test]
fn airing_a_track_refills_behind_it() {
    let mut p = with(&[Some(1), Some(2)]);
    let r = FakeRefiller::generating(20, 5);
    p.set_auto_playlist(true, &r);
    assert_eq!(queued(&p).len(), 19);
    p.next(&r);
    assert_eq!(queued(&p).len(), 18);
    assert_eq!(r.calls().len(), 1);
}

// ----- end of track -----

#[test]
fn ended_advances_to_the_next_track() {
    let mut p = with(&[Some(1), Some(2)]);
    p.play_index(0, &NoRefill);
    p.on_ended(&FakeRefiller::new());
    assert_eq!(current_id(&p), Some(2));
}

#[test]
fn ended_stops_when_auto_advance_is_off() {
    let mut p = with(&[Some(1), Some(2)]);
    p.play_index(0, &NoRefill);
    p.set_auto_advance(false);
    let t = p.on_ended(&NoRefill);
    assert_eq!(t.effects, vec![Effect::CancelRetry, Effect::Stop]);
    assert_eq!(t.displaced.map(|d| d.id), Some(1));
    assert_eq!(queued(&p), vec![Some(2)]);
}

#[test]
fn ended_onto_a_stop_marker_halts_and_consumes_the_marker() {
    let mut p = with(&[None, Some(2)]);
    p.play_now(track(1), &NoRefill);
    let t = p.on_ended(&FakeRefiller::new());
    assert_eq!(t.effects, vec![Effect::CancelRetry, Effect::Stop]);
    assert_eq!(current_id(&p), None);
    assert_eq!(queued(&p), vec![Some(2)]);
}

// ----- outage recovery (skip-to-cached) -----

#[test]
fn ended_skips_uncached_tracks_and_leaves_them_queued() {
    let mut p = with(&[Some(1), Some(2), Some(3)]);
    p.play_now(track(9), &NoRefill);
    p.on_cache_state(vec![3], &NoRefill);
    p.on_ended(&FakeRefiller::new());
    assert_eq!(current_id(&p), Some(3));
    assert_eq!(queued(&p), vec![Some(1), Some(2)]);
}

#[test]
fn nothing_cached_waits_on_a_backoff_then_resumes_when_the_cache_returns() {
    let mut p = with(&[Some(1)]);
    p.play_now(track(9), &NoRefill);
    // A cache-state that holds only the track on air: nothing upcoming is
    // resident, so the share is down as far as the playlist is concerned.
    p.on_cache_state(vec![9], &NoRefill);
    let t = p.on_ended(&FakeRefiller::new());
    assert_eq!(t.effects, vec![Effect::ArmRetry(0)]);
    assert!(p.snapshot(None).awaiting_network);

    let t = p.on_cache_state(vec![9, 1], &NoRefill);
    assert!(t.effects.contains(&Effect::Play(1)));
    assert!(!p.snapshot(None).awaiting_network);
}

#[test]
fn load_failed_skips_to_the_next_cached_track() {
    let mut p = with(&[Some(1), Some(2)]);
    p.play_now(track(9), &NoRefill);
    p.on_cache_state(vec![2], &NoRefill);
    p.on_load_failed(&FakeRefiller::new());
    assert_eq!(current_id(&p), Some(2));
}

#[test]
fn load_failed_with_no_cache_knowledge_waits_instead_of_burning_the_queue() {
    let mut p = with(&[Some(1), Some(2)]);
    let t = p.on_load_failed(&NoRefill);
    assert_eq!(t.effects, vec![Effect::ArmRetry(0)]);
    assert_eq!(queued(&p), vec![Some(1), Some(2)]);
    assert_eq!(current_id(&p), None);
}

#[test]
fn load_failed_does_nothing_while_auto_advance_is_off() {
    let mut p = with(&[Some(1)]);
    p.set_auto_advance(false);
    assert_eq!(p.on_load_failed(&NoRefill), Transition::default());
}

#[test]
fn a_retry_already_armed_is_not_re_armed_on_the_next_failure() {
    let mut p = with(&[Some(1)]);
    assert_eq!(
        p.on_load_failed(&NoRefill).effects,
        vec![Effect::ArmRetry(0)]
    );
    assert_eq!(p.on_load_failed(&NoRefill), Transition::default());
}

#[test]
fn each_retry_tick_that_fails_again_moves_further_down_the_backoff_schedule() {
    let mut p = with(&[Some(1)]);
    p.on_load_failed(&NoRefill);
    assert_eq!(
        p.on_retry_tick(&NoRefill).effects,
        vec![Effect::ArmRetry(1)]
    );
    assert_eq!(
        p.on_retry_tick(&NoRefill).effects,
        vec![Effect::ArmRetry(2)]
    );
}

#[test]
fn an_explicit_track_change_cancels_the_pending_retry() {
    let mut p = with(&[Some(1)]);
    p.on_load_failed(&NoRefill);
    assert!(p.snapshot(None).awaiting_network);

    let t = p.play_index(0, &NoRefill);
    assert!(t.effects.contains(&Effect::CancelRetry));
    assert!(!p.snapshot(None).awaiting_network);
    // Back to the top of the schedule, so a later outage waits a second
    // rather than resuming mid-backoff.
    p.add(track(2));
    assert_eq!(
        p.on_load_failed(&NoRefill).effects,
        vec![Effect::ArmRetry(0)]
    );
}

#[test]
fn an_empty_queue_cancels_the_retry_rather_than_waiting_forever() {
    let mut p = Playlist::new();
    let t = p.on_load_failed(&NoRefill);
    assert_eq!(t.effects, vec![Effect::CancelRetry]);
    assert!(!p.snapshot(None).awaiting_network);
}

#[test]
fn cache_state_does_not_advance_while_playback_is_healthy() {
    let mut p = with(&[Some(1)]);
    p.play_now(track(9), &NoRefill);
    assert_eq!(
        p.on_cache_state(vec![1, 9], &NoRefill),
        Transition::default()
    );
    assert_eq!(current_id(&p), Some(9));
}

// ----- prefetch window -----

#[test]
fn the_prefetch_window_is_the_track_on_air_then_the_queue_in_order() {
    let mut p = with(&[Some(1), None, Some(2)]);
    p.play_now(track(9), &NoRefill);
    assert_eq!(p.prefetch_window(), vec![9, 1, 2]);
}

/// No count cap: the whole playlist is offered and the cache's byte cap
/// decides how much of it stays resident.
#[test]
fn the_prefetch_window_covers_the_whole_queue() {
    let mut p = Playlist::new();
    for id in 1..=20 {
        p.add(track(id));
    }
    assert_eq!(p.prefetch_window(), (1..=20).collect::<Vec<_>>());
}

#[test]
fn the_prefetch_window_is_just_the_queue_when_nothing_is_on_air() {
    let p = with(&[Some(1), Some(2)]);
    assert_eq!(p.prefetch_window(), vec![1, 2]);
}

// ----- session -----

#[test]
fn hydrate_restores_the_queue_and_resumes_paused_at_the_saved_position() {
    let mut p = Playlist::new();
    let t = p.hydrate(
        vec![PlaylistItem::track(track(1)), PlaylistItem::Stop],
        Some(track(9)),
        12_500,
        true,
        false,
    );
    assert_eq!(
        t.effects,
        vec![Effect::Resume {
            id: 9,
            position_ms: 12_500
        }]
    );
    // A restore must not put audio on air by itself.
    assert!(!t.effects.contains(&Effect::Play(9)));
    assert_eq!(t.displaced, None);
    let snap = p.snapshot(None);
    assert_eq!(queued(&p), vec![Some(1), None]);
    assert_eq!(snap.current.map(|t| t.id), Some(9));
    assert!(snap.auto_playlist_active);
    assert!(!snap.auto_advance);
}

#[test]
fn hydrate_without_a_saved_track_issues_nothing() {
    let mut p = Playlist::new();
    let t = p.hydrate(vec![PlaylistItem::track(track(1))], None, 0, false, true);
    assert_eq!(t, Transition::default());
}

#[test]
fn hydrate_clamps_a_negative_saved_position() {
    let mut p = Playlist::new();
    let t = p.hydrate(vec![], Some(track(9)), -4_000, false, true);
    assert_eq!(
        t.effects,
        vec![Effect::Resume {
            id: 9,
            position_ms: 0
        }]
    );
}

#[test]
fn removing_what_was_added_leaves_the_queue_as_it_was() {
    let mut p = with(&[Some(1), None, Some(2)]);
    let before = queued(&p);
    p.add(track(9));
    p.remove(3);
    assert_eq!(queued(&p), before);
}

#[test]
fn moving_an_item_and_back_leaves_the_queue_as_it_was() {
    let mut p = with(&[Some(1), Some(2), None, Some(4)]);
    let before = queued(&p);
    p.move_item(0, 2);
    assert_ne!(queued(&p), before);
    p.move_item(2, 0);
    assert_eq!(queued(&p), before);
}
