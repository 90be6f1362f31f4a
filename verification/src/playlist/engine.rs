//! The playlist state machine.
//!
//! A transition takes the current state plus whatever the caller already knows
//! and returns the [`Effect`]s the caller must carry out. No database, no audio
//! device: the advancement rules (ordering, outage skip-to-cached, refill
//! sizing, stop markers) are stated and proved here.

use std::collections::HashSet;
use vstd::prelude::*;

use crate::playlist::model::{item_track_id, CuePoints, PlaylistItem, Snapshot, Track};

verus! {

broadcast use vstd::std_specs::hash::group_hash_axioms;

/// Source of auto-playlist refill material, plus the sizing that governs it.
///
/// Implemented over the library database by the application. The sizes are
/// read per call, so a settings change takes effect on the next refill.
pub trait Refiller {
    /// The target number of upcoming tracks, as [`Refiller::buffer`] reports it.
    spec fn buffer_size(&self) -> i64;

    /// The refill trigger, as [`Refiller::threshold`] reports it.
    spec fn threshold_size(&self) -> i64;

    /// Whether `out` is a block this refiller may hand back when asked for
    /// `count` tracks excluding the ids in `exclude`. An implementation
    /// states what its blocks satisfy; by default nothing is promised.
    open spec fn generated(&self, count: i64, exclude: Seq<i64>, out: Seq<Track>) -> bool {
        true
    }

    /// An interleaved block of `count` tracks, excluding ids already queued.
    fn generate(&self, count: i64, exclude: &[i64]) -> (v: Vec<Track>)
        ensures
            self.generated(count, exclude@, v@),
    ;

    /// Target number of upcoming tracks the auto-playlist keeps queued.
    fn buffer(&self) -> (b: i64)
        ensures
            b == self.buffer_size(),
    ;

    /// Refill once fewer than this many remain.
    fn threshold(&self) -> (t: i64)
        ensures
            t == self.threshold_size(),
    ;
}

/// Something the caller has to do in the world after a transition.
#[derive(Debug, Clone, Copy, PartialEq, Eq, Structural)]
pub enum Effect {
    /// Load the track on the main deck and start playback.
    Play(i64),
    /// Load the track on the main deck, seek, and leave it paused.
    Resume { id: i64, position_ms: i64 },
    /// Stop the main deck.
    Stop,
    /// Count the airing against the track's play count.
    TrackPlayed(i64),
    /// Arm the outage retry timer; the index selects a delay from the backoff
    /// schedule.
    ArmRetry(usize),
    /// Cancel any armed outage retry.
    CancelRetry,
}

/// The result of one transition.
#[derive(Debug, PartialEq)]
pub struct Transition {
    pub effects: Vec<Effect>,
    /// The track that just left the main deck, set only where history should
    /// grow: an explicit track change or a stop.
    pub displaced: Option<Track>,
}

impl Transition {
    /// No effect and nothing displaced.
    pub open spec fn is_nothing(self) -> bool {
        self.effects@ == Seq::<Effect>::empty() && self.displaced is None
    }

    fn nothing() -> (t: Transition)
        ensures
            t.is_nothing(),
    {
        Transition { effects: Vec::new(), displaced: None }
    }

    fn effects(effects: Vec<Effect>) -> (t: Transition)
        ensures
            t.effects == effects,
            t.displaced is None,
    {
        Transition { effects, displaced: None }
    }
}

impl Default for Transition {
    fn default() -> (t: Transition)
        ensures
            t.is_nothing(),
    {
        Transition::nothing()
    }
}

/// The effects that put a track on air.
pub open spec fn on_air_effects(id: i64) -> Seq<Effect> {
    seq![Effect::CancelRetry, Effect::Play(id), Effect::TrackPlayed(id)]
}

/// The effects of a stop.
pub open spec fn stop_effects() -> Seq<Effect> {
    seq![Effect::CancelRetry, Effect::Stop]
}

fn one_effect(a: Effect) -> (v: Vec<Effect>)
    ensures
        v@ == seq![a],
{
    let mut v = Vec::new();
    v.push(a);
    v
}

fn two_effects(a: Effect, b: Effect) -> (v: Vec<Effect>)
    ensures
        v@ == seq![a, b],
{
    let mut v = Vec::new();
    v.push(a);
    v.push(b);
    v
}

fn three_effects(a: Effect, b: Effect, c: Effect) -> (v: Vec<Effect>)
    ensures
        v@ == seq![a, b, c],
{
    let mut v = Vec::new();
    v.push(a);
    v.push(b);
    v.push(c);
    v
}

/// The ids of the tracks among `items`, in order; stop markers contribute
/// nothing.
pub open spec fn track_ids(items: Seq<PlaylistItem>) -> Seq<i64>
    decreases items.len(),
{
    if items.len() == 0 {
        Seq::empty()
    } else {
        let rest = track_ids(items.drop_last());
        match item_track_id(items.last()) {
            Some(id) => rest.push(id),
            None => rest,
        }
    }
}

/// Some item is a stop marker.
pub open spec fn has_stop(items: Seq<PlaylistItem>) -> bool {
    exists|i: int| 0 <= i < items.len() && #[trigger] items[i] is Stop
}

/// `tracks` queued as plain track items, in order.
pub open spec fn as_items(tracks: Seq<Track>) -> Seq<PlaylistItem> {
    tracks.map_values(|t: Track| PlaylistItem::Track { track: t, cue_override: None })
}

/// Whether a refill tops the playlist up: only with the auto-playlist on, no
/// stop marker queued (a barrier the operator placed is never buried), and
/// fewer items than the threshold.
pub open spec fn refill_due(items: Seq<PlaylistItem>, auto_playlist: bool, threshold: i64) -> bool {
    auto_playlist && !has_stop(items) && items.len() < threshold
}

/// How many tracks a refill asks for: the buffer less what is queued (the
/// lowest `i64` should that not fit).
pub open spec fn refill_count(buffer: i64, queued: int) -> i64 {
    if buffer - queued >= i64::MIN {
        (buffer - queued) as i64
    } else {
        i64::MIN
    }
}

/// `after` is `before` topped up by a refill from `r`: unchanged unless one
/// is due, and otherwise `before` followed by the block `r` generated when
/// asked once for the buffer less what is queued, excluding the ids of the
/// queued tracks.
pub open spec fn refilled<R: Refiller>(
    r: &R,
    before: Seq<PlaylistItem>,
    after: Seq<PlaylistItem>,
    auto_playlist: bool,
) -> bool {
    if refill_due(before, auto_playlist, r.threshold_size()) {
        exists|g: Seq<Track>|
            {
                &&& after == before + as_items(g)
                &&& r.generated(
                    refill_count(r.buffer_size(), before.len() as int),
                    track_ids(before),
                    g,
                )
            }
    } else {
        after == before
    }
}

/// What to play next, given what is queued and what is cached.
#[derive(Debug, Clone, Copy, PartialEq, Eq, Structural)]
pub enum Plan {
    /// Nothing queued.
    Empty,
    /// No cache knowledge yet (cold start): fall back to playing the head.
    Fallback,
    /// A stop marker is the next barrier.
    Stop(usize),
    /// The first upcoming cached track.
    Play(usize),
    /// Cache membership is known but nothing upcoming is in it: an outage.
    Wait,
}

/// The first item from `i` on that is a stop marker or a cached track.
pub open spec fn scan_from(items: Seq<PlaylistItem>, cached: Set<i64>, i: int) -> Plan
    decreases items.len() - i,
{
    if i < 0 || i >= items.len() {
        Plan::Wait
    } else {
        match items[i] {
            PlaylistItem::Stop => Plan::Stop(i as usize),
            PlaylistItem::Track { track, .. } => {
                if cached.contains(track.id) {
                    Plan::Play(i as usize)
                } else {
                    scan_from(items, cached, i + 1)
                }
            },
        }
    }
}

pub open spec fn spec_plan(items: Seq<PlaylistItem>, cached: Set<i64>) -> Plan {
    if items.len() == 0 {
        Plan::Empty
    } else if cached.is_empty() {
        Plan::Fallback
    } else {
        scan_from(items, cached, 0)
    }
}

proof fn lemma_scan_from_in_range(items: Seq<PlaylistItem>, cached: Set<i64>, i: int)
    requires
        0 <= i,
        items.len() <= usize::MAX,
    ensures
        match scan_from(items, cached, i) {
            Plan::Stop(k) => i <= k < items.len() && items[k as int] is Stop,
            Plan::Play(k) => i <= k < items.len() && items[k as int] is Track && cached.contains(
                items[k as int]->track.id,
            ),
            Plan::Wait => true,
            _ => false,
        },
    decreases items.len() - i,
{
    if i < items.len() {
        lemma_scan_from_in_range(items, cached, i + 1);
    }
}

/// `post` and `t` are what stopping gives from a state whose queue is `items`
/// (after any consumed marker), with `current` on air.
pub open spec fn stop_outcome(
    items: Seq<PlaylistItem>,
    current: Option<Track>,
    auto_advance: bool,
    cached: Set<i64>,
    post: &Playlist,
    t: &Transition,
) -> bool {
    &&& post.items() == items
    &&& post.current() is None
    &&& !post.auto_playlist()
    &&& post.auto_advance() == auto_advance
    &&& post.cached() == cached
    &&& post.retry_clear()
    &&& t.effects@ == stop_effects()
    &&& t.displaced == current
}

/// `post` and `t` are what putting `track` on air gives, with `queue` left
/// queued and `displaced` reported as the track that left the deck.
pub open spec fn air_outcome<R: Refiller>(
    queue: Seq<PlaylistItem>,
    displaced: Option<Track>,
    track: Track,
    auto_playlist: bool,
    auto_advance: bool,
    cached: Set<i64>,
    r: &R,
    post: &Playlist,
    t: &Transition,
) -> bool {
    &&& post.current() == Some(track)
    &&& post.auto_playlist() == auto_playlist
    &&& post.auto_advance() == auto_advance
    &&& post.cached() == cached
    &&& post.retry_clear()
    &&& refilled(r, queue, post.items(), auto_playlist)
    &&& t.effects@ == on_air_effects(track.id)
    &&& t.displaced == displaced
}

/// `post` and `t` are what pulling item `index` out of `items` and acting on
/// it gives: a stop marker stops, a track goes on air.
pub open spec fn take_outcome<R: Refiller>(
    items: Seq<PlaylistItem>,
    current: Option<Track>,
    auto_playlist: bool,
    auto_advance: bool,
    cached: Set<i64>,
    index: int,
    r: &R,
    post: &Playlist,
    t: &Transition,
) -> bool {
    &&& 0 <= index < items.len()
    &&& match items[index] {
        PlaylistItem::Stop => stop_outcome(items.remove(index), current, auto_advance, cached, post, t),
        PlaylistItem::Track { track, .. } => air_outcome(
            items.remove(index),
            current,
            track,
            auto_playlist,
            auto_advance,
            cached,
            r,
            post,
            t,
        ),
    }
}

/// `post` and `t` are what arming the outage retry gives: the playlist waits
/// for the share, and a timer already pending is not armed again.
pub open spec fn arm_outcome(
    items: Seq<PlaylistItem>,
    current: Option<Track>,
    auto_playlist: bool,
    auto_advance: bool,
    cached: Set<i64>,
    attempt: nat,
    armed: bool,
    post: &Playlist,
    t: &Transition,
) -> bool {
    &&& post.items() == items
    &&& post.current() == current
    &&& post.auto_playlist() == auto_playlist
    &&& post.auto_advance() == auto_advance
    &&& post.cached() == cached
    &&& post.awaiting()
    &&& post.armed()
    &&& if armed {
        post.attempt() == attempt && t.is_nothing()
    } else {
        &&& post.attempt() == attempt + 1
        &&& t.effects@ == seq![Effect::ArmRetry(attempt as usize)]
        &&& t.displaced is None
    }
}

/// `post` and `t` are what advancing from the given state gives: play the
/// first cached track or honour the first stop marker, fall back to the head
/// without cache knowledge (or wait, after a failure), wait for the share when
/// nothing upcoming is cached, and cancel the retry when nothing is queued.
pub open spec fn advance_outcome<R: Refiller>(
    items: Seq<PlaylistItem>,
    current: Option<Track>,
    auto_playlist: bool,
    auto_advance: bool,
    cached: Set<i64>,
    attempt: nat,
    armed: bool,
    after_failure: bool,
    r: &R,
    post: &Playlist,
    t: &Transition,
) -> bool {
    match spec_plan(items, cached) {
        Plan::Empty => {
            &&& post.items() == items
            &&& post.current() == current
            &&& post.auto_playlist() == auto_playlist
            &&& post.auto_advance() == auto_advance
            &&& post.cached() == cached
            &&& post.retry_clear()
            &&& t.effects@ == seq![Effect::CancelRetry]
            &&& t.displaced is None
        },
        Plan::Fallback => if after_failure {
            arm_outcome(items, current, auto_playlist, auto_advance, cached, attempt, armed, post, t)
        } else {
            take_outcome(items, current, auto_playlist, auto_advance, cached, 0, r, post, t)
        },
        Plan::Stop(i) => take_outcome(
            items,
            current,
            auto_playlist,
            auto_advance,
            cached,
            i as int,
            r,
            post,
            t,
        ),
        Plan::Play(i) => take_outcome(
            items,
            current,
            auto_playlist,
            auto_advance,
            cached,
            i as int,
            r,
            post,
            t,
        ),
        Plan::Wait => arm_outcome(
            items,
            current,
            auto_playlist,
            auto_advance,
            cached,
            attempt,
            armed,
            post,
            t,
        ),
    }
}

#[derive(Debug)]
pub struct Playlist {
    items: Vec<PlaylistItem>,
    current: Option<Track>,
    auto_playlist: bool,
    auto_advance: bool,
    /// Track ids resident in the prefetch cache.
    cached_ids: HashSet<i64>,
    awaiting_network: bool,
    /// Index into the backoff schedule for the next retry arm.
    retry_attempt: usize,
    /// A retry timer is pending.
    retry_armed: bool,
}

impl Playlist {
    /// Upcoming items in order.
    pub closed spec fn items(&self) -> Seq<PlaylistItem> {
        self.items@
    }

    /// The track on the main deck.
    pub closed spec fn current(&self) -> Option<Track> {
        self.current
    }

    pub closed spec fn auto_playlist(&self) -> bool {
        self.auto_playlist
    }

    pub closed spec fn auto_advance(&self) -> bool {
        self.auto_advance
    }

    /// Track ids known to be in the prefetch cache.
    pub closed spec fn cached(&self) -> Set<i64> {
        self.cached_ids@
    }

    /// Playback is waiting for the media share.
    pub closed spec fn awaiting(&self) -> bool {
        self.awaiting_network
    }

    /// The backoff index the next armed retry uses.
    pub closed spec fn attempt(&self) -> nat {
        self.retry_attempt as nat
    }

    /// A retry timer is pending.
    pub closed spec fn armed(&self) -> bool {
        self.retry_armed
    }

    /// The retry bookkeeping is consistent: the playlist waits for the share
    /// exactly while some retry has been armed since the last track change,
    /// and a pending timer implies waiting.
    pub closed spec fn wf(&self) -> bool {
        &&& (self.awaiting_network <==> self.retry_attempt > 0)
        &&& (self.retry_armed ==> self.awaiting_network)
    }

    /// `self` and `other` agree on everything but the queue.
    pub open spec fn same_but_items(&self, other: &Playlist) -> bool {
        &&& self.current() == other.current()
        &&& self.auto_playlist() == other.auto_playlist()
        &&& self.auto_advance() == other.auto_advance()
        &&& self.cached() == other.cached()
        &&& self.awaiting() == other.awaiting()
        &&& self.attempt() == other.attempt()
        &&& self.armed() == other.armed()
    }

    /// `self` and `other` hold the same state.
    pub open spec fn unchanged(&self, other: &Playlist) -> bool {
        self.items() == other.items() && self.same_but_items(other)
    }

    /// No retry is pending or remembered.
    pub open spec fn retry_clear(&self) -> bool {
        !self.awaiting() && self.attempt() == 0 && !self.armed()
    }

    pub fn new() -> (p: Playlist)
        ensures
            p.wf(),
            p.items() == Seq::<PlaylistItem>::empty(),
            p.current() is None,
            !p.auto_playlist(),
            p.auto_advance(),
            p.cached() == Set::<i64>::empty(),
            p.retry_clear(),
    {
        Playlist {
            items: Vec::new(),
            current: None,
            auto_playlist: false,
            auto_advance: true,
            cached_ids: HashSet::new(),
            awaiting_network: false,
            retry_attempt: 0,
            retry_armed: false,
        }
    }

    // ----- projections -----
    /// The whole state, as the renderer mirrors it.
    pub fn snapshot(&self, displaced: Option<Track>) -> (s: Snapshot)
        ensures
            s.playlist@ == self.items(),
            s.current == self.current(),
            s.displaced == displaced,
            s.auto_playlist_active == self.auto_playlist(),
            s.auto_advance == self.auto_advance(),
            s.awaiting_network == self.awaiting(),
    {
        let mut playlist: Vec<PlaylistItem> = Vec::new();
        let mut i: usize = 0;
        while i < self.items.len()
            invariant
                i <= self.items@.len(),
                playlist@ == self.items@.take(i as int),
            decreases self.items@.len() - i,
        {
            playlist.push(self.items[i].clone());
            proof {
                assert(self.items@.take(i as int + 1) =~= self.items@.take(i as int).push(
                    self.items@[i as int],
                ));
            }
            i = i + 1;
        }
        proof {
            assert(self.items@.take(self.items@.len() as int) =~= self.items@);
        }
        let current = match &self.current {
            Some(t) => Some(t.clone()),
            None => None,
        };
        Snapshot {
            playlist,
            current,
            displaced,
            auto_playlist_active: self.auto_playlist,
            auto_advance: self.auto_advance,
            awaiting_network: self.awaiting_network,
        }
    }

    /// Prefetch residency window: the track on air first, then every track in
    /// the playlist in order. Stop markers contribute nothing.
    pub fn prefetch_window(&self) -> (w: Vec<i64>)
        ensures
            w@ == match self.current() {
                Some(t) => seq![t.id] + track_ids(self.items()),
                None => track_ids(self.items()),
            },
    {
        let mut w: Vec<i64> = Vec::new();
        if let Some(t) = &self.current {
            w.push(t.id);
        }
        let ghost head = w@;
        let mut i: usize = 0;
        while i < self.items.len()
            invariant
                i <= self.items@.len(),
                w@ == head + track_ids(self.items@.take(i as int)),
            decreases self.items@.len() - i,
        {
            proof {
                assert(self.items@.take(i as int + 1).drop_last() =~= self.items@.take(i as int));
            }
            match &self.items[i] {
                PlaylistItem::Track { track, .. } => w.push(track.id),
                PlaylistItem::Stop => {},
            }
            i = i + 1;
        }
        proof {
            assert(self.items@.take(self.items@.len() as int) =~= self.items@);
        }
        w
    }

    // ----- queue mutations -----
    pub fn add(&mut self, track: Track) -> (t: Transition)
        requires
            old(self).wf(),
        ensures
            final(self).wf(),
            final(self).items() == old(self).items().push(
                PlaylistItem::Track { track, cue_override: None },
            ),
            final(self).same_but_items(old(self)),
            t.is_nothing(),
    {
        self.items.push(PlaylistItem::track(track));
        Transition::nothing()
    }

    /// Insert at the head as next-up.
    pub fn add_front(&mut self, track: Track) -> (t: Transition)
        requires
            old(self).wf(),
        ensures
            final(self).wf(),
            final(self).items() == seq![PlaylistItem::Track { track, cue_override: None }]
                + old(self).items(),
            final(self).same_but_items(old(self)),
            t.is_nothing(),
    {
        self.items.insert(0, PlaylistItem::track(track));
        proof {
            assert(self.items@ =~= seq![PlaylistItem::Track { track, cue_override: None }]
                + old(self).items@);
        }
        Transition::nothing()
    }

    pub fn add_stop(&mut self) -> (t: Transition)
        requires
            old(self).wf(),
        ensures
            final(self).wf(),
            final(self).items() == old(self).items().push(PlaylistItem::Stop),
            final(self).same_but_items(old(self)),
            t.is_nothing(),
    {
        self.items.push(PlaylistItem::Stop);
        Transition::nothing()
    }

    /// Remove the item at `index`; an index past the end is a no-op. The
    /// track on air is never touched.
    pub fn remove(&mut self, index: usize) -> (t: Transition)
        requires
            old(self).wf(),
        ensures
            final(self).wf(),
            index < old(self).items().len() ==> final(self).items() == old(self).items().remove(
                index as int,
            ),
            index >= old(self).items().len() ==> final(self).items() == old(self).items(),
            final(self).same_but_items(old(self)),
            t.is_nothing(),
    {
        if index < self.items.len() {
            self.items.remove(index);
        }
        Transition::nothing()
    }

    /// Move the item at `from` to position `to`. A no-op when the two are equal
    /// or either is past the end.
    pub fn move_item(&mut self, from: usize, to: usize) -> (t: Transition)
        requires
            old(self).wf(),
        ensures
            final(self).wf(),
            (from == to || from >= old(self).items().len() || to >= old(self).items().len())
                ==> final(self).items() == old(self).items(),
            !(from == to || from >= old(self).items().len() || to >= old(self).items().len())
                ==> final(self).items() == old(self).items().remove(from as int).insert(
                to as int,
                old(self).items()[from as int],
            ),
            final(self).same_but_items(old(self)),
            t.is_nothing(),
    {
        if from == to || from >= self.items.len() || to >= self.items.len() {
            return Transition::nothing();
        }
        let item = self.items.remove(from);
        self.items.insert(to, item);
        Transition::nothing()
    }

    /// Empty the queue; the track on air stays.
    pub fn clear(&mut self) -> (t: Transition)
        requires
            old(self).wf(),
        ensures
            final(self).wf(),
            final(self).items() == Seq::<PlaylistItem>::empty(),
            final(self).same_but_items(old(self)),
            t.is_nothing(),
    {
        self.items.clear();
        Transition::nothing()
    }

    pub fn set_auto_advance(&mut self, on: bool) -> (t: Transition)
        requires
            old(self).wf(),
        ensures
            final(self).wf(),
            final(self).auto_advance() == on,
            final(self).items() == old(self).items(),
            final(self).current() == old(self).current(),
            final(self).auto_playlist() == old(self).auto_playlist(),
            final(self).cached() == old(self).cached(),
            final(self).awaiting() == old(self).awaiting(),
            final(self).attempt() == old(self).attempt(),
            final(self).armed() == old(self).armed(),
            t.is_nothing(),
    {
        self.auto_advance = on;
        Transition::nothing()
    }

    // ----- internals -----
    fn clear_retry(&mut self)
        ensures
            final(self).wf(),
            final(self).retry_clear(),
            final(self).items() == old(self).items(),
            final(self).current() == old(self).current(),
            final(self).auto_playlist() == old(self).auto_playlist(),
            final(self).auto_advance() == old(self).auto_advance(),
            final(self).cached() == old(self).cached(),
    {
        self.retry_armed = false;
        self.retry_attempt = 0;
        self.awaiting_network = false;
    }

    /// Top the playlist up from `r` when a refill is due.
    #[verifier::loop_isolation(false)]
    fn refill<R: Refiller>(&mut self, r: &R)
        requires
            old(self).wf(),
        ensures
            final(self).wf(),
            refilled(r, old(self).items(), final(self).items(), old(self).auto_playlist()),
            final(self).same_but_items(old(self)),
    {
        if !self.auto_playlist {
            return;
        }
        let mut k: usize = 0;
        while k < self.items.len()
            invariant
                k <= self.items@.len(),
                forall|j: int| 0 <= j < k ==> !(#[trigger] self.items@[j] is Stop),
            decreases self.items@.len() - k,
        {
            if self.items[k].is_stop() {
                return;
            }
            k = k + 1;
        }
        assert(!has_stop(self.items@));
        let threshold = r.threshold();
        if threshold <= 0 || self.items.len() as u128 >= threshold as u128 {
            return;
        }
        let queued = self.items.len() as i64;
        let mut exclude: Vec<i64> = Vec::new();
        let mut i: usize = 0;
        while i < self.items.len()
            invariant
                i <= self.items@.len(),
                exclude@ == track_ids(self.items@.take(i as int)),
            decreases self.items@.len() - i,
        {
            proof {
                assert(self.items@.take(i as int + 1).drop_last() =~= self.items@.take(i as int));
            }
            match &self.items[i] {
                PlaylistItem::Track { track, .. } => exclude.push(track.id),
                PlaylistItem::Stop => {},
            }
            i = i + 1;
        }
        proof {
            assert(self.items@.take(self.items@.len() as int) =~= self.items@);
        }
        let buffer = r.buffer();
        let count = if buffer >= i64::MIN + queued {
            buffer - queued
        } else {
            i64::MIN
        };
        let tracks = r.generate(count, exclude.as_slice());
        let ghost before = self.items@;
        let mut j: usize = 0;
        while j < tracks.len()
            invariant
                j <= tracks@.len(),
                self.items@ == before + as_items(tracks@.take(j as int)),
                self.current == old(self).current,
                self.auto_playlist == old(self).auto_playlist,
                self.auto_advance == old(self).auto_advance,
                self.cached_ids == old(self).cached_ids,
                self.awaiting_network == old(self).awaiting_network,
                self.retry_attempt == old(self).retry_attempt,
                self.retry_armed == old(self).retry_armed,
            decreases tracks@.len() - j,
        {
            let t = tracks[j].clone();
            self.items.push(PlaylistItem::track(t));
            proof {
                assert(as_items(tracks@.take(j as int + 1)) =~= as_items(
                    tracks@.take(j as int),
                ).push(PlaylistItem::Track { track: tracks@[j as int], cue_override: None }));
            }
            j = j + 1;
        }
        proof {
            assert(tracks@.take(tracks@.len() as int) =~= tracks@);
            assert(self.items@ == before + as_items(tracks@));
            assert(exclude@ == track_ids(before));
            assert(count == refill_count(r.buffer_size(), before.len() as int));
            assert(r.generated(count, exclude@, tracks@));
        }
    }
}

impl Playlist {
    /// Put `track` on air. Any pending outage retry is superseded.
    fn set_current<R: Refiller>(&mut self, track: Track, r: &R) -> (t: Transition)
        requires
            old(self).wf(),
        ensures
            final(self).wf(),
            air_outcome(
                old(self).items(),
                None,
                track,
                old(self).auto_playlist(),
                old(self).auto_advance(),
                old(self).cached(),
                r,
                final(self),
                &t,
            ),
    {
        self.clear_retry();
        let id = track.id;
        self.current = Some(track);
        self.refill(r);
        Transition::effects(three_effects(Effect::CancelRetry, Effect::Play(id), Effect::TrackPlayed(id)))
    }

    /// Put `track` on air, reporting what it displaced.
    fn play_track<R: Refiller>(&mut self, track: Track, r: &R) -> (t: Transition)
        requires
            old(self).wf(),
        ensures
            final(self).wf(),
            air_outcome(
                old(self).items(),
                old(self).current(),
                track,
                old(self).auto_playlist(),
                old(self).auto_advance(),
                old(self).cached(),
                r,
                final(self),
                &t,
            ),
    {
        let displaced = self.current.take();
        let mut transition = self.set_current(track, r);
        transition.displaced = displaced;
        transition
    }

    /// Take the track off air. The auto-playlist is switched off and any
    /// pending retry is cancelled; the queue stays as it is.
    pub fn stop(&mut self) -> (t: Transition)
        requires
            old(self).wf(),
        ensures
            final(self).wf(),
            stop_outcome(
                old(self).items(),
                old(self).current(),
                old(self).auto_advance(),
                old(self).cached(),
                final(self),
                &t,
            ),
    {
        self.clear_retry();
        let displaced = self.current.take();
        self.auto_playlist = false;
        Transition { effects: two_effects(Effect::CancelRetry, Effect::Stop), displaced }
    }

    /// Pull the item at `index` out of the playlist and act on it: play a
    /// track, or honour a stop marker by stopping. An index past the end is a
    /// no-op.
    pub fn play_index<R: Refiller>(&mut self, index: usize, r: &R) -> (t: Transition)
        requires
            old(self).wf(),
        ensures
            final(self).wf(),
            index >= old(self).items().len() ==> final(self).unchanged(old(self)) && t.is_nothing(),
            index < old(self).items().len() ==> take_outcome(
                old(self).items(),
                old(self).current(),
                old(self).auto_playlist(),
                old(self).auto_advance(),
                old(self).cached(),
                index as int,
                r,
                final(self),
                &t,
            ),
    {
        if index >= self.items.len() {
            return Transition::nothing();
        }
        match self.items.remove(index) {
            PlaylistItem::Stop => self.stop(),
            PlaylistItem::Track { track, .. } => self.play_track(track, r),
        }
    }

    /// Put a track straight on air, bypassing the playlist.
    pub fn play_now<R: Refiller>(&mut self, track: Track, r: &R) -> (t: Transition)
        requires
            old(self).wf(),
        ensures
            final(self).wf(),
            air_outcome(
                old(self).items(),
                old(self).current(),
                track,
                old(self).auto_playlist(),
                old(self).auto_advance(),
                old(self).cached(),
                r,
                final(self),
                &t,
            ),
    {
        self.play_track(track, r)
    }

    /// Play the head of the playlist; a no-op when it is empty.
    pub fn next<R: Refiller>(&mut self, r: &R) -> (t: Transition)
        requires
            old(self).wf(),
        ensures
            final(self).wf(),
            old(self).items().len() == 0 ==> final(self).unchanged(old(self)) && t.is_nothing(),
            old(self).items().len() > 0 ==> take_outcome(
                old(self).items(),
                old(self).current(),
                old(self).auto_playlist(),
                old(self).auto_advance(),
                old(self).cached(),
                0,
                r,
                final(self),
                &t,
            ),
    {
        if self.items.len() == 0 {
            return Transition::nothing();
        }
        self.play_index(0, r)
    }

    /// Step back to `previous`, returning whatever is on air to the head of the
    /// playlist. Nothing is displaced: history is stepped back through, not
    /// appended to.
    pub fn prev<R: Refiller>(&mut self, previous: Track, r: &R) -> (t: Transition)
        requires
            old(self).wf(),
        ensures
            final(self).wf(),
            air_outcome(
                match old(self).current() {
                    Some(c) => seq![PlaylistItem::Track { track: c, cue_override: None }] + old(
                        self,
                    ).items(),
                    None => old(self).items(),
                },
                None,
                previous,
                old(self).auto_playlist(),
                old(self).auto_advance(),
                old(self).cached(),
                r,
                final(self),
                &t,
            ),
    {
        if let Some(current) = self.current.take() {
            self.items.insert(0, PlaylistItem::track(current));
            proof {
                assert(self.items@ =~= seq![
                    PlaylistItem::Track { track: old(self).current->0, cue_override: None },
                ] + old(self).items@);
            }
        }
        self.set_current(previous, r)
    }

    /// Toggle the auto-playlist. Switching it on tops the playlist up and, if
    /// nothing is on air, starts the show.
    pub fn set_auto_playlist<R: Refiller>(&mut self, on: bool, r: &R) -> (t: Transition)
        requires
            old(self).wf(),
        ensures
            final(self).wf(),
            !on ==> {
                &&& !final(self).auto_playlist()
                &&& final(self).items() == old(self).items()
                &&& final(self).current() == old(self).current()
                &&& final(self).auto_advance() == old(self).auto_advance()
                &&& final(self).cached() == old(self).cached()
                &&& final(self).awaiting() == old(self).awaiting()
                &&& final(self).attempt() == old(self).attempt()
                &&& final(self).armed() == old(self).armed()
                &&& t.is_nothing()
            },
            on ==> exists|mid: Seq<PlaylistItem>|
                {
                    &&& #[trigger] refilled(r, old(self).items(), mid, true)
                    &&& if old(self).current() is None && mid.len() > 0 {
                        take_outcome(
                            mid,
                            None,
                            true,
                            old(self).auto_advance(),
                            old(self).cached(),
                            0,
                            r,
                            final(self),
                            &t,
                        )
                    } else {
                        &&& final(self).items() == mid
                        &&& final(self).auto_playlist()
                        &&& final(self).current() == old(self).current()
                        &&& final(self).auto_advance() == old(self).auto_advance()
                        &&& final(self).cached() == old(self).cached()
                        &&& final(self).awaiting() == old(self).awaiting()
                        &&& final(self).attempt() == old(self).attempt()
                        &&& final(self).armed() == old(self).armed()
                        &&& t.is_nothing()
                    }
                },
    {
        self.auto_playlist = on;
        if !on {
            return Transition::nothing();
        }
        self.refill(r);
        let ghost mid = self.items@;
        if self.current.is_none() && self.items.len() > 0 {
            let t = self.play_index(0, r);
            assert(refilled(r, old(self).items(), mid, true));
            return t;
        }
        assert(refilled(r, old(self).items(), mid, true));
        Transition::nothing()
    }
}

impl Playlist {
    fn plan(&self) -> (p: Plan)
        ensures
            p == spec_plan(self.items(), self.cached()),
    {
        if self.items.len() == 0 {
            return Plan::Empty;
        }
        if self.cached_ids.is_empty() {
            return Plan::Fallback;
        }
        let mut i: usize = 0;
        while i < self.items.len()
            invariant
                0 <= i <= self.items@.len(),
                self.items@.len() > 0,
                !self.cached_ids@.is_empty(),
                scan_from(self.items@, self.cached_ids@, 0) == scan_from(
                    self.items@,
                    self.cached_ids@,
                    i as int,
                ),
            decreases self.items@.len() - i,
        {
            match &self.items[i] {
                PlaylistItem::Stop => return Plan::Stop(i),
                PlaylistItem::Track { track, .. } => {
                    if self.cached_ids.contains(&track.id) {
                        return Plan::Play(i);
                    }
                },
            }
            i = i + 1;
        }
        Plan::Wait
    }

    fn arm_retry(&mut self) -> (t: Transition)
        requires
            old(self).wf(),
            old(self).attempt() < usize::MAX,
        ensures
            final(self).wf(),
            arm_outcome(
                old(self).items(),
                old(self).current(),
                old(self).auto_playlist(),
                old(self).auto_advance(),
                old(self).cached(),
                old(self).attempt(),
                old(self).armed(),
                final(self),
                &t,
            ),
    {
        if self.retry_armed {
            self.awaiting_network = true;
            return Transition::nothing();
        }
        self.retry_armed = true;
        let attempt = self.retry_attempt;
        self.retry_attempt = self.retry_attempt + 1;
        self.awaiting_network = true;
        Transition::effects(one_effect(Effect::ArmRetry(attempt)))
    }

    fn advance<R: Refiller>(&mut self, after_failure: bool, r: &R) -> (t: Transition)
        requires
            old(self).wf(),
            old(self).attempt() < usize::MAX,
        ensures
            final(self).wf(),
            advance_outcome(
                old(self).items(),
                old(self).current(),
                old(self).auto_playlist(),
                old(self).auto_advance(),
                old(self).cached(),
                old(self).attempt(),
                old(self).armed(),
                after_failure,
                r,
                final(self),
                &t,
            ),
    {
        let plan = self.plan();
        let n = self.items.len();
        proof {
            assert(self.items@.len() == n);
            lemma_scan_from_in_range(self.items@, self.cached_ids@, 0);
        }
        match plan {
            Plan::Empty => {
                self.clear_retry();
                Transition::effects(one_effect(Effect::CancelRetry))
            },
            Plan::Fallback => {
                if after_failure {
                    self.arm_retry()
                } else {
                    self.play_index(0, r)
                }
            },
            Plan::Stop(index) => self.play_index(index, r),
            Plan::Play(index) => self.play_index(index, r),
            Plan::Wait => self.arm_retry(),
        }
    }

    // ----- deck events -----
    /// The track on air ended. With auto-advance off this is a stop; otherwise
    /// the playlist is topped up and advances.
    pub fn on_ended<R: Refiller>(&mut self, r: &R) -> (t: Transition)
        requires
            old(self).wf(),
            old(self).attempt() < usize::MAX,
        ensures
            final(self).wf(),
            !old(self).auto_advance() ==> stop_outcome(
                old(self).items(),
                old(self).current(),
                old(self).auto_advance(),
                old(self).cached(),
                final(self),
                &t,
            ),
            old(self).auto_advance() ==> exists|mid: Seq<PlaylistItem>|
                {
                    &&& #[trigger] refilled(r, old(self).items(), mid, old(self).auto_playlist())
                    &&& advance_outcome(
                        mid,
                        old(self).current(),
                        old(self).auto_playlist(),
                        old(self).auto_advance(),
                        old(self).cached(),
                        old(self).attempt(),
                        old(self).armed(),
                        false,
                        r,
                        final(self),
                        &t,
                    )
                },
    {
        if !self.auto_advance {
            return self.stop();
        }
        self.refill(r);
        let ghost mid = self.items@;
        let t = self.advance(false, r);
        assert(refilled(r, old(self).items(), mid, old(self).auto_playlist()));
        t
    }

    /// A read failed after retries, or the watchdog fired: skip to the next
    /// cached track, or wait for the share. Nothing happens with auto-advance
    /// off.
    pub fn on_load_failed<R: Refiller>(&mut self, r: &R) -> (t: Transition)
        requires
            old(self).wf(),
            old(self).attempt() < usize::MAX,
        ensures
            final(self).wf(),
            !old(self).auto_advance() ==> final(self).unchanged(old(self)) && t.is_nothing(),
            old(self).auto_advance() ==> advance_outcome(
                old(self).items(),
                old(self).current(),
                old(self).auto_playlist(),
                old(self).auto_advance(),
                old(self).cached(),
                old(self).attempt(),
                old(self).armed(),
                true,
                r,
                final(self),
                &t,
            ),
    {
        if !self.auto_advance {
            return Transition::nothing();
        }
        self.advance(true, r)
    }

    /// Cache membership changed to `ids`. While playback is stalled waiting for
    /// the share, a newly cached track may now be playable.
    pub fn on_cache_state<R: Refiller>(&mut self, ids: Vec<i64>, r: &R) -> (t: Transition)
        requires
            old(self).wf(),
            old(self).attempt() < usize::MAX,
        ensures
            final(self).wf(),
            final(self).cached() == ids@.to_set(),
            !old(self).awaiting() ==> {
                &&& final(self).items() == old(self).items()
                &&& final(self).current() == old(self).current()
                &&& final(self).auto_playlist() == old(self).auto_playlist()
                &&& final(self).auto_advance() == old(self).auto_advance()
                &&& final(self).awaiting() == old(self).awaiting()
                &&& final(self).attempt() == old(self).attempt()
                &&& final(self).armed() == old(self).armed()
                &&& t.is_nothing()
            },
            old(self).awaiting() ==> advance_outcome(
                old(self).items(),
                old(self).current(),
                old(self).auto_playlist(),
                old(self).auto_advance(),
                ids@.to_set(),
                old(self).attempt(),
                old(self).armed(),
                true,
                r,
                final(self),
                &t,
            ),
    {
        let mut set: HashSet<i64> = HashSet::new();
        let mut i: usize = 0;
        while i < ids.len()
            invariant
                i <= ids@.len(),
                set@ == ids@.take(i as int).to_set(),
            decreases ids@.len() - i,
        {
            set.insert(ids[i]);
            proof {
                assert(ids@.take(i as int + 1) =~= ids@.take(i as int).push(ids@[i as int]));
                assert(ids@.take(i as int + 1).to_set() =~= ids@.take(i as int).to_set().insert(
                    ids@[i as int],
                )) by {
                    vstd::seq_lib::lemma_seq_contains_after_push(ids@.take(i as int), ids@[i as int], ids@[i as int]);
                }
            }
            i = i + 1;
        }
        proof {
            assert(ids@.take(ids@.len() as int) =~= ids@);
        }
        self.cached_ids = set;
        if self.awaiting_network {
            return self.advance(true, r);
        }
        Transition::nothing()
    }

    /// The outage retry timer fired: the timer is no longer pending, and the
    /// playlist advances as after a failure.
    pub fn on_retry_tick<R: Refiller>(&mut self, r: &R) -> (t: Transition)
        requires
            old(self).wf(),
            old(self).attempt() < usize::MAX,
        ensures
            final(self).wf(),
            advance_outcome(
                old(self).items(),
                old(self).current(),
                old(self).auto_playlist(),
                old(self).auto_advance(),
                old(self).cached(),
                old(self).attempt(),
                false,
                true,
                r,
                final(self),
                &t,
            ),
    {
        self.retry_armed = false;
        self.advance(true, r)
    }

    // ----- session -----
    /// Restore a persisted playlist. The current track is loaded and seeked
    /// but not played: a restart never puts audio on air by itself. A negative
    /// saved position is clamped to the start.
    pub fn hydrate(
        &mut self,
        items: Vec<PlaylistItem>,
        current: Option<Track>,
        position_ms: i64,
        auto_playlist: bool,
        auto_advance: bool,
    ) -> (t: Transition)
        requires
            old(self).wf(),
        ensures
            final(self).wf(),
            final(self).items() == items@,
            final(self).current() == current,
            final(self).auto_playlist() == auto_playlist,
            final(self).auto_advance() == auto_advance,
            final(self).cached() == old(self).cached(),
            final(self).awaiting() == old(self).awaiting(),
            final(self).attempt() == old(self).attempt(),
            final(self).armed() == old(self).armed(),
            t.displaced is None,
            t.effects@ == match current {
                Some(track) => seq![
                    Effect::Resume {
                        id: track.id,
                        position_ms: if position_ms < 0 {
                            0
                        } else {
                            position_ms
                        },
                    },
                ],
                None => Seq::<Effect>::empty(),
            },
    {
        self.items = items;
        self.auto_playlist = auto_playlist;
        self.auto_advance = auto_advance;
        self.current = current;
        match &self.current {
            Some(track) => {
                let position_ms = if position_ms < 0 {
                    0
                } else {
                    position_ms
                };
                Transition::effects(one_effect(Effect::Resume { id: track.id, position_ms }))
            },
            None => Transition::nothing(),
        }
    }
}

/// Adding a track and then removing the last item leaves the queue as it
/// was.
pub proof fn removing_what_was_added_restores_the_queue(items: Seq<PlaylistItem>, track: Track)
    ensures
        items.push(PlaylistItem::Track { track, cue_override: None }).remove(items.len() as int)
            == items,
{
    assert(items.push(PlaylistItem::Track { track, cue_override: None }).remove(items.len() as int)
        =~= items);
}

/// Moving an item and moving it back leaves the queue as it was.
pub proof fn moving_back_restores_the_queue(items: Seq<PlaylistItem>, from: int, to: int)
    requires
        0 <= from < items.len(),
        0 <= to < items.len(),
    ensures
        ({
            let moved = items.remove(from).insert(to, items[from]);
            moved.remove(to).insert(from, moved[to]) == items
        }),
{
    let moved = items.remove(from).insert(to, items[from]);
    assert(moved[to] == items[from]);
    assert(moved.remove(to) =~= items.remove(from));
    assert(moved.remove(to).insert(from, moved[to]) =~= items);
}

/// A refill never buries a stop marker the operator placed: with one queued,
/// the queue is left as it is.
pub proof fn a_refill_never_buries_a_stop<R: Refiller>(
    r: &R,
    before: Seq<PlaylistItem>,
    after: Seq<PlaylistItem>,
    auto_playlist: bool,
)
    requires
        has_stop(before),
        refilled(r, before, after, auto_playlist),
    ensures
        after == before,
{
}

/// During an outage the first cached track is played and the uncached
/// tracks ahead of it stay queued for when the share recovers: everything
/// before the chosen item is an uncached track, never a stop marker.
pub proof fn an_outage_skips_only_uncached_tracks(items: Seq<PlaylistItem>, cached: Set<i64>)
    requires
        items.len() <= usize::MAX,
    ensures
        spec_plan(items, cached) matches Plan::Play(k) ==> forall|j: int|
            0 <= j < k ==> (#[trigger] items[j]) is Track && !cached.contains(items[j]->track.id),
        spec_plan(items, cached) matches Plan::Stop(k) ==> forall|j: int|
            0 <= j < k ==> (#[trigger] items[j]) is Track && !cached.contains(items[j]->track.id),
{
    if items.len() > 0 && !cached.is_empty() {
        lemma_scan_skips(items, cached, 0);
    }
}

proof fn lemma_scan_skips(items: Seq<PlaylistItem>, cached: Set<i64>, i: int)
    requires
        0 <= i,
    ensures
        scan_from(items, cached, i) matches Plan::Play(k) ==> forall|j: int|
            i <= j < k ==> (#[trigger] items[j]) is Track && !cached.contains(items[j]->track.id),
        scan_from(items, cached, i) matches Plan::Stop(k) ==> forall|j: int|
            i <= j < k ==> (#[trigger] items[j]) is Track && !cached.contains(items[j]->track.id),
    decreases items.len() - i,
{
    if i < items.len() {
        lemma_scan_skips(items, cached, i + 1);
    }
}

} // verus!
