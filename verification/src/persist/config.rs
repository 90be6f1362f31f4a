//! The stored configuration: library paths, audio devices, now-playing output
//! and the playback tuning, with the clamps applied whenever tuning is written.

use vstd::prelude::*;

use crate::text::{same_text, views};

verus! {

/// An audio output device, by name and description.
#[derive(Clone, Debug, PartialEq, Eq)]
pub struct DeviceRef {
    pub name: String,
    pub description: String,
}

impl Default for DeviceRef {
    fn default() -> (d: DeviceRef)
        ensures
            d.name@ == Seq::<char>::empty(),
            d.description@ == Seq::<char>::empty(),
    {
        DeviceRef { name: String::new(), description: String::new() }
    }
}

/// Where the now-playing broadcast goes.
#[derive(Clone, Debug, PartialEq, Eq)]
pub struct NowPlayingConfig {
    pub webhook_url: Option<String>,
    pub webhook_secret: Option<String>,
    pub file_dir: Option<String>,
    pub file_enabled: bool,
    pub webhook_enabled: bool,
}

/// The value a missing boolean switch takes: on.
pub fn default_true() -> (b: bool)
    ensures
        b,
{
    true
}

impl Default for NowPlayingConfig {
    fn default() -> (c: NowPlayingConfig)
        ensures
            c.webhook_url is None,
            c.webhook_secret is None,
            c.file_dir is None,
            c.file_enabled,
            c.webhook_enabled,
    {
        NowPlayingConfig {
            webhook_url: None,
            webhook_secret: None,
            file_dir: None,
            file_enabled: true,
            webhook_enabled: true,
        }
    }
}

/// Playlist interleave cadence: how often jingles and commercials are woven
/// into a generated block of music, and how the commercial bucket is sized.
#[derive(Clone, Copy, Debug, PartialEq, Eq)]
pub struct InterleaveConfig {
    pub jingle_every: i64,
    pub commercial_every: i64,
    pub commercial_bucket_multiplier: i64,
    pub commercial_bucket_min: i64,
}

pub fn default_jingle_every() -> (v: i64)
    ensures
        v == 4,
{
    4
}

pub fn default_commercial_every() -> (v: i64)
    ensures
        v == 8,
{
    8
}

pub fn default_commercial_bucket_multiplier() -> (v: i64)
    ensures
        v == 3,
{
    3
}

pub fn default_commercial_bucket_min() -> (v: i64)
    ensures
        v == 10,
{
    10
}

impl Default for InterleaveConfig {
    fn default() -> (c: InterleaveConfig)
        ensures
            c.jingle_every == 4,
            c.commercial_every == 8,
            c.commercial_bucket_multiplier == 3,
            c.commercial_bucket_min == 10,
    {
        InterleaveConfig {
            jingle_every: default_jingle_every(),
            commercial_every: default_commercial_every(),
            commercial_bucket_multiplier: default_commercial_bucket_multiplier(),
            commercial_bucket_min: default_commercial_bucket_min(),
        }
    }
}

/// Auto-playlist and session tuning.
#[derive(Clone, Debug, PartialEq, Eq)]
pub struct AutoPlaylistConfig {
    pub auto_playlist_buffer: usize,
    pub auto_playlist_threshold: usize,
    pub history_cap: usize,
    pub session_save_throttle_ms: u64,
    pub net_retry_backoffs_ms: Vec<u64>,
}

pub fn default_auto_playlist_buffer() -> (v: usize)
    ensures
        v == 20,
{
    20
}

pub fn default_auto_playlist_threshold() -> (v: usize)
    ensures
        v == 5,
{
    5
}

pub fn default_history_cap() -> (v: usize)
    ensures
        v == 100,
{
    100
}

pub fn default_session_save_throttle_ms() -> (v: u64)
    ensures
        v == 500,
{
    500
}

/// The outage retry schedule: one, two, then five seconds.
pub open spec fn spec_default_net_retry_backoffs_ms() -> Seq<u64> {
    seq![1000u64, 2000u64, 5000u64]
}

pub fn default_net_retry_backoffs_ms() -> (v: Vec<u64>)
    ensures
        v@ == spec_default_net_retry_backoffs_ms(),
{
    let mut v = Vec::new();
    v.push(1000);
    v.push(2000);
    v.push(5000);
    v
}

impl Default for AutoPlaylistConfig {
    fn default() -> (c: AutoPlaylistConfig)
        ensures
            c.auto_playlist_buffer == 20,
            c.auto_playlist_threshold == 5,
            c.history_cap == 100,
            c.session_save_throttle_ms == 500,
            c.net_retry_backoffs_ms@ == spec_default_net_retry_backoffs_ms(),
    {
        AutoPlaylistConfig {
            auto_playlist_buffer: default_auto_playlist_buffer(),
            auto_playlist_threshold: default_auto_playlist_threshold(),
            history_cap: default_history_cap(),
            session_save_throttle_ms: default_session_save_throttle_ms(),
            net_retry_backoffs_ms: default_net_retry_backoffs_ms(),
        }
    }
}

/// The prefetch cache's default byte budget.
pub const MAX_CACHE_BYTES: usize = 157286400;

/// The smallest cache budget a write keeps: enough for one whole track.
pub const MIN_CACHE_BYTES: usize = 16777216;

/// Prefetch byte-cache tuning.
#[derive(Clone, Copy, Debug, PartialEq, Eq)]
pub struct CacheConfig {
    pub max_cache_bytes: usize,
}

pub fn default_max_cache_bytes() -> (v: usize)
    ensures
        v == MAX_CACHE_BYTES,
{
    MAX_CACHE_BYTES
}

impl Default for CacheConfig {
    fn default() -> (c: CacheConfig)
        ensures
            c.max_cache_bytes == MAX_CACHE_BYTES,
    {
        CacheConfig { max_cache_bytes: default_max_cache_bytes() }
    }
}

/// Audio-player network-resilience timeouts, in milliseconds.
#[derive(Clone, Debug, PartialEq, Eq)]
pub struct PlayerConfig {
    pub read_watchdog_timeout_ms: u64,
    pub open_retry_interval_ms: u64,
    pub read_retry_backoffs_ms: Vec<u64>,
}

pub fn default_read_watchdog_timeout_ms() -> (v: u64)
    ensures
        v == 10_000,
{
    10_000
}

pub fn default_open_retry_interval_ms() -> (v: u64)
    ensures
        v == 2_000,
{
    2_000
}

/// The per-read retry schedule: half a second, one, then two seconds.
pub open spec fn spec_default_read_retry_backoffs_ms() -> Seq<u64> {
    seq![500u64, 1000u64, 2000u64]
}

pub fn default_read_retry_backoffs_ms() -> (v: Vec<u64>)
    ensures
        v@ == spec_default_read_retry_backoffs_ms(),
{
    let mut v = Vec::new();
    v.push(500);
    v.push(1000);
    v.push(2000);
    v
}

impl Default for PlayerConfig {
    fn default() -> (c: PlayerConfig)
        ensures
            c.read_watchdog_timeout_ms == 10_000,
            c.open_retry_interval_ms == 2_000,
            c.read_retry_backoffs_ms@ == spec_default_read_retry_backoffs_ms(),
    {
        PlayerConfig {
            read_watchdog_timeout_ms: default_read_watchdog_timeout_ms(),
            open_retry_interval_ms: default_open_retry_interval_ms(),
            read_retry_backoffs_ms: default_read_retry_backoffs_ms(),
        }
    }
}

/// Music rotation: how long, in minutes, a title and an artist stay out of
/// the auto-playlist after they aired; `0` (or less) turns a rule off.
#[derive(Clone, Copy, Debug, PartialEq, Eq, Structural)]
pub struct RotationConfig {
    pub title_window_min: i64,
    pub artist_window_min: i64,
}

/// The title window a missing setting takes.
pub fn default_title_window_min() -> (v: i64)
    ensures
        v == 180,
{
    180
}

/// The artist window a missing setting takes.
pub fn default_artist_window_min() -> (v: i64)
    ensures
        v == 45,
{
    45
}

impl Default for RotationConfig {
    fn default() -> (c: RotationConfig)
        ensures
            c.title_window_min == 180,
            c.artist_window_min == 45,
    {
        RotationConfig {
            title_window_min: default_title_window_min(),
            artist_window_min: default_artist_window_min(),
        }
    }
}

/// User-tunable playback behaviour.
#[derive(Clone, Debug, PartialEq, Eq)]
pub struct TuningConfig {
    pub interleave: InterleaveConfig,
    pub auto_playlist: AutoPlaylistConfig,
    pub cache: CacheConfig,
    pub player: PlayerConfig,
    pub rotation: RotationConfig,
}

impl TuningConfig {
    /// Every section holds its defaults.
    pub open spec fn is_default(&self) -> bool {
        &&& self.interleave.jingle_every == 4
        &&& self.interleave.commercial_every == 8
        &&& self.interleave.commercial_bucket_multiplier == 3
        &&& self.interleave.commercial_bucket_min == 10
        &&& self.auto_playlist.auto_playlist_buffer == 20
        &&& self.auto_playlist.auto_playlist_threshold == 5
        &&& self.auto_playlist.history_cap == 100
        &&& self.auto_playlist.session_save_throttle_ms == 500
        &&& self.auto_playlist.net_retry_backoffs_ms@ == spec_default_net_retry_backoffs_ms()
        &&& self.cache.max_cache_bytes == MAX_CACHE_BYTES
        &&& self.player.read_watchdog_timeout_ms == 10_000
        &&& self.player.open_retry_interval_ms == 2_000
        &&& self.player.read_retry_backoffs_ms@ == spec_default_read_retry_backoffs_ms()
        &&& self.rotation.title_window_min == 180
        &&& self.rotation.artist_window_min == 45
    }
}

impl Default for TuningConfig {
    fn default() -> (t: TuningConfig)
        ensures
            t.is_default(),
    {
        TuningConfig {
            interleave: InterleaveConfig::default(),
            auto_playlist: AutoPlaylistConfig::default(),
            cache: CacheConfig::default(),
            player: PlayerConfig::default(),
            rotation: RotationConfig::default(),
        }
    }
}

/// A retry schedule as a write stores it: an empty one becomes `default`,
/// and every delay is at least one millisecond.
pub open spec fn clamped_schedule(s: Seq<u64>, default: Seq<u64>) -> Seq<u64> {
    if s.len() == 0 {
        default
    } else {
        s.map_values(|b: u64| if b < 1 {
            1u64
        } else {
            b
        })
    }
}

/// `t` clamped to the ranges that keep generation and playback safe.
pub open spec fn normalized(t: TuningConfig, n: TuningConfig) -> bool {
    &&& n.rotation == t.rotation
    &&& n.interleave.jingle_every == if t.interleave.jingle_every < 0 {
        0
    } else {
        t.interleave.jingle_every
    }
    &&& n.interleave.commercial_every == if t.interleave.commercial_every < 0 {
        0
    } else {
        t.interleave.commercial_every
    }
    &&& n.interleave.commercial_bucket_multiplier == if t.interleave.commercial_bucket_multiplier
        < 1 {
        1
    } else {
        t.interleave.commercial_bucket_multiplier
    }
    &&& n.interleave.commercial_bucket_min == if t.interleave.commercial_bucket_min < 0 {
        0
    } else {
        t.interleave.commercial_bucket_min
    }
    &&& n.auto_playlist.auto_playlist_buffer == if t.auto_playlist.auto_playlist_buffer < 1 {
        1
    } else {
        t.auto_playlist.auto_playlist_buffer
    }
    &&& n.auto_playlist.auto_playlist_threshold == if t.auto_playlist.auto_playlist_threshold < 1 {
        1
    } else if t.auto_playlist.auto_playlist_threshold > n.auto_playlist.auto_playlist_buffer {
        n.auto_playlist.auto_playlist_buffer
    } else {
        t.auto_playlist.auto_playlist_threshold
    }
    &&& n.auto_playlist.history_cap == if t.auto_playlist.history_cap < 1 {
        1
    } else {
        t.auto_playlist.history_cap
    }
    &&& n.auto_playlist.session_save_throttle_ms == t.auto_playlist.session_save_throttle_ms
    &&& n.auto_playlist.net_retry_backoffs_ms@ == clamped_schedule(
        t.auto_playlist.net_retry_backoffs_ms@,
        spec_default_net_retry_backoffs_ms(),
    )
    &&& n.cache.max_cache_bytes == if t.cache.max_cache_bytes < MIN_CACHE_BYTES {
        MIN_CACHE_BYTES
    } else {
        t.cache.max_cache_bytes
    }
    &&& n.player.read_watchdog_timeout_ms == if t.player.read_watchdog_timeout_ms < 1 {
        1
    } else {
        t.player.read_watchdog_timeout_ms
    }
    &&& n.player.open_retry_interval_ms == if t.player.open_retry_interval_ms < 1 {
        1
    } else {
        t.player.open_retry_interval_ms
    }
    &&& n.player.read_retry_backoffs_ms@ == clamped_schedule(
        t.player.read_retry_backoffs_ms@,
        spec_default_read_retry_backoffs_ms(),
    )
}

/// Raise every delay of a non-empty schedule to at least one millisecond, or
/// replace an empty schedule by `default`.
fn clamp_schedule(s: Vec<u64>, default: Vec<u64>) -> (r: Vec<u64>)
    ensures
        r@ == clamped_schedule(s@, default@),
{
    if s.len() == 0 {
        return default;
    }
    let mut r: Vec<u64> = Vec::new();
    let mut i: usize = 0;
    while i < s.len()
        invariant
            i <= s@.len(),
            r@ == s@.take(i as int).map_values(|b: u64| if b < 1 {
                1u64
            } else {
                b
            }),
        decreases s@.len() - i,
    {
        let b = s[i];
        r.push(if b < 1 {
            1
        } else {
            b
        });
        proof {
            assert(s@.take(i as int + 1) =~= s@.take(i as int).push(s@[i as int]));
            assert(s@.take(i as int + 1).map_values(|b: u64| if b < 1 {
                1u64
            } else {
                b
            }) =~= s@.take(i as int).map_values(|b: u64| if b < 1 {
                1u64
            } else {
                b
            }).push(if s@[i as int] < 1 {
                1u64
            } else {
                s@[i as int]
            }));
        }
        i = i + 1;
    }
    proof {
        assert(s@.take(s@.len() as int) =~= s@);
    }
    r
}

/// Clamp tuning values to ranges that keep the backend and renderer safe:
/// cadences cannot go negative (`0` disables one), the bucket multiplier and
/// every counter are at least 1, the refill threshold never exceeds its buffer,
/// the cache keeps a floor so one track can stay resident, and retry schedules
/// are non-empty with non-zero delays.
pub fn normalize_tuning(t: TuningConfig) -> (n: TuningConfig)
    ensures
        normalized(t, n),
{
    let TuningConfig { interleave, auto_playlist, cache, player, rotation } = t;
    let interleave = InterleaveConfig {
        jingle_every: if interleave.jingle_every < 0 {
            0
        } else {
            interleave.jingle_every
        },
        commercial_every: if interleave.commercial_every < 0 {
            0
        } else {
            interleave.commercial_every
        },
        commercial_bucket_multiplier: if interleave.commercial_bucket_multiplier < 1 {
            1
        } else {
            interleave.commercial_bucket_multiplier
        },
        commercial_bucket_min: if interleave.commercial_bucket_min < 0 {
            0
        } else {
            interleave.commercial_bucket_min
        },
    };
    let AutoPlaylistConfig {
        auto_playlist_buffer,
        auto_playlist_threshold,
        history_cap,
        session_save_throttle_ms,
        net_retry_backoffs_ms,
    } = auto_playlist;
    let buffer = if auto_playlist_buffer < 1 {
        1
    } else {
        auto_playlist_buffer
    };
    let threshold = if auto_playlist_threshold < 1 {
        1
    } else if auto_playlist_threshold > buffer {
        buffer
    } else {
        auto_playlist_threshold
    };
    let auto_playlist = AutoPlaylistConfig {
        auto_playlist_buffer: buffer,
        auto_playlist_threshold: threshold,
        history_cap: if history_cap < 1 {
            1
        } else {
            history_cap
        },
        session_save_throttle_ms,
        net_retry_backoffs_ms: clamp_schedule(
            net_retry_backoffs_ms,
            default_net_retry_backoffs_ms(),
        ),
    };
    let cache = CacheConfig {
        max_cache_bytes: if cache.max_cache_bytes < MIN_CACHE_BYTES {
            MIN_CACHE_BYTES
        } else {
            cache.max_cache_bytes
        },
    };
    let PlayerConfig { read_watchdog_timeout_ms, open_retry_interval_ms, read_retry_backoffs_ms } =
        player;
    let player = PlayerConfig {
        read_watchdog_timeout_ms: if read_watchdog_timeout_ms < 1 {
            1
        } else {
            read_watchdog_timeout_ms
        },
        open_retry_interval_ms: if open_retry_interval_ms < 1 {
            1
        } else {
            open_retry_interval_ms
        },
        read_retry_backoffs_ms: clamp_schedule(
            read_retry_backoffs_ms,
            default_read_retry_backoffs_ms(),
        ),
    };
    TuningConfig { interleave, auto_playlist, cache, player, rotation }
}

/// The stored configuration as a whole.
#[derive(Clone, Debug, PartialEq, Eq)]
pub struct AppConfig {
    pub music_paths: Vec<String>,
    pub commercial_paths: Vec<String>,
    pub jingle_paths: Vec<String>,
    pub main_device: Option<DeviceRef>,
    pub cue_device: Option<DeviceRef>,
    pub now_playing: NowPlayingConfig,
    pub tuning: TuningConfig,
}

impl Default for AppConfig {
    fn default() -> (c: AppConfig)
        ensures
            c.music_paths@.len() == 0,
            c.commercial_paths@.len() == 0,
            c.jingle_paths@.len() == 0,
            c.main_device is None,
            c.cue_device is None,
            c.tuning.is_default(),
    {
        AppConfig {
            music_paths: Vec::new(),
            commercial_paths: Vec::new(),
            jingle_paths: Vec::new(),
            main_device: None,
            cue_device: None,
            now_playing: NowPlayingConfig::default(),
            tuning: TuningConfig::default(),
        }
    }
}

/// The three library kinds, as a path list is named in the config.
pub open spec fn music_kind() -> Seq<char> {
    seq!['m', 'u', 's', 'i', 'c']
}

pub open spec fn commercial_kind() -> Seq<char> {
    seq!['c', 'o', 'm', 'm', 'e', 'r', 'c', 'i', 'a', 'l']
}

pub open spec fn jingle_kind() -> Seq<char> {
    seq!['j', 'i', 'n', 'g', 'l', 'e']
}

impl AppConfig {
    /// The path list of `kind`, or `None` for a kind that is not a library.
    pub open spec fn spec_paths(&self, kind: Seq<char>) -> Option<Seq<Seq<char>>> {
        if kind == music_kind() {
            Some(views(self.music_paths@))
        } else if kind == commercial_kind() {
            Some(views(self.commercial_paths@))
        } else if kind == jingle_kind() {
            Some(views(self.jingle_paths@))
        } else {
            None
        }
    }

    /// Everything but the path list of `kind` is as in `other`.
    pub open spec fn same_but_paths_of(&self, other: &AppConfig, kind: Seq<char>) -> bool {
        &&& kind != music_kind() ==> self.music_paths@ == other.music_paths@
        &&& kind != commercial_kind() ==> self.commercial_paths@ == other.commercial_paths@
        &&& kind != jingle_kind() ==> self.jingle_paths@ == other.jingle_paths@
        &&& self.main_device == other.main_device
        &&& self.cue_device == other.cue_device
        &&& self.now_playing == other.now_playing
        &&& self.tuning == other.tuning
    }

    /// The path list of `kind`; empty for a kind that is not a library.
    pub fn get_paths(&self, kind: &str) -> (r: Vec<String>)
        ensures
            match self.spec_paths(kind@) {
                Some(p) => views(r@) == p,
                None => r@.len() == 0,
            },
    {
        proof {
            reveal_strlit("music");
            reveal_strlit("commercial");
            reveal_strlit("jingle");
            assert("music"@ =~= music_kind());
            assert("commercial"@ =~= commercial_kind());
            assert("jingle"@ =~= jingle_kind());
        }
        if same_text(kind, "music") {
            copy_strings(&self.music_paths)
        } else if same_text(kind, "commercial") {
            copy_strings(&self.commercial_paths)
        } else if same_text(kind, "jingle") {
            copy_strings(&self.jingle_paths)
        } else {
            Vec::new()
        }
    }

    /// Add `resolved` to the path list of `kind`. Returns whether the list
    /// changed: nothing is added for an unknown kind or a path already listed.
    pub fn add_path(&mut self, kind: &str, resolved: String) -> (added: bool)
        ensures
            match old(self).spec_paths(kind@) {
                None => !added && *final(self) == *old(self),
                Some(p) => if p.contains(resolved@) {
                    !added && *final(self) == *old(self)
                } else {
                    &&& added
                    &&& final(self).spec_paths(kind@) == Some(p.push(resolved@))
                    &&& final(self).same_but_paths_of(old(self), kind@)
                },
            },
    {
        proof {
            reveal_strlit("music");
            reveal_strlit("commercial");
            reveal_strlit("jingle");
            assert("music"@ =~= music_kind());
            assert("commercial"@ =~= commercial_kind());
            assert("jingle"@ =~= jingle_kind());
        }
        proof {
            lemma_views_push(self.music_paths@, resolved);
            lemma_views_push(self.commercial_paths@, resolved);
            lemma_views_push(self.jingle_paths@, resolved);
        }
        if same_text(kind, "music") {
            add_unique(&mut self.music_paths, resolved)
        } else if same_text(kind, "commercial") {
            add_unique(&mut self.commercial_paths, resolved)
        } else if same_text(kind, "jingle") {
            add_unique(&mut self.jingle_paths, resolved)
        } else {
            false
        }
    }

    /// Remove the first occurrence of `resolved` from the path list of `kind`.
    /// Returns whether it was there.
    pub fn remove_path(&mut self, kind: &str, resolved: &str) -> (removed: bool)
        ensures
            match old(self).spec_paths(kind@) {
                None => !removed && *final(self) == *old(self),
                Some(p) => if p.contains(resolved@) {
                    &&& removed
                    &&& final(self).spec_paths(kind@) == Some(
                        p.remove(first_index(p, resolved@)),
                    )
                    &&& final(self).same_but_paths_of(old(self), kind@)
                } else {
                    !removed && *final(self) == *old(self)
                },
            },
    {
        proof {
            reveal_strlit("music");
            reveal_strlit("commercial");
            reveal_strlit("jingle");
            assert("music"@ =~= music_kind());
            assert("commercial"@ =~= commercial_kind());
            assert("jingle"@ =~= jingle_kind());
        }
        if same_text(kind, "music") {
            remove_first(&mut self.music_paths, resolved)
        } else if same_text(kind, "commercial") {
            remove_first(&mut self.commercial_paths, resolved)
        } else if same_text(kind, "jingle") {
            remove_first(&mut self.jingle_paths, resolved)
        } else {
            false
        }
    }
}

proof fn lemma_views_push(v: Seq<String>, s: String)
    ensures
        views(v.push(s)) == views(v).push(s@),
{
    assert(views(v.push(s)) =~= views(v).push(s@));
}

/// The index of the first occurrence of `x` in `s`.
pub open spec fn first_index(s: Seq<Seq<char>>, x: Seq<char>) -> int
    recommends
        s.contains(x),
{
    choose|i: int| 0 <= i < s.len() && s[i] == x && forall|j: int| 0 <= j < i ==> s[j] != x
}

/// A copy of a list of strings.
pub fn copy_strings(v: &Vec<String>) -> (r: Vec<String>)
    ensures
        r@ == v@,
{
    let mut r: Vec<String> = Vec::new();
    let mut i: usize = 0;
    while i < v.len()
        invariant
            i <= v@.len(),
            r@ == v@.take(i as int),
        decreases v@.len() - i,
    {
        r.push(v[i].clone());
        proof {
            assert(v@.take(i as int + 1) =~= v@.take(i as int).push(v@[i as int]));
        }
        i = i + 1;
    }
    proof {
        assert(v@.take(v@.len() as int) =~= v@);
    }
    r
}

fn add_unique(v: &mut Vec<String>, s: String) -> (added: bool)
    ensures
        views(old(v)@).contains(s@) ==> !added && *final(v) == *old(v),
        !views(old(v)@).contains(s@) ==> added && final(v)@ == old(v)@.push(s),
{
    let mut i: usize = 0;
    while i < v.len()
        invariant
            i <= v@.len(),
            forall|j: int| 0 <= j < i ==> v@[j]@ != s@,
        decreases v@.len() - i,
    {
        if v[i] == s {
            proof {
                assert(views(v@)[i as int] == s@);
            }
            return false;
        }
        i = i + 1;
    }
    proof {
        assert forall|j: int| 0 <= j < views(v@).len() implies views(v@)[j] != s@ by {}
    }
    v.push(s);
    true
}

fn remove_first(v: &mut Vec<String>, s: &str) -> (removed: bool)
    ensures
        views(old(v)@).contains(s@) ==> removed && views(final(v)@) == views(old(v)@).remove(
            first_index(views(old(v)@), s@),
        ),
        !views(old(v)@).contains(s@) ==> !removed && *final(v) == *old(v),
{
    let mut i: usize = 0;
    while i < v.len()
        invariant
            i <= v@.len(),
            *v == *old(v),
            forall|j: int| 0 <= j < i ==> v@[j]@ != s@,
        decreases v@.len() - i,
    {
        if same_text(v[i].as_str(), s) {
            let ghost before = views(v@);
            proof {
                assert(before[i as int] == s@);
                assert(first_index(before, s@) == i as int) by {
                    let k = first_index(before, s@);
                    assert(before.contains(s@));
                    if k < i {
                        assert(before[k] == v@[k]@);
                    } else if k > i {
                    }
                }
            }
            v.remove(i);
            proof {
                assert(views(v@) =~= before.remove(i as int));
            }
            return true;
        }
        i = i + 1;
    }
    proof {
        assert forall|j: int| 0 <= j < views(v@).len() implies views(v@)[j] != s@ by {}
    }
    false
}

/// Clamping a tuning that is already clamped changes nothing.
pub proof fn normalizing_twice_changes_nothing(t: TuningConfig, n: TuningConfig)
    requires
        normalized(t, n),
    ensures
        normalized(n, n),
{
    lemma_clamped_schedule_is_stable(
        t.auto_playlist.net_retry_backoffs_ms@,
        spec_default_net_retry_backoffs_ms(),
    );
    lemma_clamped_schedule_is_stable(
        t.player.read_retry_backoffs_ms@,
        spec_default_read_retry_backoffs_ms(),
    );
}

/// The defaults are already in range, so an untouched tuning is stored as it
/// is.
pub proof fn defaults_are_already_in_range(t: TuningConfig)
    requires
        t.is_default(),
    ensures
        normalized(t, t),
{
    let net = t.auto_playlist.net_retry_backoffs_ms@;
    let read = t.player.read_retry_backoffs_ms@;
    assert(clamped_schedule(net, spec_default_net_retry_backoffs_ms()) =~= net);
    assert(clamped_schedule(read, spec_default_read_retry_backoffs_ms()) =~= read);
}

proof fn lemma_clamped_schedule_is_stable(s: Seq<u64>, default: Seq<u64>)
    requires
        default.len() > 0,
        forall|i: int| 0 <= i < default.len() ==> default[i] >= 1,
    ensures
        clamped_schedule(clamped_schedule(s, default), default) == clamped_schedule(s, default),
{
    let c = clamped_schedule(s, default);
    assert(clamped_schedule(c, default) =~= c);
}

/// Adding a library path and removing it again leaves the list as it was.
pub proof fn removing_an_added_path_restores_the_list(p: Seq<Seq<char>>, x: Seq<char>)
    requires
        !p.contains(x),
    ensures
        p.push(x).contains(x),
        p.push(x).remove(first_index(p.push(x), x)) == p,
{
    let q = p.push(x);
    assert(q[p.len() as int] == x);
    let k = first_index(q, x);
    assert(0 <= k < q.len() && q[k] == x && forall|j: int| 0 <= j < k ==> q[j] != x) by {
        assert(0 <= p.len() < q.len() && q[p.len() as int] == x && forall|j: int|
            0 <= j < p.len() ==> q[j] != x) by {
            assert forall|j: int| 0 <= j < p.len() implies q[j] != x by {
                assert(q[j] == p[j]);
            }
        }
    }
    if k < p.len() {
        assert(p[k] == x);
    }
    assert(q.remove(k) =~= p);
}

} // verus!
