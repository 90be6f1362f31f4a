//! Types shared by the playlist engine, the session file and the library.

use vstd::prelude::*;

use crate::persist::session::SessionPlaylistItem;

verus! {

/// The five markers of a radio edit, in milliseconds from the start of the
/// file. `None` means "no adjustment" for that marker.
#[derive(Clone, Copy, Debug, PartialEq, Eq, Structural)]
pub struct CuePoints {
    pub cue_in_ms: Option<i64>,
    pub fade_in_ms: Option<i64>,
    pub fade_out_ms: Option<i64>,
    pub cue_out_ms: Option<i64>,
    pub next_start_ms: Option<i64>,
}

impl CuePoints {
    /// No marker set: the whole file plays.
    pub fn none() -> (c: CuePoints)
        ensures
            c.cue_in_ms is None,
            c.fade_in_ms is None,
            c.fade_out_ms is None,
            c.cue_out_ms is None,
            c.next_start_ms is None,
    {
        CuePoints {
            cue_in_ms: None,
            fade_in_ms: None,
            fade_out_ms: None,
            cue_out_ms: None,
            next_start_ms: None,
        }
    }
}

impl Default for CuePoints {
    fn default() -> (c: CuePoints)
        ensures
            c == CuePoints::spec_none(),
    {
        CuePoints::none()
    }
}

impl CuePoints {
    pub open spec fn spec_none() -> CuePoints {
        CuePoints {
            cue_in_ms: None,
            fade_in_ms: None,
            fade_out_ms: None,
            cue_out_ms: None,
            next_start_ms: None,
        }
    }
}

/// One library track as the playlist and the renderer see it.
///
/// Lengths are whole milliseconds and the tempo is in thousandths of a beat per
/// minute, so a track carries no floating-point value.
#[derive(Debug, PartialEq)]
pub struct Track {
    pub id: i64,
    pub title: String,
    pub artist: String,
    pub album: String,
    pub duration_ms: i64,
    pub play_count: i64,
    pub genre: Option<String>,
    pub year: Option<i64>,
    pub bpm_milli: Option<i64>,
    pub sample_rate: Option<i64>,
    pub bitrate: Option<i64>,
    pub format: Option<String>,
    /// The track's radio edit.
    pub cue_points: CuePoints,
    /// Which tag columns the operator edited, as `EditedFields` bits.
    pub edited_fields: i64,
}

/// A copy of an optional string that equals it.
pub fn clone_opt_string(s: &Option<String>) -> (r: Option<String>)
    ensures
        r == *s,
{
    match s {
        Some(v) => Some(v.clone()),
        None => None,
    }
}

impl Clone for Track {
    fn clone(&self) -> (r: Track)
        ensures
            r == *self,
    {
        Track {
            id: self.id,
            title: self.title.clone(),
            artist: self.artist.clone(),
            album: self.album.clone(),
            duration_ms: self.duration_ms,
            play_count: self.play_count,
            genre: clone_opt_string(&self.genre),
            year: self.year,
            bpm_milli: self.bpm_milli,
            sample_rate: self.sample_rate,
            bitrate: self.bitrate,
            format: clone_opt_string(&self.format),
            cue_points: self.cue_points,
            edited_fields: self.edited_fields,
        }
    }
}

/// One entry in the playlist.
#[derive(Debug, PartialEq)]
pub enum PlaylistItem {
    Track {
        track: Track,
        /// Cue points for this one airing, overriding the track's radio edit.
        /// `None` means the item references the track's own edit.
        cue_override: Option<CuePoints>,
    },
    /// Barrier that halts auto-advance when playback reaches it.
    Stop,
}

impl Clone for PlaylistItem {
    fn clone(&self) -> (r: PlaylistItem)
        ensures
            r == *self,
    {
        match self {
            PlaylistItem::Track { track, cue_override } => PlaylistItem::Track {
                track: track.clone(),
                cue_override: *cue_override,
            },
            PlaylistItem::Stop => PlaylistItem::Stop,
        }
    }
}

/// The track id an item refers to, if it is a track.
pub open spec fn item_track_id(item: PlaylistItem) -> Option<i64> {
    match item {
        PlaylistItem::Track { track, .. } => Some(track.id),
        PlaylistItem::Stop => None,
    }
}

impl PlaylistItem {
    pub fn track(track: Track) -> (r: PlaylistItem)
        ensures
            r == (PlaylistItem::Track { track, cue_override: None }),
    {
        PlaylistItem::Track { track, cue_override: None }
    }

    pub fn with_override(track: Track, cue_override: Option<CuePoints>) -> (r: PlaylistItem)
        ensures
            r == (PlaylistItem::Track { track, cue_override }),
    {
        PlaylistItem::Track { track, cue_override }
    }

    pub fn as_track(&self) -> (r: Option<&Track>)
        ensures
            match *self {
                PlaylistItem::Track { track, .. } => r == Some(&track),
                PlaylistItem::Stop => r is None,
            },
    {
        match self {
            PlaylistItem::Track { track, .. } => Some(track),
            PlaylistItem::Stop => None,
        }
    }

    pub fn is_stop(&self) -> (r: bool)
        ensures
            r == (*self is Stop),
    {
        match self {
            PlaylistItem::Stop => true,
            _ => false,
        }
    }
}

/// Rebuild a legacy playlist of ids: each id the library resolved becomes a
/// track item, in order; an id it did not resolve is dropped.
pub open spec fn rebuilt_legacy(looked: Seq<Option<Track>>) -> Seq<PlaylistItem>
    decreases looked.len(),
{
    if looked.len() == 0 {
        Seq::empty()
    } else {
        let rest = rebuilt_legacy(looked.drop_last());
        match looked.last() {
            Some(t) => rest.push(PlaylistItem::Track { track: t, cue_override: None }),
            None => rest,
        }
    }
}

/// Rebuild persisted items: a stop marker stays a stop marker, a track entry
/// whose id the library resolved keeps its override, and one it did not
/// resolve is dropped. `looked[i]` is what the library returned for entry `i`.
pub open spec fn rebuilt_items(items: Seq<SessionPlaylistItem>, looked: Seq<Option<Track>>) -> Seq<
    PlaylistItem,
>
    decreases items.len(),
{
    if items.len() == 0 || looked.len() == 0 {
        Seq::empty()
    } else {
        let rest = rebuilt_items(items.drop_last(), looked.drop_last());
        match items.last() {
            SessionPlaylistItem::Stop => rest.push(PlaylistItem::Stop),
            SessionPlaylistItem::Track { id, cue_override } => match looked.last() {
                Some(t) => rest.push(PlaylistItem::Track { track: t, cue_override }),
                None => rest,
            },
        }
    }
}

/// `looked` holds one possible answer of `lookup` for each persisted entry
/// that is consulted: every legacy id when `items` is empty, otherwise every
/// track entry of `items`.
pub open spec fn lookups_of<F: Fn(i64) -> Option<Track>>(
    items: Seq<SessionPlaylistItem>,
    legacy_ids: Seq<i64>,
    lookup: F,
    looked: Seq<Option<Track>>,
) -> bool {
    if items.len() == 0 {
        &&& looked.len() == legacy_ids.len()
        &&& forall|i: int|
            0 <= i < legacy_ids.len() ==> call_ensures(lookup, (legacy_ids[i],), #[trigger] looked[i])
    } else {
        &&& looked.len() == items.len()
        &&& forall|i: int|
            0 <= i < items.len() && (#[trigger] items[i]) is Track ==> call_ensures(
                lookup,
                (items[i]->Track_id,),
                looked[i],
            )
    }
}

impl PlaylistItem {
    /// Rebuild a persisted playlist, resolving ids through `lookup`.
    ///
    /// `items` is authoritative; `legacy_ids` is the older format and is only
    /// consulted when `items` is empty. Ids the library no longer has are
    /// dropped.
    pub fn from_session<F: Fn(i64) -> Option<Track>>(
        items: &[SessionPlaylistItem],
        legacy_ids: &[i64],
        lookup: F,
    ) -> (r: Vec<PlaylistItem>)
        requires
            forall|id: i64| call_requires(lookup, (id,)),
        ensures
            exists|looked: Seq<Option<Track>>|
                {
                    &&& #[trigger] lookups_of(items@, legacy_ids@, lookup, looked)
                    &&& r@ == if items@.len() == 0 {
                        rebuilt_legacy(looked)
                    } else {
                        rebuilt_items(items@, looked)
                    }
                },
    {
        let mut out: Vec<PlaylistItem> = Vec::new();
        let ghost mut looked: Seq<Option<Track>> = Seq::empty();
        if items.len() == 0 {
            let mut i: usize = 0;
            while i < legacy_ids.len()
                invariant
                    i <= legacy_ids@.len(),
                    looked.len() == i,
                    forall|id: i64| call_requires(lookup, (id,)),
                    forall|k: int|
                        0 <= k < i ==> call_ensures(lookup, (legacy_ids@[k],), #[trigger] looked[k]),
                    out@ == rebuilt_legacy(looked),
                decreases legacy_ids@.len() - i,
            {
                let found = lookup(legacy_ids[i]);
                proof {
                    assert(looked.push(found).drop_last() =~= looked);
                }
                match found {
                    Some(t) => out.push(PlaylistItem::track(t)),
                    None => {},
                }
                proof {
                    looked = looked.push(found);
                }
                i = i + 1;
            }
            assert(lookups_of(items@, legacy_ids@, lookup, looked));
            return out;
        }
        let mut i: usize = 0;
        while i < items.len()
            invariant
                i <= items@.len(),
                items@.len() > 0,
                looked.len() == i,
                forall|id: i64| call_requires(lookup, (id,)),
                forall|k: int|
                    0 <= k < i && (#[trigger] items@[k]) is Track ==> call_ensures(
                        lookup,
                        (items@[k]->Track_id,),
                        looked[k],
                    ),
                out@ == rebuilt_items(items@.take(i as int), looked),
            decreases items@.len() - i,
        {
            let ghost found: Option<Track> = None;
            proof {
                assert(items@.take(i as int + 1).drop_last() =~= items@.take(i as int));
            }
            match &items[i] {
                SessionPlaylistItem::Stop => {
                    out.push(PlaylistItem::Stop);
                },
                SessionPlaylistItem::Track { id, cue_override } => {
                    let got = lookup(*id);
                    proof {
                        found = got;
                    }
                    match got {
                        Some(t) => out.push(PlaylistItem::with_override(t, *cue_override)),
                        None => {},
                    }
                },
            }
            proof {
                assert(looked.push(found).drop_last() =~= looked);
                looked = looked.push(found);
            }
            i = i + 1;
        }
        proof {
            assert(items@.take(items@.len() as int) =~= items@);
        }
        assert(lookups_of(items@, legacy_ids@, lookup, looked));
        out
    }
}

/// Whole-playlist snapshot, emitted after every mutation and every advance.
#[derive(Debug, PartialEq)]
pub struct Snapshot {
    /// Upcoming items in order, stop markers included.
    pub playlist: Vec<PlaylistItem>,
    /// The track on the main deck.
    pub current: Option<Track>,
    /// The track that just left the main deck, when history should grow.
    pub displaced: Option<Track>,
    pub auto_playlist_active: bool,
    pub auto_advance: bool,
    /// Playback is blocked waiting for the media share to come back.
    pub awaiting_network: bool,
}

} // verus!
