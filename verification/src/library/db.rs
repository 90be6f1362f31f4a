//! The library's records and the rules its database applies to them: what a
//! selection may not return, which markers a row reports, what an edit flags,
//! and whether a database file may be opened at all. The SQL itself runs in
//! the application; everything it decides on is stated here.

use vstd::prelude::*;

use super::paths::{file_stem, stem_of, with_file_name, with_name};
use crate::playlist::model::{clone_opt_string, CuePoints, Track};
use crate::text::{
    decimal, decimal_text, ascii_lower, chars_of, digits, parse_usize, parsed_usize, push_text, same_text, string_of,
    to_ascii_lower, trim_text, trimmed, usize_text, views, words_of,
};

verus! {

/// Bits of `tracks.edited_fields`, one per tag column.
pub struct EditedFields;

impl EditedFields {
    pub const TITLE: i64 = 1;
    pub const ARTIST: i64 = 2;
    pub const ALBUM: i64 = 4;
    pub const GENRE: i64 = 8;
    pub const YEAR: i64 = 16;
}

/// A track's tag columns, as a tag write-back reads and compares them.
#[derive(Clone, Debug, PartialEq)]
pub struct TagValues {
    pub path: String,
    pub title: Option<String>,
    pub artist: Option<String>,
    pub album: Option<String>,
    pub genre: Option<String>,
    pub year: Option<i64>,
    pub fingerprint: Option<String>,
    pub edited_fields: i64,
}

/// A missing row, as the library health view lists it.
#[derive(Clone, Debug, PartialEq)]
pub struct MissingRow {
    pub id: i64,
    pub title: String,
    pub artist: String,
    pub path: String,
    pub missing_since: i64,
    pub play_count: i64,
    pub has_cue_points: bool,
}

/// A present row with the identity columns `Track` leaves out.
#[derive(Debug, PartialEq)]
pub struct HealthRow {
    pub track: Track,
    pub path: String,
    pub content_type: String,
    pub fingerprint: Option<String>,
}

impl Clone for HealthRow {
    fn clone(&self) -> (r: HealthRow)
        ensures
            r == *self,
    {
        HealthRow {
            track: self.track.clone(),
            path: self.path.clone(),
            content_type: self.content_type.clone(),
            fingerprint: clone_opt_string(&self.fingerprint),
        }
    }
}

/// The operator's acknowledgement of one health finding. `value` is what the
/// finding looked like when it was dismissed.
#[derive(Clone, Debug, PartialEq)]
pub struct Dismissal {
    pub kind: String,
    pub key: String,
    pub value: String,
}

/// Present tracks per content type.
#[derive(Clone, Copy, Debug, PartialEq, Eq, Structural)]
pub struct TracksByType {
    pub music: i64,
    pub commercial: i64,
    pub jingle: i64,
}

impl Default for TracksByType {
    fn default() -> (t: TracksByType)
        ensures
            t.music == 0 && t.commercial == 0 && t.jingle == 0,
    {
        TracksByType { music: 0, commercial: 0, jingle: 0 }
    }
}

/// A metadata edit: each field that is `Some` is written. `genre` and `year`
/// distinguish "leave" (`None`) from "clear" (`Some(None)`).
#[derive(Clone, Debug, PartialEq)]
pub struct TrackMetadataUpdate {
    pub id: i64,
    pub title: Option<String>,
    pub artist: Option<String>,
    pub album: Option<String>,
    pub genre: Option<Option<String>>,
    pub year: Option<Option<i64>>,
    pub content_type: Option<String>,
}

/// A track the analysis worker still has to read.
#[derive(Clone, Debug, PartialEq)]
pub struct AnalysisJob {
    pub id: i64,
    pub path: String,
    /// The file as it was when the job was queued.
    pub mtime: Option<i64>,
    /// Decides whether an automatic Next Start is derived at all.
    pub content_type: String,
    pub needs_waveform: bool,
    pub needs_fingerprint: bool,
    pub needs_loudness: bool,
    pub needs_auto_cue: bool,
    pub needs_auto_cue_levels: bool,
}

/// One row as the scanner sees it.
#[derive(Debug, PartialEq)]
pub struct IndexRow {
    pub id: i64,
    pub path: String,
    pub content_type: String,
    pub mtime: Option<i64>,
    pub missing_since: Option<i64>,
    pub fingerprint: Option<String>,
}

impl Clone for IndexRow {
    fn clone(&self) -> (r: IndexRow)
        ensures
            r == *self,
    {
        IndexRow {
            id: self.id,
            path: self.path.clone(),
            content_type: self.content_type.clone(),
            mtime: self.mtime,
            missing_since: self.missing_since,
            fingerprint: clone_opt_string(&self.fingerprint),
        }
    }
}

/// What applying one scan changed.
#[derive(Clone, Copy, Debug, Default, PartialEq, Eq, Structural)]
pub struct Reconciled {
    pub missing: usize,
    pub reattached: usize,
    pub duplicated: usize,
    pub inserted: usize,
    pub replaced: usize,
}

/// Normalise an artist for rotation matching: trimmed, then ASCII-lowered,
/// which is what the SQL side does to the stored column.
pub open spec fn spec_artist_key(artist: Seq<char>) -> Seq<char> {
    ascii_lower(trimmed(artist))
}

/// Normalise an artist for rotation matching. ASCII-only on purpose, to agree
/// with SQLite's `lower()`.
pub fn artist_key(artist: &str) -> (k: String)
    ensures
        k@ == spec_artist_key(artist@),
{
    to_ascii_lower(trim_text(artist))
}

/// `n` SQL placeholders separated by `, `.
pub open spec fn placeholders(n: nat) -> Seq<char>
    decreases n,
{
    if n == 0 {
        Seq::empty()
    } else if n == 1 {
        seq!['?']
    } else {
        placeholders((n - 1) as nat) + seq![',', ' ', '?']
    }
}

fn push_placeholders(s: &mut String, n: usize)
    ensures
        final(s)@ == old(s)@ + placeholders(n as nat),
{
    let mut i: usize = 0;
    while i < n
        invariant
            i <= n,
            s@ == old(s)@ + placeholders(i as nat),
        decreases n - i,
    {
        proof {
            reveal_strlit("?");
            reveal_strlit(", ?");
        }
        if i == 0 {
            push_text(s, "?");
        } else {
            push_text(s, ", ?");
        }
        proof {
            assert(s@ =~= old(s)@ + placeholders(i as nat + 1));
        }
        i = i + 1;
    }
}

/// The ` AND id NOT IN (...)` fragment excluding `n` ids, or nothing when
/// there is nothing to exclude (SQLite rejects an empty `NOT IN ()`).
pub open spec fn spec_exclude_sql(n: nat) -> Seq<char> {
    if n == 0 {
        Seq::empty()
    } else {
        " AND id NOT IN ("@ + placeholders(n) + ")"@
    }
}

/// Build a ` AND id NOT IN (?, ?, ...)` fragment with one placeholder per
/// excluded id, or an empty string when there is nothing to exclude.
pub fn exclude_sql(exclude_ids: &[i64]) -> (s: String)
    ensures
        s@ == spec_exclude_sql(exclude_ids@.len()),
{
    let mut s = String::new();
    if exclude_ids.len() == 0 {
        return s;
    }
    push_text(&mut s, " AND id NOT IN (");
    push_placeholders(&mut s, exclude_ids.len());
    push_text(&mut s, ")");
    proof {
        assert(s@ =~= spec_exclude_sql(exclude_ids@.len()));
    }
    s
}

/// What a random pick may not return: the ids already queued, plus the
/// rotation constraints music selection adds on top of them.
#[derive(Clone, Copy, Debug)]
pub struct SelectionFilter<'a> {
    pub exclude_ids: &'a [i64],
    /// Reject a track that aired at or after this instant (unix ms).
    pub title_since: Option<i64>,
    /// Reject a track whose artist aired at or after this instant (unix ms).
    pub artist_since: Option<i64>,
    /// Reject a track whose artist key is in this list.
    pub artist_keys: &'a [String],
    /// Return at most one track per artist.
    pub spread_artists: bool,
}

/// The clause rejecting tracks that aired since the title window opened.
pub open spec fn title_clause() -> Seq<char> {
    " AND id NOT IN (SELECT track_id FROM play_log WHERE track_id IS NOT NULL AND aired_at >= ?)"@
}

/// The clause rejecting tracks whose artist aired since the artist window
/// opened; blank logged artists block nothing.
pub open spec fn artist_clause() -> Seq<char> {
    " AND lower(trim(artist)) NOT IN (SELECT lower(trim(artist)) FROM play_log WHERE artist IS NOT NULL AND trim(artist) <> '' AND aired_at >= ?)"@
}

/// The `AND` clauses a filter contributes: the exclusion, then each rule that
/// is on, each with its placeholders in binding order.
pub open spec fn spec_filter_sql(
    excluded: nat,
    title: bool,
    artist: bool,
    keys: nat,
) -> Seq<char> {
    spec_exclude_sql(excluded) + (if title {
        title_clause()
    } else {
        Seq::empty()
    }) + (if artist {
        artist_clause()
    } else {
        Seq::empty()
    }) + (if keys > 0 {
        " AND lower(trim(artist)) NOT IN ("@ + placeholders(keys) + ")"@
    } else {
        Seq::empty()
    })
}

impl<'a> SelectionFilter<'a> {
    /// The plain exclusion every content type gets: nothing but the queue.
    pub fn excluding(exclude_ids: &'a [i64]) -> (f: SelectionFilter<'a>)
        ensures
            f.exclude_ids == exclude_ids,
            f.title_since is None,
            f.artist_since is None,
            f.artist_keys@.len() == 0,
            !f.spread_artists,
    {
        SelectionFilter {
            exclude_ids,
            title_since: None,
            artist_since: None,
            artist_keys: &[],
            spread_artists: false,
        }
    }

    /// The `AND` clauses this filter contributes, in the order its parameters
    /// bind their placeholders. A clause appears only when it has something
    /// to say.
    pub fn sql(&self) -> (s: String)
        ensures
            s@ == spec_filter_sql(
                self.exclude_ids@.len(),
                self.title_since is Some,
                self.artist_since is Some,
                self.artist_keys@.len(),
            ),
    {
        let mut sql = exclude_sql(self.exclude_ids);
        if self.title_since.is_some() {
            push_text(
                &mut sql,
                " AND id NOT IN (SELECT track_id FROM play_log WHERE track_id IS NOT NULL AND aired_at >= ?)",
            );
        }
        if self.artist_since.is_some() {
            push_text(
                &mut sql,
                " AND lower(trim(artist)) NOT IN (SELECT lower(trim(artist)) FROM play_log WHERE artist IS NOT NULL AND trim(artist) <> '' AND aired_at >= ?)",
            );
        }
        if self.artist_keys.len() > 0 {
            push_text(&mut sql, " AND lower(trim(artist)) NOT IN (");
            push_placeholders(&mut sql, self.artist_keys.len());
            push_text(&mut sql, ")");
        }
        proof {
            assert(sql@ =~= spec_filter_sql(
                self.exclude_ids@.len(),
                self.title_since is Some,
                self.artist_since is Some,
                self.artist_keys@.len(),
            ));
        }
        sql
    }
}

/// A value bound to an SQL placeholder.
#[derive(Clone, Debug, PartialEq)]
pub enum SqlValue {
    Integer(i64),
    Text(String),
}

/// A bound value as plain data.
pub enum SqlValueView {
    Integer(i64),
    Text(Seq<char>),
}

pub open spec fn sql_value_views(v: Seq<SqlValue>) -> Seq<SqlValueView> {
    v.map_values(
        |x: SqlValue|
            match x {
                SqlValue::Integer(i) => SqlValueView::Integer(i),
                SqlValue::Text(t) => SqlValueView::Text(t@),
            },
    )
}

/// What a filter binds, in the order its clauses name their placeholders:
/// the excluded ids, the title window, the artist window, the blocked
/// artists.
pub open spec fn spec_filter_params(
    exclude_ids: Seq<i64>,
    title_since: Option<i64>,
    artist_since: Option<i64>,
    artist_keys: Seq<Seq<char>>,
) -> Seq<SqlValueView> {
    exclude_ids.map_values(|id: i64| SqlValueView::Integer(id)) + (match title_since {
        Some(t) => seq![SqlValueView::Integer(t)],
        None => Seq::empty(),
    }) + (match artist_since {
        Some(t) => seq![SqlValueView::Integer(t)],
        None => Seq::empty(),
    }) + artist_keys.map_values(|k: Seq<char>| SqlValueView::Text(k))
}

impl<'a> SelectionFilter<'a> {
    /// The values [`Self::sql`]'s placeholders bind, in order.
    pub fn params(&self) -> (p: Vec<SqlValue>)
        ensures
            sql_value_views(p@) == spec_filter_params(
                self.exclude_ids@,
                self.title_since,
                self.artist_since,
                views(self.artist_keys@),
            ),
    {
        let ghost want = spec_filter_params(
            self.exclude_ids@,
            self.title_since,
            self.artist_since,
            views(self.artist_keys@),
        );
        let ghost ids = self.exclude_ids@.map_values(|id: i64| SqlValueView::Integer(id));
        let mut p: Vec<SqlValue> = Vec::new();
        let mut i: usize = 0;
        while i < self.exclude_ids.len()
            invariant
                i <= self.exclude_ids@.len(),
                ids == self.exclude_ids@.map_values(|id: i64| SqlValueView::Integer(id)),
                sql_value_views(p@) == ids.take(i as int),
            decreases self.exclude_ids@.len() - i,
        {
            let ghost prev = p@;
            proof {
                assert(sql_value_views(prev).len() == prev.len());
                assert(ids.len() == self.exclude_ids@.len());
                assert(ids.take(i as int).len() == i);
                assert(prev.len() == i);
            }
            p.push(SqlValue::Integer(self.exclude_ids[i]));
            proof {
                assert(p@ == prev.push(SqlValue::Integer(self.exclude_ids@[i as int])));
                assert forall|k: int| 0 <= k < i + 1 implies #[trigger] sql_value_views(p@)[k]
                    == ids[k] by {
                    assert(sql_value_views(p@).len() == p@.len());
                    if k < i {
                        assert(p@[k] == prev[k]);
                        assert(sql_value_views(prev)[k] == ids.take(i as int)[k]);
                        assert(ids.take(i as int)[k] == ids[k]);
                    } else {
                        assert(p@[k] == SqlValue::Integer(self.exclude_ids@[k]));
                        assert(ids[k] == SqlValueView::Integer(self.exclude_ids@[k]));
                    }
                }
                assert(sql_value_views(p@) =~= ids.take(i as int + 1));
            }
            i = i + 1;
        }
        proof {
            assert(ids.take(i as int) =~= ids);
        }
        if let Some(t) = self.title_since {
            p.push(SqlValue::Integer(t));
        }
        if let Some(t) = self.artist_since {
            p.push(SqlValue::Integer(t));
        }
        let ghost windows = sql_value_views(p@);
        proof {
            assert(windows =~= ids + (match self.title_since {
                Some(t) => seq![SqlValueView::Integer(t)],
                None => Seq::empty(),
            }) + (match self.artist_since {
                Some(t) => seq![SqlValueView::Integer(t)],
                None => Seq::empty(),
            }));
        }
        let ghost keys = views(self.artist_keys@).map_values(|k: Seq<char>| SqlValueView::Text(k));
        let mut j: usize = 0;
        while j < self.artist_keys.len()
            invariant
                j <= self.artist_keys@.len(),
                keys == views(self.artist_keys@).map_values(|k: Seq<char>| SqlValueView::Text(k)),
                sql_value_views(p@) == windows + keys.take(j as int),
            decreases self.artist_keys@.len() - j,
        {
            let ghost prev = p@;
            proof {
                assert(sql_value_views(prev).len() == prev.len());
                assert(keys.len() == self.artist_keys@.len());
                assert(keys.take(j as int).len() == j);
                assert(prev.len() == windows.len() + j);
            }
            let key = self.artist_keys[j].clone();
            proof {
                assert(key@ == views(self.artist_keys@)[j as int]);
            }
            p.push(SqlValue::Text(key));
            proof {
                let w = windows + keys.take(j as int + 1);
                assert forall|k: int| 0 <= k < w.len() implies #[trigger] sql_value_views(p@)[k]
                    == w[k] by {
                    if k < prev.len() {
                        assert(sql_value_views(prev)[k] == (windows + keys.take(j as int))[k]);
                    }
                }
                assert(sql_value_views(p@) =~= w);
            }
            j = j + 1;
        }
        proof {
            assert(keys.take(j as int) =~= keys);
            assert(sql_value_views(p@) =~= want);
        }
        p
    }
}

/// `s` with every double quote doubled, the FTS5 string escape.
pub open spec fn doubled_quotes(s: Seq<char>) -> Seq<char>
    decreases s.len(),
{
    if s.len() == 0 {
        Seq::empty()
    } else {
        doubled_quotes(s.drop_last()) + if s.last() == '"' {
            seq!['"', '"']
        } else {
            seq![s.last()]
        }
    }
}

/// One operator-typed word as an FTS5 prefix term: quoted, embedded quotes
/// doubled, followed by `*`.
pub open spec fn spec_fts5_prefix_term(word: Seq<char>) -> Seq<char> {
    seq!['"'] + doubled_quotes(word) + seq!['"', '*']
}

/// Wrap one operator-typed word as an FTS5 prefix term. Quoting makes
/// punctuation inside the word tokenised rather than read as query syntax;
/// doubling embedded quotes is the escape the FTS5 string grammar defines.
pub fn fts5_prefix_term(word: &str) -> (t: String)
    ensures
        t@ == spec_fts5_prefix_term(word@),
{
    let chars = crate::text::chars_of(word);
    let mut t = String::new();
    crate::text::push_char(&mut t, '"');
    let mut i: usize = 0;
    while i < chars.len()
        invariant
            chars@ == word@,
            i <= chars@.len(),
            t@ == seq!['"'] + doubled_quotes(chars@.take(i as int)),
        decreases chars@.len() - i,
    {
        let c = chars[i];
        crate::text::push_char(&mut t, c);
        if c == '"' {
            crate::text::push_char(&mut t, '"');
        }
        proof {
            assert(chars@.take(i as int + 1).drop_last() =~= chars@.take(i as int));
            assert(t@ =~= seq!['"'] + doubled_quotes(chars@.take(i as int + 1)));
        }
        i = i + 1;
    }
    crate::text::push_char(&mut t, '"');
    crate::text::push_char(&mut t, '*');
    proof {
        assert(chars@.take(chars@.len() as int) =~= chars@);
        assert(t@ =~= spec_fts5_prefix_term(word@));
    }
    t
}

/// The `ORDER BY` clause for a sortable column: only title, artist, album
/// and play count sort; text sorts ignore case; `desc` sorts descending and
/// anything else ascending.
pub open spec fn spec_order_clause(sort_by: Option<Seq<char>>, sort_dir: Option<Seq<char>>) -> Option<
    Seq<char>,
> {
    match sort_by {
        None => None,
        Some(col) => if col == "title"@ || col == "artist"@ || col == "album"@ || col
            == "play_count"@ {
            Some(
                col + " "@ + (if col == "play_count"@ {
                    Seq::empty()
                } else {
                    "COLLATE NOCASE "@
                }) + (if sort_dir == Some("desc"@) {
                    "DESC"@
                } else {
                    "ASC"@
                }),
            )
        } else {
            None
        },
    }
}

pub fn order_clause(sort_by: Option<&str>, sort_dir: Option<&str>) -> (r: Option<String>)
    ensures
        r matches Some(c) ==> spec_order_clause(
            match sort_by {
                Some(s) => Some(s@),
                None => None,
            },
            match sort_dir {
                Some(s) => Some(s@),
                None => None,
            },
        ) == Some(c@),
        r is None ==> spec_order_clause(
            match sort_by {
                Some(s) => Some(s@),
                None => None,
            },
            match sort_dir {
                Some(s) => Some(s@),
                None => None,
            },
        ) is None,
{
    let col = match sort_by {
        Some(c) => c,
        None => return None,
    };
    let is_play_count = same_text(col, "play_count");
    if !(same_text(col, "title") || same_text(col, "artist") || same_text(col, "album")
        || is_play_count) {
        return None;
    }
    let desc = match sort_dir {
        Some(d) => same_text(d, "desc"),
        None => false,
    };
    let mut out = String::new();
    push_text(&mut out, col);
    push_text(&mut out, " ");
    if !is_play_count {
        push_text(&mut out, "COLLATE NOCASE ");
    }
    if desc {
        push_text(&mut out, "DESC");
    } else {
        push_text(&mut out, "ASC");
    }
    proof {
        let sd = match sort_dir {
            Some(s) => Some(s@),
            None => None,
        };
        assert(desc == (sd == Some("desc"@)));
        assert(out@ =~= spec_order_clause(Some(col@), sd)->0);
    }
    Some(out)
}

/// The larger of two optional markers.
pub open spec fn max_marker(a: Option<i64>, b: Option<i64>) -> Option<i64> {
    match (a, b) {
        (Some(x), Some(y)) => Some(if x >= y {
            x
        } else {
            y
        }),
        (Some(x), None) => Some(x),
        (None, y) => y,
    }
}

/// The furthest marker a set holds.
pub open spec fn spec_furthest(p: CuePoints) -> Option<i64> {
    max_marker(
        max_marker(max_marker(max_marker(p.cue_in_ms, p.fade_in_ms), p.fade_out_ms), p.cue_out_ms),
        p.next_start_ms,
    )
}

fn larger(a: Option<i64>, b: Option<i64>) -> (r: Option<i64>)
    ensures
        r == max_marker(a, b),
{
    match (a, b) {
        (Some(x), Some(y)) => Some(if x >= y {
            x
        } else {
            y
        }),
        (Some(x), None) => Some(x),
        (None, y) => y,
    }
}

/// The furthest marker a set holds, as a lower bound on the file's length.
pub fn furthest(points: &CuePoints) -> (r: Option<i64>)
    ensures
        r == spec_furthest(*points),
        r is None <==> (points.cue_in_ms is None && points.fade_in_ms is None
            && points.fade_out_ms is None && points.cue_out_ms is None
            && points.next_start_ms is None),
{
    larger(
        larger(
            larger(larger(points.cue_in_ms, points.fade_in_ms), points.fade_out_ms),
            points.cue_out_ms,
        ),
        points.next_start_ms,
    )
}

/// What the library reports for a derived cue set: `trio` is the master
/// switch over Cue In, Cue Out and Next Start; `next_start` hides the Next
/// Start alone, under it.
#[derive(Clone, Copy, Debug, PartialEq, Eq, Structural)]
pub struct AutoCuePolicy {
    pub trio: bool,
    pub next_start: bool,
}

/// The markers a row reports. A manually prepared trio is never held back,
/// and neither are the fades; a derived trio is hidden while the feature is
/// off, and a derived Next Start while its own switch is off.
pub open spec fn spec_effective(points: CuePoints, manual: bool, policy: AutoCuePolicy) -> CuePoints {
    if manual {
        points
    } else if !policy.trio {
        CuePoints { cue_in_ms: None, cue_out_ms: None, next_start_ms: None, ..points }
    } else if !policy.next_start {
        CuePoints { next_start_ms: None, ..points }
    } else {
        points
    }
}

/// The cue points the library reports for a row, given the stored set,
/// whether the operator owns its trio, and the policy in force.
pub fn effective_cue_points(points: CuePoints, manual: bool, policy: AutoCuePolicy) -> (r:
    CuePoints)
    ensures
        r == spec_effective(points, manual, policy),
{
    if manual {
        return points;
    }
    if !policy.trio {
        return CuePoints { cue_in_ms: None, cue_out_ms: None, next_start_ms: None, ..points };
    }
    if !policy.next_start {
        return CuePoints { next_start_ms: None, ..points };
    }
    points
}

/// What a row reports, marker by marker: the fades always as stored; Cue In
/// and Cue Out as stored when the operator owns the trio or the automatic
/// trio is on, else none; Next Start as stored when the operator owns the
/// trio or both the automatic trio and its own switch are on, else none.
pub proof fn reported_cue_points_follow_the_policy(points: CuePoints, manual: bool, policy: AutoCuePolicy)
    ensures
        ({
            let r = spec_effective(points, manual, policy);
            &&& r.fade_in_ms == points.fade_in_ms
            &&& r.fade_out_ms == points.fade_out_ms
            &&& r.cue_in_ms == if manual || policy.trio {
                points.cue_in_ms
            } else {
                None
            }
            &&& r.cue_out_ms == if manual || policy.trio {
                points.cue_out_ms
            } else {
                None
            }
            &&& r.next_start_ms == if manual || (policy.trio && policy.next_start) {
                points.next_start_ms
            } else {
                None
            }
        }),
        (manual || (policy.trio && policy.next_start)) ==> spec_effective(points, manual, policy) == points,
{
}

/// Whether a save moves any of Cue In, Cue Out or Next Start away from what
/// the operator was shown, which takes the trio off automatic for good.
/// Editing only a fade does not.
pub fn owns_trio(points: &CuePoints, shown: &CuePoints) -> (owns: bool)
    ensures
        owns == (points.cue_in_ms != shown.cue_in_ms || points.cue_out_ms != shown.cue_out_ms
            || points.next_start_ms != shown.next_start_ms),
{
    points.cue_in_ms != shown.cue_in_ms || points.cue_out_ms != shown.cue_out_ms
        || points.next_start_ms != shown.next_start_ms
}

/// The set a save writes before clamping: what came in when the operator took
/// the trio over, otherwise the stored trio with the incoming fades.
pub fn cue_write(points: &CuePoints, stored: &CuePoints, owns: bool) -> (w: CuePoints)
    ensures
        owns ==> w == *points,
        !owns ==> w == (CuePoints {
            cue_in_ms: stored.cue_in_ms,
            cue_out_ms: stored.cue_out_ms,
            next_start_ms: stored.next_start_ms,
            ..*points
        }),
{
    if owns {
        *points
    } else {
        CuePoints {
            cue_in_ms: stored.cue_in_ms,
            cue_out_ms: stored.cue_out_ms,
            next_start_ms: stored.next_start_ms,
            ..*points
        }
    }
}

/// The set a save reports back for the caller to adopt: what was written
/// when the operator took the trio over, and otherwise the written fades
/// with the trio exactly as it was shown.
pub fn cue_reported(written: &CuePoints, shown: &CuePoints, owns: bool) -> (r: CuePoints)
    ensures
        owns ==> r == *written,
        !owns ==> r == (CuePoints {
            cue_in_ms: shown.cue_in_ms,
            cue_out_ms: shown.cue_out_ms,
            next_start_ms: shown.next_start_ms,
            ..*written
        }),
{
    if owns {
        *written
    } else {
        CuePoints {
            cue_in_ms: shown.cue_in_ms,
            cue_out_ms: shown.cue_out_ms,
            next_start_ms: shown.next_start_ms,
            ..*written
        }
    }
}

/// The text of an optional string.
pub open spec fn opt_view(o: Option<String>) -> Option<Seq<char>> {
    match o {
        Some(s) => Some(s@),
        None => None,
    }
}

/// The `edited_fields` bits a metadata update adds: a tag field is flagged
/// only when it is written with a value different from the current one.
pub open spec fn spec_edited_bits(u: TrackMetadataUpdate, current: Track) -> int {
    (if u.title matches Some(v) && v@ != current.title@ {
        EditedFields::TITLE as int
    } else {
        0
    }) + (if u.artist matches Some(v) && v@ != current.artist@ {
        EditedFields::ARTIST as int
    } else {
        0
    }) + (if u.album matches Some(v) && v@ != current.album@ {
        EditedFields::ALBUM as int
    } else {
        0
    }) + (if u.genre matches Some(v) && opt_view(v) != opt_view(current.genre) {
        EditedFields::GENRE as int
    } else {
        0
    }) + (if u.year matches Some(v) && v != current.year {
        EditedFields::YEAR as int
    } else {
        0
    })
}

fn same_opt_string(a: &Option<String>, b: &Option<String>) -> (r: bool)
    ensures
        r == (opt_view(*a) == opt_view(*b)),
{
    match (a, b) {
        (Some(x), Some(y)) => *x == *y,
        (None, None) => true,
        _ => false,
    }
}

/// The `edited_fields` bits a metadata update adds, given the row it updates.
pub fn edited_bits(u: &TrackMetadataUpdate, current: &Track) -> (bits: i64)
    ensures
        bits == spec_edited_bits(*u, *current),
        0 <= bits < 32,
{
    let mut bits: i64 = 0;
    if let Some(v) = &u.title {
        if !(*v == current.title) {
            bits = bits + EditedFields::TITLE;
        }
    }
    if let Some(v) = &u.artist {
        if !(*v == current.artist) {
            bits = bits + EditedFields::ARTIST;
        }
    }
    if let Some(v) = &u.album {
        if !(*v == current.album) {
            bits = bits + EditedFields::ALBUM;
        }
    }
    if let Some(v) = &u.genre {
        if !same_opt_string(v, &current.genre) {
            bits = bits + EditedFields::GENRE;
        }
    }
    if let Some(v) = &u.year {
        if *v != current.year {
            bits = bits + EditedFields::YEAR;
        }
    }
    bits
}

/// Whether an update writes anything at all.
pub fn writes_anything(u: &TrackMetadataUpdate) -> (r: bool)
    ensures
        r == (u.title is Some || u.artist is Some || u.album is Some || u.genre is Some
            || u.year is Some || u.content_type is Some),
{
    u.title.is_some() || u.artist.is_some() || u.album.is_some() || u.genre.is_some()
        || u.year.is_some() || u.content_type.is_some()
}

/// Whether an update moves the track to another content type, which sends an
/// automatically analysed track back into the analysis queue.
pub fn reclassifies(u: &TrackMetadataUpdate, was: &str) -> (r: bool)
    ensures
        r == (u.content_type matches Some(v) && v@ != was@),
{
    match &u.content_type {
        Some(v) => !same_text(v.as_str(), was),
        None => false,
    }
}

/// The `SET` clause by which a rescan refreshes the tag column `column` from
/// the file, unless the operator edited it: while `edited_fields` has the
/// column's `bit`, the stored value stays.
pub open spec fn spec_tag_refresh(column: Seq<char>, bit: i64) -> Seq<char> {
    column + "=CASE WHEN edited_fields & "@ + decimal(bit as int) + " THEN "@ + column + " ELSE excluded."@
        + column + " END, "@
}

/// The statement that writes one present file's row by path: a new row for
/// a new path; for a present row, the file's metadata, except each tag column
/// the operator edited, a fingerprint the file could not give, and operator
/// work. An automatically analysed track goes back to the analysis queue,
/// and a stale analysis failure is forgotten.
pub open spec fn spec_upsert_track_sql() -> Seq<char> {
    "INSERT INTO tracks (path, content_type, title, artist, album, genre, year, duration, bpm, sample_rate, bitrate, format, mtime, fingerprint) VALUES (?,?,?,?,?,?,?,?,?,?,?,?,?,?) ON CONFLICT(path) WHERE missing_since IS NULL DO UPDATE SET content_type=excluded.content_type, "@
        + spec_tag_refresh("title"@, EditedFields::TITLE)
        + spec_tag_refresh("artist"@, EditedFields::ARTIST)
        + spec_tag_refresh("album"@, EditedFields::ALBUM)
        + spec_tag_refresh("genre"@, EditedFields::GENRE)
        + spec_tag_refresh("year"@, EditedFields::YEAR)
        + "duration=excluded.duration, bpm=excluded.bpm, sample_rate=excluded.sample_rate, bitrate=excluded.bitrate, format=excluded.format, mtime=excluded.mtime, fingerprint=COALESCE(excluded.fingerprint, fingerprint), auto_cue_state=CASE auto_cue_state WHEN 'auto' THEN 'pending' ELSE auto_cue_state END, auto_cue_levels=NULL, analysis_error=NULL, analysis_failed_at=NULL"@
}

fn push_tag_refresh(sql: &mut String, column: &str, bit: i64)
    ensures
        final(sql)@ == old(sql)@ + spec_tag_refresh(column@, bit),
{
    push_text(sql, column);
    push_text(sql, "=CASE WHEN edited_fields & ");
    let b = decimal_text(bit);
    push_text(sql, b.as_str());
    push_text(sql, " THEN ");
    push_text(sql, column);
    push_text(sql, " ELSE excluded.");
    push_text(sql, column);
    push_text(sql, " END, ");
}

/// The statement that writes one present file's row by path; its fourteen
/// placeholders bind the file's path, content type, tags, properties, mtime
/// and fingerprint, in that order.
pub fn upsert_track_sql() -> (sql: String)
    ensures
        sql@ == spec_upsert_track_sql(),
{
    let mut sql = String::new();
    push_text(
        &mut sql,
        "INSERT INTO tracks (path, content_type, title, artist, album, genre, year, duration, bpm, sample_rate, bitrate, format, mtime, fingerprint) VALUES (?,?,?,?,?,?,?,?,?,?,?,?,?,?) ON CONFLICT(path) WHERE missing_since IS NULL DO UPDATE SET content_type=excluded.content_type, ",
    );
    push_tag_refresh(&mut sql, "title", EditedFields::TITLE);
    push_tag_refresh(&mut sql, "artist", EditedFields::ARTIST);
    push_tag_refresh(&mut sql, "album", EditedFields::ALBUM);
    push_tag_refresh(&mut sql, "genre", EditedFields::GENRE);
    push_tag_refresh(&mut sql, "year", EditedFields::YEAR);
    push_text(
        &mut sql,
        "duration=excluded.duration, bpm=excluded.bpm, sample_rate=excluded.sample_rate, bitrate=excluded.bitrate, format=excluded.format, mtime=excluded.mtime, fingerprint=COALESCE(excluded.fingerprint, fingerprint), auto_cue_state=CASE auto_cue_state WHEN 'auto' THEN 'pending' ELSE auto_cue_state END, auto_cue_levels=NULL, analysis_error=NULL, analysis_failed_at=NULL",
    );
    sql
}

/// The analysis state a track is left in by an edit that does or does not
/// move it to another content type: a reclassified track goes back to the
/// analysis queue unless the operator owns its cue points.
pub open spec fn spec_cue_state_after_edit(reclassified: bool, state: Seq<char>) -> Seq<char> {
    if reclassified && state != "manual"@ {
        "pending"@
    } else {
        state
    }
}

/// The analysis state of a track in `state` and of content type `was` after
/// the edit `u`.
pub fn cue_state_after_edit(u: &TrackMetadataUpdate, was: &str, state: &str) -> (r: String)
    ensures
        r@ == spec_cue_state_after_edit(u.content_type matches Some(v) && v@ != was@, state@),
{
    proof {
        reveal_strlit("manual");
        reveal_strlit("pending");
    }
    if reclassifies(u, was) && !same_text(state, "manual") {
        "pending".to_string()
    } else {
        state.to_string()
    }
}

// ----- schema -----
/// Identifies a database created by the current schema baseline, stored in
/// `PRAGMA application_id`.
pub const DB_EPOCH: i32 = 0x5244_4a31;

/// Epochs older than [`DB_EPOCH`]; `0` is every database written before
/// epochs existed.
pub open spec fn is_legacy_epoch(epoch: i32) -> bool {
    epoch == 0
}

/// How many pre-migration backups are kept beside the database.
pub const KEPT_BACKUPS: usize = 2;

pub const BASELINE: &'static str = r#"
PRAGMA application_id = 1380207153;

CREATE TABLE tracks (
  id            INTEGER PRIMARY KEY AUTOINCREMENT,
  path          TEXT NOT NULL,
  content_type  TEXT NOT NULL DEFAULT 'music'
                CHECK (content_type IN ('music', 'jingle', 'commercial')),
  title         TEXT,
  artist        TEXT,
  album         TEXT,
  genre         TEXT,
  year          INTEGER,
  duration      REAL,
  bpm           REAL,
  sample_rate   INTEGER,
  bitrate       INTEGER,
  format        TEXT,
  mtime         INTEGER,
  play_count    INTEGER NOT NULL DEFAULT 0,
  added_at      TEXT DEFAULT (datetime('now')),
  waveform      BLOB,
  cue_in_ms     INTEGER,
  fade_in_ms    INTEGER,
  fade_out_ms   INTEGER,
  cue_out_ms    INTEGER,
  next_start_ms INTEGER,
  fingerprint   TEXT,
  missing_since INTEGER
);

CREATE UNIQUE INDEX tracks_path_present ON tracks(path) WHERE missing_since IS NULL;
CREATE INDEX tracks_fingerprint ON tracks(fingerprint) WHERE fingerprint IS NOT NULL;

CREATE VIRTUAL TABLE tracks_fts USING fts5(
  title, artist, album, genre,
  content='tracks',
  content_rowid='id'
);

CREATE TRIGGER tracks_ai AFTER INSERT ON tracks BEGIN
  INSERT INTO tracks_fts(rowid, title, artist, album, genre)
  VALUES (new.id, new.title, new.artist, new.album, new.genre);
END;

CREATE TRIGGER tracks_ad AFTER DELETE ON tracks BEGIN
  INSERT INTO tracks_fts(tracks_fts, rowid, title, artist, album, genre)
  VALUES ('delete', old.id, old.title, old.artist, old.album, old.genre);
END;

CREATE TRIGGER tracks_au AFTER UPDATE OF title, artist, album, genre ON tracks BEGIN
  INSERT INTO tracks_fts(tracks_fts, rowid, title, artist, album, genre)
  VALUES ('delete', old.id, old.title, old.artist, old.album, old.genre);
  INSERT INTO tracks_fts(rowid, title, artist, album, genre)
  VALUES (new.id, new.title, new.artist, new.album, new.genre);
END;
"#;

pub const HEALTH_DISMISSALS: &'static str = r#"
CREATE TABLE health_dismissals (
  kind  TEXT NOT NULL CHECK (kind IN ('exact', 'possible', 'missing')),
  key   TEXT NOT NULL,
  value TEXT NOT NULL,
  PRIMARY KEY (kind, key)
);
"#;

pub const EDITED_FIELDS: &'static str = r#"
ALTER TABLE tracks ADD COLUMN edited_fields INTEGER NOT NULL DEFAULT 0;
"#;

pub const ANALYSIS_FAILURES: &'static str = r#"
ALTER TABLE tracks ADD COLUMN analysis_error TEXT;
ALTER TABLE tracks ADD COLUMN analysis_failed_at INTEGER;
"#;

pub const PLAY_LOG: &'static str = r#"
CREATE TABLE play_log (
  id       INTEGER PRIMARY KEY AUTOINCREMENT,
  track_id INTEGER,
  aired_at INTEGER NOT NULL,
  artist   TEXT,
  title    TEXT,
  duration REAL
);

CREATE INDEX play_log_aired ON play_log(aired_at);
"#;

pub const LOUDNESS: &'static str = r#"
ALTER TABLE tracks ADD COLUMN rg_gain REAL;
ALTER TABLE tracks ADD COLUMN rg_peak REAL;
ALTER TABLE tracks ADD COLUMN rg_measured_at INTEGER;
"#;

pub const AUTO_CUE: &'static str = r#"
ALTER TABLE tracks ADD COLUMN auto_cue_state TEXT NOT NULL DEFAULT 'pending'
  CHECK (auto_cue_state IN ('pending', 'auto', 'manual'));
ALTER TABLE tracks ADD COLUMN auto_cue_version INTEGER;
ALTER TABLE tracks ADD COLUMN auto_cue_silence_db REAL;
ALTER TABLE tracks ADD COLUMN auto_cue_segue_db REAL;
ALTER TABLE tracks ADD COLUMN auto_cue_at INTEGER;

UPDATE tracks SET auto_cue_state = 'manual'
 WHERE cue_in_ms IS NOT NULL OR cue_out_ms IS NOT NULL OR next_start_ms IS NOT NULL;
"#;

pub const AUTO_CUE_LEVELS: &'static str = r#"
ALTER TABLE tracks ADD COLUMN auto_cue_levels BLOB;
"#;

/// The schema, as an append-only list of migration steps.
pub fn migration_steps() -> (steps: Vec<&'static str>)
    ensures
        steps@ == seq![
            BASELINE,
            HEALTH_DISMISSALS,
            EDITED_FIELDS,
            ANALYSIS_FAILURES,
            PLAY_LOG,
            LOUDNESS,
            AUTO_CUE,
            AUTO_CUE_LEVELS,
        ],
{
    let mut steps = Vec::new();
    steps.push(BASELINE);
    steps.push(HEALTH_DISMISSALS);
    steps.push(EDITED_FIELDS);
    steps.push(ANALYSIS_FAILURES);
    steps.push(PLAY_LOG);
    steps.push(LOUDNESS);
    steps.push(AUTO_CUE);
    steps.push(AUTO_CUE_LEVELS);
    proof {
        assert(steps@ =~= seq![
            BASELINE,
            HEALTH_DISMISSALS,
            EDITED_FIELDS,
            ANALYSIS_FAILURES,
            PLAY_LOG,
            LOUDNESS,
            AUTO_CUE,
            AUTO_CUE_LEVELS,
        ]);
    }
    steps
}

/// The schema version this build migrates to: the number of steps.
pub open spec fn spec_schema_version() -> usize {
    8
}

pub fn schema_version() -> (v: usize)
    ensures
        v == spec_schema_version(),
{
    migration_steps().len()
}

/// A database this build must not touch.
#[derive(Clone, Copy, Debug, PartialEq, Eq, Structural)]
pub enum OpenError {
    /// Written by a newer build: migrated past what this build knows, or
    /// stamped with an epoch it does not recognise.
    TooNew { found: usize, supported: usize },
}

/// What opening a database at schema version `found` does: refuse one newer
/// than this build, and back up one that has pending migrations.
pub open spec fn spec_open_check(found: usize) -> Result<bool, OpenError> {
    if found > spec_schema_version() {
        Err(OpenError::TooNew { found, supported: spec_schema_version() })
    } else {
        Ok(found > 0 && found < spec_schema_version())
    }
}

/// Whether a database at schema version `found` may be opened, and if so
/// whether it must be backed up before migrating.
pub fn open_check(found: usize) -> (r: Result<bool, OpenError>)
    ensures
        r == spec_open_check(found),
{
    let supported = schema_version();
    if found > supported {
        return Err(OpenError::TooNew { found, supported });
    }
    Ok(found > 0 && found < supported)
}

/// What to do with an existing database file before opening it.
#[derive(Clone, Copy, Debug, PartialEq, Eq, Structural)]
pub enum LegacyAction {
    /// Open it as it is.
    Keep,
    /// It predates the current epoch: move it aside and start fresh.
    Retire,
    /// It comes from an epoch this build does not know.
    Refuse(OpenError),
}

pub open spec fn spec_legacy_action(version: usize, epoch: i32) -> LegacyAction {
    if version == 0 || epoch == DB_EPOCH {
        LegacyAction::Keep
    } else if !is_legacy_epoch(epoch) {
        LegacyAction::Refuse(OpenError::TooNew { found: version, supported: spec_schema_version() })
    } else {
        LegacyAction::Retire
    }
}

/// Decide on a database at schema `version` stamped with `epoch`: an empty or
/// current-epoch one is kept, one from a known older epoch is retired, and
/// one from any other epoch is refused, so an old build never resets a newer
/// library.
pub fn legacy_action(version: usize, epoch: i32) -> (a: LegacyAction)
    ensures
        a == spec_legacy_action(version, epoch),
{
    if version == 0 || epoch == DB_EPOCH {
        return LegacyAction::Keep;
    }
    if epoch != 0 {
        return LegacyAction::Refuse(OpenError::TooNew { found: version, supported: schema_version() });
    }
    LegacyAction::Retire
}

impl OpenError {
    pub open spec fn spec_message(self) -> Seq<char> {
        match self {
            OpenError::TooNew { found, supported } => "the library database was written by a newer RadiodioDJ (schema "@
                + digits(found as nat) + ", this version supports "@ + digits(supported as nat) + ")"@,
        }
    }

    /// What the operator is told.
    pub fn message(&self) -> (m: String)
        ensures
            m@ == self.spec_message(),
    {
        match self {
            OpenError::TooNew { found, supported } => {
                let mut m = String::new();
                push_text(&mut m, "the library database was written by a newer RadiodioDJ (schema ");
                let f = usize_text(*found);
                push_text(&mut m, f.as_str());
                push_text(&mut m, ", this version supports ");
                let s = usize_text(*supported);
                push_text(&mut m, s.as_str());
                push_text(&mut m, ")");
                m
            },
        }
    }
}

/// The version of a backup copy named `name` beside a database whose file
/// stem is `stem`: the copies are named `{stem}.v{version}.bak.db`.
pub open spec fn backup_version(stem: Seq<char>, name: Seq<char>) -> Option<usize> {
    let prefix = stem + ".v"@;
    let suffix = ".bak.db"@;
    if name.len() >= prefix.len() + suffix.len() && name.take(prefix.len() as int) == prefix
        && name.skip(name.len() - suffix.len()) == suffix {
        parsed_usize(name.subrange(prefix.len() as int, name.len() - suffix.len()))
    } else {
        None
    }
}

/// The backup version of each name.
pub open spec fn backup_versions(stem: Seq<char>, names: Seq<String>) -> Seq<Option<usize>> {
    names.map_values(|n: String| backup_version(stem, n@))
}

/// Copy `i` is a backup with at least `KEPT_BACKUPS` newer copies ahead of it.
pub open spec fn pruned(vs: Seq<Option<usize>>, i: int) -> bool {
    vs[i] is Some && ahead(vs, i, vs.len() as int) >= KEPT_BACKUPS
}

/// How many copies before index `upto` rank ahead of copy `i`, newest first:
/// a higher version, or the same version listed earlier.
pub open spec fn ahead(vs: Seq<Option<usize>>, i: int, upto: int) -> nat
    decreases upto,
{
    if upto <= 0 {
        0
    } else {
        let j = upto - 1;
        let before = ahead(vs, i, j);
        match (vs[j], vs[i]) {
            (Some(a), Some(b)) => if a > b || (a == b && j < i) {
                before + 1
            } else {
                before
            },
            _ => before,
        }
    }
}

fn version_of(stem: &str, name: &str) -> (v: Option<usize>)
    ensures
        v == backup_version(stem@, name@),
{
    let s = chars_of(stem);
    let n = chars_of(name);
    let slen: usize = 7;
    proof {
        reveal_strlit(".v");
        reveal_strlit(".bak.db");
    }
    if n.len() < s.len() || n.len() - s.len() < 2 + slen {
        return None;
    }
    let plen = s.len() + 2;
    let mut i: usize = 0;
    while i < s.len()
        invariant
            s@ == stem@,
            n@ == name@,
            i <= s@.len(),
            n@.len() >= s@.len() + 2,
            plen == s@.len() + 2,
            forall|k: int| 0 <= k < i ==> n@[k] == s@[k],
        decreases s@.len() - i,
    {
        if n[i] != s[i] {
            proof {
                assert(name@.take(plen as int)[i as int] != (stem@ + ".v"@)[i as int]);
            }
            return None;
        }
        i = i + 1;
    }
    let base = s.len();
    if n[base] != '.' || n[base + 1] != 'v' {
        proof {
            assert(name@.take(plen as int)[base as int] == n@[base as int]);
            assert(name@.take(plen as int)[base as int + 1] == n@[base as int + 1]);
            assert((stem@ + ".v"@)[base as int] == '.');
            assert((stem@ + ".v"@)[base as int + 1] == 'v');
        }
        return None;
    }
    proof {
        assert(name@.take(plen as int) =~= stem@ + ".v"@);
    }
    let tail = n.len() - slen;
    let suffix = ['.', 'b', 'a', 'k', '.', 'd', 'b'];
    let mut k: usize = 0;
    while k < slen
        invariant
            n@ == name@,
            tail + slen == n@.len(),
            n@.len() <= usize::MAX,
            slen == 7,
            suffix@ == ".bak.db"@,
            k <= slen,
            forall|q: int| 0 <= q < k ==> n@[tail + q] == suffix@[q],
        decreases slen - k,
    {
        assert(tail + k < n@.len());
        if n[tail + k] != suffix[k] {
            proof {
                assert(name@.skip(tail as int)[k as int] != ".bak.db"@[k as int]);
            }
            return None;
        }
        k = k + 1;
    }
    proof {
        assert(name@.skip(tail as int) =~= ".bak.db"@);
    }
    let mut digits_part: Vec<char> = Vec::new();
    let mut j: usize = plen;
    while j < tail
        invariant
            n@ == name@,
            plen <= j <= tail,
            tail <= n@.len(),
            digits_part@ == name@.subrange(plen as int, j as int),
        decreases tail - j,
    {
        digits_part.push(n[j]);
        proof {
            assert(name@.subrange(plen as int, j as int + 1) =~= name@.subrange(plen as int, j as int).push(n@[j as int]));
        }
        j = j + 1;
    }
    let text = string_of(digits_part.as_slice());
    parse_usize(text.as_str())
}

/// The file `<stem>.<suffix>` beside the database at `path`, where its
/// backups go; the stem is `library` when the path has none.
pub fn sibling(path: &str, suffix: &str) -> (r: String)
    ensures
        r@ == with_name(
            path@,
            match stem_of(path@) {
                Some(s) => s,
                None => "library"@,
            } + "."@ + suffix@,
        ),
{
    let mut name = match file_stem(path) {
        Some(s) => s,
        None => "library".to_owned(),
    };
    push_text(&mut name, ".");
    push_text(&mut name, suffix);
    with_file_name(path, name.as_str())
}

/// The backup copies to delete, by index into `names`: every copy beyond
/// the `KEPT_BACKUPS` newest. Names that are not backup copies of the
/// database with file stem `stem` are left alone.
pub fn backups_to_prune(stem: &str, names: &Vec<String>) -> (prune: Vec<usize>)
    ensures
        forall|i: int|
            0 <= i < names@.len() ==> (prune@.contains(i as usize) <==> #[trigger] pruned(
                backup_versions(stem@, names@),
                i,
            )),
        forall|a: int, b: int| 0 <= a < b < prune@.len() ==> prune@[a] < prune@[b],
        forall|a: int| 0 <= a < prune@.len() ==> prune@[a] < names@.len(),
{
    let ghost vs = backup_versions(stem@, names@);
    let mut versions: Vec<Option<usize>> = Vec::new();
    let mut i: usize = 0;
    while i < names.len()
        invariant
            i <= names@.len(),
            vs == backup_versions(stem@, names@),
            versions@ == vs.take(i as int),
        decreases names@.len() - i,
    {
        versions.push(version_of(stem, names[i].as_str()));
        proof {
            assert(vs.take(i as int + 1) =~= vs.take(i as int).push(vs[i as int]));
        }
        i = i + 1;
    }
    proof {
        assert(vs.take(vs.len() as int) =~= vs);
    }
    let mut prune: Vec<usize> = Vec::new();
    let mut c: usize = 0;
    while c < versions.len()
        invariant
            versions@ == vs,
            vs.len() == names@.len(),
            c <= vs.len(),
            forall|x: int| 0 <= x < c ==> (prune@.contains(x as usize) <==> #[trigger] pruned(vs, x)),
            forall|a: int| 0 <= a < prune@.len() ==> prune@[a] < c,
            forall|a: int, b: int| 0 <= a < b < prune@.len() ==> prune@[a] < prune@[b],
        decreases vs.len() - c,
    {
        if versions[c].is_some() {
            let mut count: usize = 0;
            let mut j: usize = 0;
            while j < versions.len()
                invariant
                    versions@ == vs,
                    c < vs.len(),
                    j <= vs.len(),
                    count == ahead(vs, c as int, j as int),
                    count <= j,
                decreases vs.len() - j,
            {
                let ahead_of = match (versions[j], versions[c]) {
                    (Some(a), Some(b)) => a > b || (a == b && j < c),
                    _ => false,
                };
                if ahead_of {
                    count = count + 1;
                }
                j = j + 1;
            }
            if count >= KEPT_BACKUPS {
                let ghost prev = prune@;
                prune.push(c);
                proof {
                    assert forall|x: int| 0 <= x < c + 1 implies (prune@.contains(x as usize) <==> #[trigger] pruned(vs, x)) by {
                        if x < c {
                            if prev.contains(x as usize) {
                                let w = choose|w: int| 0 <= w < prev.len() && prev[w] == x as usize;
                                assert(prune@[w] == x as usize);
                            }
                            if prune@.contains(x as usize) {
                                let w = choose|w: int| 0 <= w < prune@.len() && prune@[w] == x as usize;
                                if w < prev.len() {
                                    assert(prev[w] == x as usize);
                                }
                            }
                        } else {
                            assert(prune@[prune@.len() - 1] == c);
                        }
                    }
                }
            } else {
                proof {
                    assert(!prune@.contains(c)) by {
                        if prune@.contains(c) {
                            let w = choose|w: int| 0 <= w < prune@.len() && prune@[w] == c;
                        }
                    }
                }
            }
        } else {
            proof {
                assert(!prune@.contains(c)) by {
                    if prune@.contains(c) {
                        let w = choose|w: int| 0 <= w < prune@.len() && prune@[w] == c;
                    }
                }
            }
        }
        c = c + 1;
    }
    prune
}


/// The words of `s` (`str::split_whitespace`).
#[verifier::external_body]
fn split_words(s: &str) -> (r: Vec<String>)
    ensures
        views(r@) == words_of(s@),
{
    s.split_whitespace().map(str::to_owned).collect()
}

/// The FTS5 query for `words`: each a prefix term, separated by spaces.
pub open spec fn spec_fts_query(words: Seq<Seq<char>>) -> Seq<char>
    decreases words.len(),
{
    if words.len() == 0 {
        Seq::empty()
    } else if words.len() == 1 {
        spec_fts5_prefix_term(words[0])
    } else {
        spec_fts_query(words.drop_last()) + " "@ + spec_fts5_prefix_term(words.last())
    }
}

/// The order a search lists in: the one asked for, else artist, album and
/// title for a listing and relevance for a text search.
pub open spec fn spec_search_order(blank: bool, order: Option<Seq<char>>) -> Seq<char> {
    match order {
        Some(c) => c,
        None => if blank {
            "artist COLLATE NOCASE, album COLLATE NOCASE, title COLLATE NOCASE"@
        } else {
            "rank"@
        },
    }
}

/// The SQL of a search: present tracks, of one content type if `typed`,
/// matching the full-text query unless the query is `blank`, in `order`,
/// at most 200.
pub open spec fn spec_search_sql(blank: bool, typed: bool, order: Seq<char>) -> Seq<char> {
    (if blank {
        "SELECT * FROM tracks WHERE missing_since IS NULL"@ + (if typed {
            " AND content_type = ?"@
        } else {
            Seq::empty()
        })
    } else {
        "SELECT tracks.* FROM tracks_fts JOIN tracks ON tracks.id = tracks_fts.rowid WHERE tracks_fts MATCH ? AND tracks.missing_since IS NULL"@
            + (if typed {
            " AND tracks.content_type = ?"@
        } else {
            Seq::empty()
        })
    }) + " ORDER BY "@ + order + " LIMIT 200"@
}

/// What a search binds: the full-text query unless the query is blank,
/// then the content type if one is asked for.
pub open spec fn spec_search_params(query: Seq<char>, content_type: Option<Seq<char>>) -> Seq<
    SqlValueView,
> {
    (if trimmed(query).len() == 0 {
        Seq::empty()
    } else {
        seq![SqlValueView::Text(spec_fts_query(words_of(trimmed(query))))]
    }) + match content_type {
        Some(t) => seq![SqlValueView::Text(t)],
        None => Seq::empty(),
    }
}

pub open spec fn opt_str_view(o: Option<&str>) -> Option<Seq<char>> {
    match o {
        Some(s) => Some(s@),
        None => None,
    }
}

/// Whenever `sort_by` names a known column, a search is ordered by that
/// column, in the direction asked (descending only for "desc"), with the
/// text a title, artist or album is compared by ignoring case; whether the
/// query is blank or not, and whether a content type narrows it.
pub proof fn a_search_orders_by_the_column_asked_for(
    blank: bool,
    typed: bool,
    col: Seq<char>,
    sort_dir: Option<Seq<char>>,
)
    requires
        col == "title"@ || col == "artist"@ || col == "album"@ || col == "play_count"@,
    ensures
        ({
            let sql = spec_search_sql(blank, typed, spec_search_order(blank, spec_order_clause(Some(col), sort_dir)));
            let tail = " ORDER BY "@ + (col + " "@ + (if col == "play_count"@ {
                Seq::empty()
            } else {
                "COLLATE NOCASE "@
            }) + (if sort_dir == Some("desc"@) {
                "DESC"@
            } else {
                "ASC"@
            })) + " LIMIT 200"@;
            &&& sql.len() >= tail.len()
            &&& sql.subrange(sql.len() - tail.len(), sql.len() as int) == tail
        }),
{
    let order = spec_search_order(blank, spec_order_clause(Some(col), sort_dir));
    let head = if blank {
        "SELECT * FROM tracks WHERE missing_since IS NULL"@ + (if typed {
            " AND content_type = ?"@
        } else {
            Seq::empty()
        })
    } else {
        "SELECT tracks.* FROM tracks_fts JOIN tracks ON tracks.id = tracks_fts.rowid WHERE tracks_fts MATCH ? AND tracks.missing_since IS NULL"@
            + (if typed {
            " AND tracks.content_type = ?"@
        } else {
            Seq::empty()
        })
    };
    let tail = " ORDER BY "@ + order + " LIMIT 200"@;
    let sql = spec_search_sql(blank, typed, order);
    assert(sql =~= head + tail);
    assert(sql.subrange(head.len() as int, sql.len() as int) =~= tail);
}

/// A search with no known sort column lists a blank query in catalogue
/// order (artist, album, title, ignoring case) and a text query by
/// relevance.
pub proof fn a_search_without_a_known_sort_column_uses_its_default_order(
    blank: bool,
    typed: bool,
    sort_by: Option<Seq<char>>,
    sort_dir: Option<Seq<char>>,
)
    requires
        !(sort_by == Some("title"@) || sort_by == Some("artist"@) || sort_by == Some("album"@) || sort_by == Some(
            "play_count"@,
        )),
    ensures
        ({
            let sql = spec_search_sql(blank, typed, spec_search_order(blank, spec_order_clause(sort_by, sort_dir)));
            let tail = " ORDER BY "@ + (if blank {
                "artist COLLATE NOCASE, album COLLATE NOCASE, title COLLATE NOCASE"@
            } else {
                "rank"@
            }) + " LIMIT 200"@;
            &&& sql.len() >= tail.len()
            &&& sql.subrange(sql.len() - tail.len(), sql.len() as int) == tail
        }),
{
    let order = spec_search_order(blank, spec_order_clause(sort_by, sort_dir));
    let head = if blank {
        "SELECT * FROM tracks WHERE missing_since IS NULL"@ + (if typed {
            " AND content_type = ?"@
        } else {
            Seq::empty()
        })
    } else {
        "SELECT tracks.* FROM tracks_fts JOIN tracks ON tracks.id = tracks_fts.rowid WHERE tracks_fts MATCH ? AND tracks.missing_since IS NULL"@
            + (if typed {
            " AND tracks.content_type = ?"@
        } else {
            Seq::empty()
        })
    };
    let tail = " ORDER BY "@ + order + " LIMIT 200"@;
    let sql = spec_search_sql(blank, typed, order);
    assert(spec_order_clause(sort_by, sort_dir) is None);
    assert(sql =~= head + tail);
    assert(sql.subrange(head.len() as int, sql.len() as int) =~= tail);
}

/// The SQL and parameters of a search for `query`: every word of it a
/// prefix term, or every present track when it is blank; `content_type`
/// narrows it, and `sort_by` / `sort_dir` order it when they name a known
/// column.
pub fn search_query(
    query: &str,
    content_type: Option<&str>,
    sort_by: Option<&str>,
    sort_dir: Option<&str>,
) -> (q: (String, Vec<SqlValue>))
    ensures
        q.0@ == spec_search_sql(
            trimmed(query@).len() == 0,
            content_type is Some,
            spec_search_order(
                trimmed(query@).len() == 0,
                spec_order_clause(opt_str_view(sort_by), opt_str_view(sort_dir)),
            ),
        ),
        sql_value_views(q.1@) == spec_search_params(query@, opt_str_view(content_type)),
{
    let order = order_clause(sort_by, sort_dir);
    let text = trim_text(query);
    let blank = text.is_empty();
    proof {
        reveal_strlit("artist COLLATE NOCASE, album COLLATE NOCASE, title COLLATE NOCASE");
        reveal_strlit("rank");
    }
    let mut sql = String::new();
    let mut params: Vec<SqlValue> = Vec::new();
    if blank {
        push_text(&mut sql, "SELECT * FROM tracks WHERE missing_since IS NULL");
        if content_type.is_some() {
            push_text(&mut sql, " AND content_type = ?");
        }
    } else {
        push_text(
            &mut sql,
            "SELECT tracks.* FROM tracks_fts JOIN tracks ON tracks.id = tracks_fts.rowid WHERE tracks_fts MATCH ? AND tracks.missing_since IS NULL",
        );
        if content_type.is_some() {
            push_text(&mut sql, " AND tracks.content_type = ?");
        }
        let words = split_words(text);
        let ghost ws = views(words@);
        let mut fts = String::new();
        let mut i: usize = 0;
        while i < words.len()
            invariant
                i <= words@.len(),
                ws == views(words@),
                fts@ == spec_fts_query(ws.take(i as int)),
            decreases words@.len() - i,
        {
            let term = fts5_prefix_term(words[i].as_str());
            proof {
                assert(ws.take(i as int + 1).drop_last() =~= ws.take(i as int));
                assert(ws.take(i as int + 1).last() == ws[i as int]);
            }
            if i > 0 {
                push_text(&mut fts, " ");
            } else {
                proof {
                    assert(ws.take(1)[0] == ws[0]);
                }
            }
            push_text(&mut fts, term.as_str());
            proof {
                if i == 0 {
                    assert(fts@ =~= spec_fts_query(ws.take(1)));
                } else {
                    assert(fts@ =~= spec_fts_query(ws.take(i as int + 1)));
                }
            }
            i = i + 1;
        }
        proof {
            assert(ws.take(ws.len() as int) =~= ws);
            assert(fts@ == spec_fts_query(words_of(trimmed(query@))));
        }
        params.push(SqlValue::Text(fts));
        proof {
            assert(sql_value_views(params@) =~= seq![
                SqlValueView::Text(spec_fts_query(words_of(trimmed(query@)))),
            ]);
        }
    }
    push_text(&mut sql, " ORDER BY ");
    match &order {
        Some(c) => push_text(&mut sql, c.as_str()),
        None => if blank {
            push_text(&mut sql, "artist COLLATE NOCASE, album COLLATE NOCASE, title COLLATE NOCASE");
        } else {
            push_text(&mut sql, "rank");
        },
    }
    push_text(&mut sql, " LIMIT 200");
    let ghost before_type = sql_value_views(params@);
    proof {
        if blank {
            assert(before_type =~= Seq::<SqlValueView>::empty());
        }
    }
    if let Some(t) = content_type {
        let owned = t.to_owned();
        proof {
            assert(owned@ == t@);
        }
        params.push(SqlValue::Text(owned));
        proof {
            assert(sql_value_views(params@) =~= before_type.push(SqlValueView::Text(t@)));
        }
    }
    proof {
        let head: Seq<SqlValueView> = if trimmed(query@).len() == 0 {
            Seq::empty()
        } else {
            seq![SqlValueView::Text(spec_fts_query(words_of(trimmed(query@))))]
        };
        assert(before_type == head);
        match content_type {
            Some(t) => {
                assert(sql_value_views(params@) =~= head + seq![SqlValueView::Text(t@)]);
            },
            None => {
                assert(sql_value_views(params@) =~= head + Seq::<SqlValueView>::empty());
            },
        }
        assert(sql_value_views(params@) =~= spec_search_params(query@, opt_str_view(content_type)));
    }
    (sql, params)
}

} // verus!
