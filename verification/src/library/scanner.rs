//! What a scan decides for each file it finds, and how the decisions become
//! one change to the library. Reading tags and fingerprints, and applying the
//! change, belong to the application.

use vstd::prelude::*;

use super::check::{find_present, present_row};
use super::db::{opt_view, IndexRow, Reconciled};
use super::listing::{contains_text, spec_should_rescan, Found};
use crate::text::{parse_i64, parsed_i64, push_text, to_ascii_lower, ascii_lower, views};

verus! {

/// Parallel tag-read workers during a scan.
pub const SCAN_CONCURRENCY: usize = 4;

/// What a complete tag read stores today, recorded per row. Bumping it
/// sends every row back through the tag backfill.
pub const TAG_READ_VERSION: i64 = 1;

/// What one scan did.
#[derive(Clone, Copy, Debug, PartialEq, Eq, Structural)]
pub struct ScanOutcome {
    pub total: usize,
    pub added: usize,
    pub canceled: bool,
    /// Rows newly marked missing by this scan.
    pub missing: usize,
    /// Moved files matched back to their missing rows.
    pub reattached: usize,
    /// Rows whose own path turned out to hold a different recording.
    pub replaced: usize,
}

impl Default for ScanOutcome {
    fn default() -> (o: ScanOutcome)
        ensures
            o == (ScanOutcome {
                total: 0,
                added: 0,
                canceled: false,
                missing: 0,
                reattached: 0,
                replaced: 0,
            }),
    {
        ScanOutcome { total: 0, added: 0, canceled: false, missing: 0, reattached: 0, replaced: 0 }
    }
}

/// `a` went missing after `b`, ties broken by id.
pub open spec fn later(a: IndexRow, b: IndexRow) -> bool {
    match (a.missing_since, b.missing_since) {
        (Some(x), Some(y)) => x > y || (x == y && a.id > b.id),
        (Some(_), None) => true,
        (None, Some(_)) => false,
        (None, None) => a.id > b.id,
    }
}

/// The newest missing row at `path`: the first one that no later row
/// outranks.
pub open spec fn newest_missing(index: Seq<IndexRow>, path: Seq<char>) -> Option<IndexRow>
    decreases index.len(),
{
    if index.len() == 0 {
        None
    } else {
        let best = newest_missing(index.drop_last(), path);
        let r = index.last();
        if r.missing_since is Some && r.path@ == path {
            match best {
                Some(b) => if later(r, b) {
                    Some(r)
                } else {
                    best
                },
                None => Some(r),
            }
        } else {
            best
        }
    }
}

/// The missing row a file found at `path` brings back: the newest missing
/// row there, when no present row holds the path.
pub open spec fn returning_row(index: Seq<IndexRow>, seen: Seq<Seq<char>>, path: Seq<char>) -> Option<
    IndexRow,
> {
    if seen.contains(path) && present_row(index, path) is None {
        newest_missing(index, path)
    } else {
        None
    }
}

fn newest_missing_at(index: &[IndexRow], path: &str) -> (r: Option<usize>)
    ensures
        match r {
            Some(i) => i < index@.len() && newest_missing(index@, path@) == Some(index@[i as int]),
            None => newest_missing(index@, path@) is None,
        },
{
    let mut best: Option<usize> = None;
    let mut i: usize = 0;
    while i < index.len()
        invariant
            i <= index@.len(),
            match best {
                Some(b) => b < i && newest_missing(index@.take(i as int), path@) == Some(
                    index@[b as int],
                ),
                None => newest_missing(index@.take(i as int), path@) is None,
            },
        decreases index@.len() - i,
    {
        let r = &index[i];
        proof {
            assert(index@.take(i as int + 1).drop_last() =~= index@.take(i as int));
            assert(index@.take(i as int + 1).last() == *r);
        }
        if r.missing_since.is_some() && crate::text::same_text(r.path.as_str(), path) {
            match best {
                Some(b) => {
                    let o = &index[b];
                    let newer = match (r.missing_since, o.missing_since) {
                        (Some(x), Some(y)) => x > y || (x == y && r.id > o.id),
                        (Some(_), None) => true,
                        (None, Some(_)) => false,
                        (None, None) => r.id > o.id,
                    };
                    if newer {
                        best = Some(i);
                    }
                },
                None => {
                    best = Some(i);
                },
            }
        }
        i = i + 1;
    }
    proof {
        assert(index@.take(index@.len() as int) =~= index@);
    }
    best
}

/// What a found file asks of the library before anything is read from it.
#[derive(Debug, PartialEq)]
pub enum Plan {
    /// The library holds this file as it is.
    Skip,
    /// A present row whose file changed: read the file's fingerprint and
    /// tags, then see whether it `replaces` the row's recording.
    Reread { id: i64, fingerprint: Option<String> },
    /// A path no present row holds. `returning` is the missing row the file
    /// may bring back, `changed` whether that row is out of date, and
    /// `read_fingerprint` whether to read the file's fingerprint before settling.
    Unknown { returning: Option<IndexRow>, changed: bool, read_fingerprint: bool },
}

/// The plan for a found file, as contracts speak of it.
pub open spec fn spec_plan(
    file: Found,
    mtime_ms: i64,
    index: Seq<IndexRow>,
    seen: Seq<Seq<char>>,
    fingerprint_new: bool,
) -> Plan {
    match present_row(index, file.path@) {
        Some(row) => if spec_should_rescan(
            Some(row.content_type@),
            row.mtime,
            mtime_ms,
            file.content_type@,
        ) {
            Plan::Reread { id: row.id, fingerprint: row.fingerprint }
        } else {
            Plan::Skip
        },
        None => {
            let back = returning_row(index, seen, file.path@);
            Plan::Unknown {
                returning: back,
                changed: match back {
                    Some(row) => spec_should_rescan(
                        Some(row.content_type@),
                        row.mtime,
                        mtime_ms,
                        file.content_type@,
                    ),
                    None => false,
                },
                read_fingerprint: fingerprint_new || back is Some,
            }
        },
    }
}

/// Decide what a file found at scan time asks of the library. A first scan
/// (`fingerprint_new` false) reads no fingerprint for a new file; the
/// background pass fills it in.
pub fn plan(
    file: &Found,
    mtime_ms: i64,
    index: &[IndexRow],
    seen: &Vec<String>,
    fingerprint_new: bool,
) -> (p: Plan)
    ensures
        p == spec_plan(*file, mtime_ms, index@, views(seen@), fingerprint_new),
{
    match find_present(index, &file.path) {
        Some(k) => {
            let row = &index[k];
            if file.changed(row, mtime_ms) {
                Plan::Reread { id: row.id, fingerprint: crate::playlist::model::clone_opt_string(&row.fingerprint) }
            } else {
                Plan::Skip
            }
        },
        None => {
            let back: Option<IndexRow> = if contains_text(seen, file.path.as_str()) {
                match newest_missing_at(index, file.path.as_str()) {
                    Some(i) => Some(index[i].clone()),
                    None => None,
                }
            } else {
                None
            };
            let changed = match &back {
                Some(row) => file.changed(row, mtime_ms),
                None => false,
            };
            let read_fingerprint = fingerprint_new || back.is_some();
            Plan::Unknown { returning: back, changed, read_fingerprint }
        },
    }
}

/// Two fingerprints prove different recordings only when both exist and
/// differ: an absent one is not evidence, so a row is never retired on a
/// guess.
pub open spec fn spec_replaces(stored: Option<Seq<char>>, read: Option<Seq<char>>) -> bool {
    stored is Some && read is Some && stored != read
}

/// Whether the file now at a present row's path is a different recording.
pub fn replaces(stored: &Option<String>, read: &Option<String>) -> (r: bool)
    ensures
        r == spec_replaces(opt_view(*stored), opt_view(*read)),
{
    match (stored, read) {
        (Some(a), Some(b)) => !crate::text::same_text(a.as_str(), b.as_str()),
        _ => false,
    }
}

/// How a file at a path no present row holds enters the library.
#[derive(Clone, Copy, Debug, PartialEq, Eq, Structural)]
pub enum Entry {
    /// Brings the missing row back, its audio the same or not comparable.
    Revive(i64),
    /// Enters as a track of its own.
    New,
}

pub open spec fn spec_entry(returning: Option<IndexRow>, read: Option<Seq<char>>) -> Entry {
    match returning {
        Some(row) => if spec_replaces(opt_view(row.fingerprint), read) {
            Entry::New
        } else {
            Entry::Revive(row.id)
        },
        None => Entry::New,
    }
}

/// Whether the file revives `returning` or is new.
pub fn entry(returning: &Option<IndexRow>, read: &Option<String>) -> (e: Entry)
    ensures
        e == spec_entry(*returning, opt_view(*read)),
{
    match returning {
        Some(row) => if replaces(&row.fingerprint, read) {
            Entry::New
        } else {
            Entry::Revive(row.id)
        },
        None => Entry::New,
    }
}

/// What one found file asks of the library, carrying the tags read (`T`).
#[derive(Debug, PartialEq)]
pub enum Step<T> {
    /// A known path whose file changed, with the same audio or audio that
    /// cannot be compared.
    Update(T),
    /// A known path now holding a different recording: the row goes missing
    /// and the file enters as a track of its own.
    Replaced { id: i64, new: T },
    /// A missing row whose file is back; `update` carries new tags if the
    /// file changed.
    Revive { id: i64, update: Option<T> },
    /// A path the library does not hold.
    New(T),
}

/// The change a scan applies in one transaction.
#[derive(Debug, PartialEq)]
pub struct Change<T> {
    pub upserts: Vec<T>,
    pub revive: Vec<i64>,
    pub new_files: Vec<T>,
    pub replaced: Vec<i64>,
    pub gone: Vec<i64>,
}

/// Rows rewritten from the tags read.
pub open spec fn upserts_of<T>(steps: Seq<Step<T>>) -> Seq<T>
    decreases steps.len(),
{
    if steps.len() == 0 {
        Seq::empty()
    } else {
        let before = upserts_of(steps.drop_last());
        match steps.last() {
            Step::Update(t) => before.push(t),
            Step::Revive { update: Some(t), .. } => before.push(t),
            _ => before,
        }
    }
}

/// Missing rows brought back.
pub open spec fn revived_of<T>(steps: Seq<Step<T>>) -> Seq<i64>
    decreases steps.len(),
{
    if steps.len() == 0 {
        Seq::empty()
    } else {
        let before = revived_of(steps.drop_last());
        match steps.last() {
            Step::Revive { id, .. } => before.push(id),
            _ => before,
        }
    }
}

/// Files entering as tracks of their own.
pub open spec fn new_of<T>(steps: Seq<Step<T>>) -> Seq<T>
    decreases steps.len(),
{
    if steps.len() == 0 {
        Seq::empty()
    } else {
        let before = new_of(steps.drop_last());
        match steps.last() {
            Step::New(t) => before.push(t),
            Step::Replaced { new, .. } => before.push(new),
            _ => before,
        }
    }
}

/// Rows retired for a different recording at their path.
pub open spec fn replaced_of<T>(steps: Seq<Step<T>>) -> Seq<i64>
    decreases steps.len(),
{
    if steps.len() == 0 {
        Seq::empty()
    } else {
        let before = replaced_of(steps.drop_last());
        match steps.last() {
            Step::Replaced { id, .. } => before.push(id),
            _ => before,
        }
    }
}

/// Turn a scan's steps into the change it applies. A canceled scan commits
/// no new file and marks nothing gone: committing a new file without first
/// marking what is gone could mint a duplicate of a file that merely moved.
pub fn apply<T>(steps: Vec<Step<T>>, canceled: bool, gone: Vec<i64>) -> (c: Change<T>)
    ensures
        c.upserts@ == upserts_of(steps@),
        c.revive@ == revived_of(steps@),
        c.new_files@ == (if canceled {
            Seq::empty()
        } else {
            new_of(steps@)
        }),
        c.replaced@ == (if canceled {
            Seq::empty()
        } else {
            replaced_of(steps@)
        }),
        c.gone@ == (if canceled {
            Seq::empty()
        } else {
            gone@
        }),
{
    let ghost all = steps@;
    let mut src = steps;
    let mut rev: Vec<Step<T>> = Vec::new();
    while src.len() > 0
        invariant
            src@ + rev@.reverse() == all,
        decreases src@.len(),
    {
        let ghost before = src@;
        let ghost old_rev = rev@;
        let s = src.pop().unwrap();
        rev.push(s);
        proof {
            assert(before =~= src@.push(s));
            assert(rev@.reverse() =~= seq![s] + old_rev.reverse());
            assert(src@ + rev@.reverse() =~= before + old_rev.reverse());
        }
    }
    proof {
        assert(rev@.reverse() =~= all);
        assert(all.skip(0) =~= all);
    }
    let mut c = Change {
        upserts: Vec::new(),
        revive: Vec::new(),
        new_files: Vec::new(),
        replaced: Vec::new(),
        gone: Vec::new(),
    };
    proof {
        assert(all.take(0) =~= Seq::<Step<T>>::empty());
    }
    while rev.len() > 0
        invariant
            rev@.len() <= all.len(),
            rev@.reverse() == all.skip(all.len() - rev@.len()),
            c.upserts@ == upserts_of(all.take(all.len() - rev@.len())),
            c.revive@ == revived_of(all.take(all.len() - rev@.len())),
            c.new_files@ == (if canceled {
                Seq::empty()
            } else {
                new_of(all.take(all.len() - rev@.len()))
            }),
            c.replaced@ == (if canceled {
                Seq::empty()
            } else {
                replaced_of(all.take(all.len() - rev@.len()))
            }),
            c.gone@.len() == 0,
        decreases rev@.len(),
    {
        let ghost n = all.len() - rev@.len();
        let ghost before = rev@;
        let s = rev.pop().unwrap();
        proof {
            assert(before =~= rev@.push(s));
            assert(before.reverse() =~= seq![s] + rev@.reverse());
            assert(before.reverse()[0] == s);
            assert(all.skip(n)[0] == all[n]);
            assert(rev@.reverse() =~= all.skip(n + 1)) by {
                assert(rev@.reverse() =~= before.reverse().skip(1));
                assert(all.skip(n + 1) =~= all.skip(n).skip(1));
            }
            assert(all.take(n + 1).drop_last() =~= all.take(n));
            assert(all.take(n + 1).last() == s);
        }
        match s {
            Step::Update(t) => {
                c.upserts.push(t);
            },
            Step::Revive { id, update } => {
                c.revive.push(id);
                match update {
                    Some(t) => {
                        c.upserts.push(t);
                    },
                    None => {},
                }
            },
            Step::New(t) => {
                if !canceled {
                    c.new_files.push(t);
                }
            },
            Step::Replaced { id, new } => {
                if !canceled {
                    c.replaced.push(id);
                    c.new_files.push(new);
                }
            },
        }
    }
    proof {
        assert(all.take(all.len() as int) =~= all);
    }
    if !canceled {
        c.gone = gone;
    }
    c
}

/// A scan's outcome from what it found, rewrote and applied.
pub fn outcome(total: usize, updated: usize, done: Reconciled, canceled: bool) -> (o: ScanOutcome)
    requires
        updated + done.inserted + done.duplicated <= usize::MAX,
    ensures
        o == (ScanOutcome {
            total,
            added: (updated + done.inserted + done.duplicated) as usize,
            canceled,
            missing: done.missing,
            reattached: done.reattached,
            replaced: done.replaced,
        }),
{
    ScanOutcome {
        total,
        added: updated + done.inserted + done.duplicated,
        canceled,
        missing: done.missing,
        reattached: done.reattached,
        replaced: done.replaced,
    }
}

/// The text columns a scan stores for a file besides the raw tags.
#[derive(Debug, PartialEq)]
pub struct TagText {
    pub title: String,
    pub artist: String,
    pub album: String,
    /// The file extension, lower-cased.
    pub format: Option<String>,
    pub year: Option<i64>,
}

/// What the scanner stores for a missing artist or album.
pub open spec fn unknown_text() -> Seq<char> {
    seq!['U', 'n', 'k', 'n', 'o', 'w', 'n']
}

fn or_unknown(s: Option<String>) -> (r: String)
    ensures
        r@ == match s {
            Some(v) => v@,
            None => unknown_text(),
        },
{
    proof {
        reveal_strlit("Unknown");
    }
    match s {
        Some(v) => v,
        None => "Unknown".to_owned(),
    }
}

/// The stored text of a file's tags: an untagged file takes its file stem as
/// title and "Unknown" as artist and album; the year counts only when its
/// tag reads as a number.
pub fn tag_text(
    stem: &str,
    extension: Option<&str>,
    title: Option<String>,
    artist: Option<String>,
    album: Option<String>,
    year: Option<&str>,
) -> (t: TagText)
    ensures
        t.title@ == match title {
            Some(v) => v@,
            None => stem@,
        },
        t.artist@ == match artist {
            Some(v) => v@,
            None => unknown_text(),
        },
        t.album@ == match album {
            Some(v) => v@,
            None => unknown_text(),
        },
        opt_view(t.format) == match extension {
            Some(e) => Some(ascii_lower(e@)),
            None => None,
        },
        t.year == match year {
            Some(y) => parsed_i64(y@),
            None => None,
        },
{
    let title = match title {
        Some(v) => v,
        None => stem.to_owned(),
    };
    let format = match extension {
        Some(e) => Some(to_ascii_lower(e)),
        None => None,
    };
    let year = match year {
        Some(y) => parse_i64(y),
        None => None,
    };
    TagText { title, artist: or_unknown(artist), album: or_unknown(album), format, year }
}

/// The character for six bits of base64 in the standard alphabet.
pub open spec fn base64_digit(v: int) -> char {
    if v < 26 {
        (65 + v) as char
    } else if v < 52 {
        (97 + v - 26) as char
    } else if v < 62 {
        (48 + v - 52) as char
    } else if v == 62 {
        '+'
    } else {
        '/'
    }
}

/// `d` in standard base64 with `=` padding (RFC 4648).
pub open spec fn base64(d: Seq<u8>) -> Seq<char>
    decreases d.len(),
{
    if d.len() == 0 {
        Seq::empty()
    } else if d.len() == 1 {
        seq![base64_digit((d[0] / 4) as int), base64_digit((d[0] % 4) * 16), '=', '=']
    } else if d.len() == 2 {
        seq![
            base64_digit((d[0] / 4) as int),
            base64_digit((d[0] % 4) * 16 + d[1] / 16),
            base64_digit((d[1] % 16) * 4),
            '=',
        ]
    } else {
        seq![
            base64_digit((d[0] / 4) as int),
            base64_digit((d[0] % 4) * 16 + d[1] / 16),
            base64_digit((d[1] % 16) * 4 + d[2] / 64),
            base64_digit((d[2] % 64) as int),
        ] + base64(d.skip(3))
    }
}

/// `data` in standard base64 with padding
/// (`base64::engine::general_purpose::STANDARD.encode`).
#[verifier::external_body]
fn encode_base64(data: &[u8]) -> (s: String)
    requires
        data@.len() <= usize::MAX / 2,
    ensures
        s@ == base64(data@),
{
    base64::Engine::encode(&base64::engine::general_purpose::STANDARD, data)
}

/// The media type a picture is announced as: its own, or JPEG when it has
/// none.
pub open spec fn picture_type(mime: Option<Seq<char>>) -> Seq<char> {
    match mime {
        Some(m) => if m.len() > 0 {
            m
        } else {
            "image/jpeg"@
        },
        None => "image/jpeg"@,
    }
}

/// An embedded picture as a `data:` URL, ready for an `<img src>`.
pub fn cover_data_url(mime: Option<&str>, data: &[u8]) -> (url: String)
    requires
        data@.len() <= usize::MAX / 2,
    ensures
        url@ == "data:"@ + picture_type(
            match mime {
                Some(m) => Some(m@),
                None => None,
            },
        ) + ";base64,"@ + base64(data@),
{
    let kind: &str = match mime {
        Some(m) => if m.is_empty() {
            "image/jpeg"
        } else {
            m
        },
        None => "image/jpeg",
    };
    let mut url = String::new();
    push_text(&mut url, "data:");
    push_text(&mut url, kind);
    push_text(&mut url, ";base64,");
    let encoded = encode_base64(data);
    push_text(&mut url, encoded.as_str());
    url
}

} // verus!
