//! What is on disk under the library paths, and the rules that compare it with
//! the library. The scan applies these rules and the library check only
//! reports them, so both go through this module and cannot disagree.

use vstd::prelude::*;

use super::db::IndexRow;
use crate::persist::config::AppConfig;
use crate::playlist::model::clone_opt_string;
use crate::text::{same_text, views};

verus! {

/// Whether `path` lies under `root`, matched by whole path components as
/// `Path::starts_with` matches them, so `/Music` does not contain `/Music2`.
pub uninterp spec fn path_within(path: Seq<char>, root: Seq<char>) -> bool;

/// `Path::new(path).starts_with(root)`.
#[verifier::external_body]
pub(crate) fn is_within(path: &str, root: &str) -> (r: bool)
    ensures
        r == path_within(path@, root@),
{
    std::path::Path::new(path).starts_with(root)
}

/// A configured library path and the content type it feeds.
#[derive(Clone, Debug, PartialEq)]
pub struct ScanRoot {
    pub content_type: &'static str,
    pub path: String,
}

/// The audio files found under one root. `complete` is false when part of the
/// tree could not be read, so the listing cannot prove a file is gone.
#[derive(Clone, Debug, PartialEq)]
pub struct Enumeration {
    pub files: Vec<String>,
    pub complete: bool,
}

/// Whether a file must be read again: a path the library does not hold, a
/// row without a recorded mtime, a changed content type or a changed mtime.
pub open spec fn spec_should_rescan(
    existing_content_type: Option<Seq<char>>,
    existing_mtime: Option<i64>,
    file_mtime_ms: i64,
    content_type: Seq<char>,
) -> bool {
    match (existing_content_type, existing_mtime) {
        (Some(prev_ct), Some(prev_mtime)) => prev_ct != content_type || prev_mtime != file_mtime_ms,
        _ => true,
    }
}

pub fn should_rescan(
    existing_content_type: Option<&str>,
    existing_mtime: Option<i64>,
    file_mtime_ms: i64,
    content_type: &str,
) -> (r: bool)
    ensures
        r == spec_should_rescan(
            match existing_content_type {
                Some(s) => Some(s@),
                None => None,
            },
            existing_mtime,
            file_mtime_ms,
            content_type@,
        ),
{
    let prev_ct = match existing_content_type {
        Some(ct) => ct,
        None => return true,
    };
    let prev_mtime = match existing_mtime {
        Some(m) => m,
        None => return true,
    };
    if !same_text(prev_ct, content_type) {
        return true;
    }
    prev_mtime != file_mtime_ms
}

/// A file found on disk, with the content type of the root it was found under.
#[derive(Clone, Debug, PartialEq)]
pub struct Found {
    pub path: String,
    pub content_type: &'static str,
}

impl Found {
    /// Whether `row`, the library's record of this path, is out of date for a
    /// file modified at `mtime_ms`.
    pub fn changed(&self, row: &IndexRow, mtime_ms: i64) -> (r: bool)
        ensures
            r == spec_should_rescan(
                Some(row.content_type@),
                row.mtime,
                mtime_ms,
                self.content_type@,
            ),
    {
        should_rescan(Some(row.content_type.as_str()), row.mtime, mtime_ms, self.content_type)
    }
}

/// Every configured root, listed. A file under two roots is listed once, under
/// the first.
#[derive(Clone, Debug, PartialEq)]
pub struct Listing {
    pub found: Vec<Found>,
    /// Every listed path, each once.
    pub seen: Vec<String>,
    /// Roots listed completely: the only ones that can prove a file gone.
    pub complete: Vec<String>,
    /// Roots listed with unreadable parts.
    pub partial: Vec<String>,
    /// Roots that are not a readable directory.
    pub unreachable: Vec<String>,
}

/// A listing as plain values: found (path, content type) pairs, seen paths,
/// and the complete, partial and unreachable roots.
#[verifier::ext_equal]
pub struct ListingView {
    pub found: Seq<(Seq<char>, Seq<char>)>,
    pub seen: Seq<Seq<char>>,
    pub complete: Seq<Seq<char>>,
    pub partial: Seq<Seq<char>>,
    pub unreachable: Seq<Seq<char>>,
}

impl View for Listing {
    type V = ListingView;

    open spec fn view(&self) -> ListingView {
        ListingView {
            found: self.found@.map_values(|f: Found| (f.path@, f.content_type@)),
            seen: views(self.seen@),
            complete: views(self.complete@),
            partial: views(self.partial@),
            unreachable: views(self.unreachable@),
        }
    }
}

/// `files` added to a listing under a root of type `ct`: each path not seen
/// yet is found, in order.
pub open spec fn add_files(l: ListingView, files: Seq<Seq<char>>, ct: Seq<char>) -> ListingView
    decreases files.len(),
{
    if files.len() == 0 {
        l
    } else {
        let before = add_files(l, files.drop_last(), ct);
        let f = files.last();
        if before.seen.contains(f) {
            before
        } else {
            ListingView {
                found: before.found.push((f, ct)),
                seen: before.seen.push(f),
                ..before
            }
        }
    }
}

/// The listing of the first `n` roots, given what listing each of them gave:
/// `None` for a root that is not a readable directory.
pub open spec fn listing_of(
    roots: Seq<(Seq<char>, Seq<char>)>,
    listed: Seq<Option<(Seq<Seq<char>>, bool)>>,
    n: int,
) -> ListingView
    decreases n,
{
    if n <= 0 {
        ListingView {
            found: Seq::empty(),
            seen: Seq::empty(),
            complete: Seq::empty(),
            partial: Seq::empty(),
            unreachable: Seq::empty(),
        }
    } else {
        let before = listing_of(roots, listed, n - 1);
        let (ct, path) = roots[n - 1];
        match listed[n - 1] {
            None => ListingView { unreachable: before.unreachable.push(path), ..before },
            Some((files, complete)) => {
                let marked = if complete {
                    ListingView { complete: before.complete.push(path), ..before }
                } else {
                    ListingView { partial: before.partial.push(path), ..before }
                };
                add_files(marked, files, ct)
            },
        }
    }
}

/// Roots as (content type, path) pairs.
pub open spec fn root_views(roots: Seq<ScanRoot>) -> Seq<(Seq<char>, Seq<char>)> {
    roots.map_values(|r: ScanRoot| (r.content_type@, r.path@))
}

/// Listings as plain values.
pub open spec fn enumeration_views(listed: Seq<Option<Enumeration>>) -> Seq<
    Option<(Seq<Seq<char>>, bool)>,
> {
    listed.map_values(
        |e: Option<Enumeration>|
            match e {
                Some(e) => Some((views(e.files@), e.complete)),
                None => None,
            },
    )
}

/// Whether `v` holds the text `s`.
pub fn contains_text(v: &Vec<String>, s: &str) -> (r: bool)
    ensures
        r == views(v@).contains(s@),
{
    let mut i: usize = 0;
    while i < v.len()
        invariant
            i <= v@.len(),
            forall|j: int| 0 <= j < i ==> v@[j]@ != s@,
        decreases v@.len() - i,
    {
        if same_text(v[i].as_str(), s) {
            assert(views(v@)[i as int] == s@);
            return true;
        }
        i = i + 1;
    }
    proof {
        assert forall|j: int| 0 <= j < views(v@).len() implies views(v@)[j] != s@ by {}
    }
    false
}

/// List every configured root from what enumerating each of them gave
/// (`None` for a root that is not a readable directory). A file under two
/// roots is listed once, under the first.
pub fn list_roots(roots: &[ScanRoot], listed: Vec<Option<Enumeration>>) -> (l: Listing)
    requires
        listed@.len() == roots@.len(),
    ensures
        l.view() == listing_of(root_views(roots@), enumeration_views(listed@), roots@.len() as int),
{
    let mut listing = Listing {
        found: Vec::new(),
        seen: Vec::new(),
        complete: Vec::new(),
        partial: Vec::new(),
        unreachable: Vec::new(),
    };
    let ghost rv = root_views(roots@);
    let ghost ev = enumeration_views(listed@);
    assert(listing.view() =~= listing_of(rv, ev, 0));
    let mut i: usize = 0;
    while i < roots.len()
        invariant
            i <= roots@.len(),
            listed@.len() == roots@.len(),
            rv == root_views(roots@),
            ev == enumeration_views(listed@),
            listing.view() == listing_of(rv, ev, i as int),
        decreases roots@.len() - i,
    {
        let root = &roots[i];
        match &listed[i] {
            None => {
                listing.unreachable.push(root.path.clone());
                proof {
                    assert(views(listing.unreachable@) =~= listing_of(rv, ev, i as int).unreachable.push(
                        root.path@,
                    ));
                    assert(listing.view() == listing_of(rv, ev, i as int + 1));
                }
            },
            Some(enumeration) => {
                if enumeration.complete {
                    listing.complete.push(root.path.clone());
                    proof {
                        assert(views(listing.complete@) =~= listing_of(rv, ev, i as int).complete.push(
                            root.path@,
                        ));
                    }
                } else {
                    listing.partial.push(root.path.clone());
                    proof {
                        assert(views(listing.partial@) =~= listing_of(rv, ev, i as int).partial.push(
                            root.path@,
                        ));
                    }
                }
                let ghost marked = listing.view();
                let files = &enumeration.files;
                let mut k: usize = 0;
                while k < files.len()
                    invariant
                        k <= files@.len(),
                        listing.view() == add_files(marked, views(files@).take(k as int), root.content_type@),
                    decreases files@.len() - k,
                {
                    let path = &files[k];
                    proof {
                        assert(views(files@).take(k as int + 1).drop_last() =~= views(files@).take(
                            k as int,
                        ));
                    }
                    if !contains_text(&listing.seen, path.as_str()) {
                        listing.seen.push(path.clone());
                        listing.found.push(Found { path: path.clone(), content_type: root.content_type });
                        proof {
                            let before = add_files(marked, views(files@).take(k as int), root.content_type@);
                            assert(views(listing.seen@) =~= before.seen.push(path@));
                            assert(listing.found@.map_values(|f: Found| (f.path@, f.content_type@))
                                =~= before.found.push((path@, root.content_type@)));
                        }
                    }
                    k = k + 1;
                }
                proof {
                    assert(views(files@).take(files@.len() as int) =~= views(files@));
                }
            },
        }
        i = i + 1;
    }
    listing
}

/// Some root's path contains `path`.
pub open spec fn under_any(path: Seq<char>, roots: Seq<Seq<char>>) -> bool {
    exists|i: int| 0 <= i < roots.len() && path_within(path, #[trigger] roots[i])
}

/// A present row whose file is gone: not listed, and either under a root
/// listed completely or under no configured root at all.
pub open spec fn is_gone(row: IndexRow, l: ListingView, roots: Seq<Seq<char>>) -> bool {
    &&& row.missing_since is None
    &&& !l.seen.contains(row.path@)
    &&& (!under_any(row.path@, roots) || under_any(row.path@, l.complete))
}

/// The rows of `index` that are gone, in order.
pub open spec fn gone_rows(index: Seq<IndexRow>, l: ListingView, roots: Seq<Seq<char>>) -> Seq<
    IndexRow,
>
    decreases index.len(),
{
    if index.len() == 0 {
        Seq::empty()
    } else {
        let before = gone_rows(index.drop_last(), l, roots);
        if is_gone(index.last(), l, roots) {
            before.push(index.last())
        } else {
            before
        }
    }
}

/// Whether some path of `roots` contains `path`.
pub fn within_any(path: &str, roots: &Vec<String>) -> (r: bool)
    ensures
        r == under_any(path@, views(roots@)),
{
    let mut i: usize = 0;
    while i < roots.len()
        invariant
            i <= roots@.len(),
            forall|j: int| 0 <= j < i ==> !path_within(path@, #[trigger] views(roots@)[j]),
        decreases roots@.len() - i,
    {
        if is_within(path, roots[i].as_str()) {
            assert(path_within(path@, views(roots@)[i as int]));
            return true;
        }
        i = i + 1;
    }
    false
}

/// The paths of `roots`.
pub open spec fn root_paths(roots: Seq<ScanRoot>) -> Seq<Seq<char>> {
    roots.map_values(|r: ScanRoot| r.path@)
}

/// Whether the path of some root of `roots` contains `path`.
pub fn within_any_root(path: &str, roots: &[ScanRoot]) -> (r: bool)
    ensures
        r == under_any(path@, root_paths(roots@)),
{
    let mut i: usize = 0;
    while i < roots.len()
        invariant
            i <= roots@.len(),
            forall|j: int| 0 <= j < i ==> !path_within(path@, #[trigger] root_paths(roots@)[j]),
        decreases roots@.len() - i,
    {
        if is_within(path, roots[i].path.as_str()) {
            assert(path_within(path@, root_paths(roots@)[i as int]));
            return true;
        }
        i = i + 1;
    }
    false
}

impl Listing {
    /// Present rows whose file is gone: not listed, and either under a root
    /// listed completely or under no configured root at all. Roots are matched
    /// by path component, so `/Music` does not contain `/Music2`.
    pub fn gone(&self, index: &[IndexRow], roots: &[ScanRoot]) -> (g: Vec<IndexRow>)
        ensures
            g@ == gone_rows(index@, self@, root_paths(roots@)),
    {
        let mut g: Vec<IndexRow> = Vec::new();
        let mut i: usize = 0;
        while i < index.len()
            invariant
                i <= index@.len(),
                g@ == gone_rows(index@.take(i as int), self@, root_paths(roots@)),
            decreases index@.len() - i,
        {
            let row = &index[i];
            proof {
                assert(index@.take(i as int + 1).drop_last() =~= index@.take(i as int));
            }
            if row.missing_since.is_none() && !contains_text(&self.seen, row.path.as_str()) {
                let configured = within_any_root(row.path.as_str(), roots);
                if !configured || within_any(row.path.as_str(), &self.complete) {
                    g.push(row.clone());
                }
            }
            i = i + 1;
        }
        proof {
            assert(index@.take(index@.len() as int) =~= index@);
        }
        g
    }
}

/// The ids of `rows`, in order.
pub open spec fn row_ids(rows: Seq<IndexRow>) -> Seq<i64> {
    rows.map_values(|r: IndexRow| r.id)
}

impl Listing {
    /// The ids of the present rows whose file is gone, in index order: what
    /// a scan marks missing.
    pub fn gone_ids(&self, index: &[IndexRow], roots: &[ScanRoot]) -> (ids: Vec<i64>)
        ensures
            ids@ == row_ids(gone_rows(index@, self@, root_paths(roots@))),
    {
        let g = self.gone(index, roots);
        let mut ids: Vec<i64> = Vec::new();
        let mut i: usize = 0;
        while i < g.len()
            invariant
                i <= g@.len(),
                ids@ == row_ids(g@.take(i as int)),
            decreases g@.len() - i,
        {
            proof {
                assert(row_ids(g@.take(i as int + 1)) =~= row_ids(g@.take(i as int)).push(g@[i as int].id));
            }
            ids.push(g[i].id);
            i = i + 1;
        }
        proof {
            assert(g@.take(g@.len() as int) =~= g@);
        }
        ids
    }
}

/// Every row that `gone_rows` reports is a row of the index.
pub proof fn lemma_gone_rows_come_from_the_index(index: Seq<IndexRow>, l: ListingView, roots: Seq<Seq<char>>, row: IndexRow)
    ensures
        gone_rows(index, l, roots).contains(row) ==> is_gone(row, l, roots) && index.contains(row),
    decreases index.len(),
{
    if index.len() > 0 {
        lemma_gone_rows_come_from_the_index(index.drop_last(), l, roots, row);
        let before = gone_rows(index.drop_last(), l, roots);
        if gone_rows(index, l, roots).contains(row) {
            if is_gone(index.last(), l, roots) {
                let k = choose|k: int| 0 <= k < before.push(index.last()).len() && before.push(index.last())[k] == row;
                if k < before.len() {
                    assert(before[k] == row);
                    assert(before.contains(row));
                    let j = choose|j: int| 0 <= j < index.drop_last().len() && index.drop_last()[j] == row;
                    assert(index[j] == row);
                } else {
                    assert(index[index.len() - 1] == row);
                }
            } else {
                let j = choose|j: int| 0 <= j < index.drop_last().len() && index.drop_last()[j] == row;
                assert(index[j] == row);
            }
        }
    }
}

/// The roots of one content type, in configured order.
pub open spec fn typed_roots(paths: Seq<Seq<char>>, ct: Seq<char>) -> Seq<(Seq<char>, Seq<char>)> {
    paths.map_values(|p: Seq<char>| (ct, p))
}

fn push_roots(out: &mut Vec<ScanRoot>, paths: &Vec<String>, content_type: &'static str)
    ensures
        root_views(final(out)@) == root_views(old(out)@) + typed_roots(views(paths@), content_type@),
{
    let mut i: usize = 0;
    let ghost start = root_views(out@);
    while i < paths.len()
        invariant
            i <= paths@.len(),
            root_views(out@) == start + typed_roots(views(paths@).take(i as int), content_type@),
        decreases paths@.len() - i,
    {
        let ghost prev = out@;
        let path = paths[i].clone();
        out.push(ScanRoot { content_type, path });
        proof {
            assert(root_views(out@) =~= root_views(prev).push((content_type@, paths@[i as int]@)));
            assert(views(paths@).take(i as int + 1) =~= views(paths@).take(i as int).push(paths@[i as int]@));
            assert(typed_roots(views(paths@).take(i as int + 1), content_type@) =~= typed_roots(
                views(paths@).take(i as int),
                content_type@,
            ).push((content_type@, paths@[i as int]@)));
            assert(root_views(out@) =~= start + typed_roots(views(paths@).take(i as int + 1), content_type@));
        }
        i = i + 1;
    }
    proof {
        assert(views(paths@).take(paths@.len() as int) =~= views(paths@));
    }
}

/// Every configured library path, music first, then commercials, then
/// jingles.
pub fn configured_roots(cfg: &AppConfig) -> (roots: Vec<ScanRoot>)
    ensures
        root_views(roots@) == typed_roots(views(cfg.music_paths@), "music"@) + typed_roots(
            views(cfg.commercial_paths@),
            "commercial"@,
        ) + typed_roots(views(cfg.jingle_paths@), "jingle"@),
{
    let mut roots: Vec<ScanRoot> = Vec::new();
    proof {
        assert(root_views(roots@) =~= Seq::<(Seq<char>, Seq<char>)>::empty());
    }
    push_roots(&mut roots, &cfg.music_paths, "music");
    push_roots(&mut roots, &cfg.commercial_paths, "commercial");
    push_roots(&mut roots, &cfg.jingle_paths, "jingle");
    proof {
        assert(root_views(roots@) =~= typed_roots(views(cfg.music_paths@), "music"@) + typed_roots(
            views(cfg.commercial_paths@),
            "commercial"@,
        ) + typed_roots(views(cfg.jingle_paths@), "jingle"@));
    }
    roots
}

/// The paths a listing found, in order.
pub open spec fn found_paths(l: ListingView) -> Seq<Seq<char>> {
    l.found.map_values(|f: (Seq<char>, Seq<char>)| f.0)
}

proof fn lemma_add_files_once(l: ListingView, files: Seq<Seq<char>>, ct: Seq<char>)
    requires
        l.seen.no_duplicates(),
        found_paths(l) == l.seen,
    ensures
        add_files(l, files, ct).seen.no_duplicates(),
        found_paths(add_files(l, files, ct)) == add_files(l, files, ct).seen,
        forall|i: int| 0 <= i < files.len() ==> add_files(l, files, ct).seen.contains(#[trigger] files[i]),
        forall|x: Seq<char>| l.seen.contains(x) ==> add_files(l, files, ct).seen.contains(x),
    decreases files.len(),
{
    if files.len() > 0 {
        let init = files.drop_last();
        lemma_add_files_once(l, init, ct);
        let before = add_files(l, init, ct);
        let f = files.last();
        if !before.seen.contains(f) {
            let after = add_files(l, files, ct);
            assert(after.seen == before.seen.push(f));
            assert(found_paths(after) =~= found_paths(before).push(f));
            assert forall|a: int, b: int| 0 <= a < b < after.seen.len() implies after.seen[a] != after.seen[b] by {
                if b == after.seen.len() - 1 {
                    assert(after.seen[a] == before.seen[a]);
                }
            }
            assert forall|x: Seq<char>| before.seen.contains(x) implies after.seen.contains(x) by {
                let w = choose|w: int| 0 <= w < before.seen.len() && before.seen[w] == x;
                assert(after.seen[w] == x);
            }
            assert(after.seen[after.seen.len() - 1] == f);
        }
        assert forall|i: int| 0 <= i < files.len() implies add_files(l, files, ct).seen.contains(#[trigger] files[i]) by {
            if i < files.len() - 1 {
                assert(init[i] == files[i]);
            }
        }
    }
}

/// A scan never reports gone a row whose file lies under a configured root
/// that was not listed completely (unreachable, or cut short): a root that
/// cannot be read loses none of its tracks.
pub proof fn a_row_under_no_completely_listed_root_is_never_gone(
    index: Seq<IndexRow>,
    l: ListingView,
    roots: Seq<Seq<char>>,
    row: IndexRow,
)
    requires
        under_any(row.path@, roots),
        !under_any(row.path@, l.complete),
    ensures
        !gone_rows(index, l, roots).contains(row),
{
    lemma_gone_rows_come_from_the_index(index, l, roots, row);
}

/// Every listed path is listed once, the found files are exactly the seen
/// paths in order, and a file under two roots is found under the first.
pub proof fn a_file_is_listed_once(
    roots: Seq<(Seq<char>, Seq<char>)>,
    listed: Seq<Option<(Seq<Seq<char>>, bool)>>,
    n: int,
)
    requires
        0 <= n <= roots.len(),
        n <= listed.len(),
    ensures
        listing_of(roots, listed, n).seen.no_duplicates(),
        found_paths(listing_of(roots, listed, n)) == listing_of(roots, listed, n).seen,
    decreases n,
{
    if n > 0 {
        a_file_is_listed_once(roots, listed, n - 1);
        let before = listing_of(roots, listed, n - 1);
        match listed[n - 1] {
            None => {},
            Some((files, complete)) => {
                let marked = if complete {
                    ListingView { complete: before.complete.push(roots[n - 1].1), ..before }
                } else {
                    ListingView { partial: before.partial.push(roots[n - 1].1), ..before }
                };
                lemma_add_files_once(marked, files, roots[n - 1].0);
            },
        }
    }
}

} // verus!
