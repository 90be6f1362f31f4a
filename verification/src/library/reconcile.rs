//! Stable track identity: how one scan's changes land on the library. Rows
//! come back, take new tags, go missing, and each new file either reattaches
//! to the track it was before it moved, starts as a copy of a twin already
//! present, or enters as a new track. Nothing is ever deleted.

use vstd::prelude::*;

use super::db::{opt_view, IndexRow, Reconciled};
use super::listing::{gone_rows, is_gone, lemma_gone_rows_come_from_the_index, row_ids, under_any, ListingView};
use crate::playlist::model::clone_opt_string;
use crate::text::same_text;

verus! {

/// A library row while a scan is applied: one that was stored before, or
/// the row written by arrival `j` of this scan (its upserts first, then its
/// new files), which is newer than every stored row.
#[derive(Clone, Copy, Debug, PartialEq, Eq, Structural)]
pub enum RowId {
    Stored(i64),
    Written(usize),
}

/// `a` was created before `b`: the order of `ORDER BY id`.
pub open spec fn id_before(a: RowId, b: RowId) -> bool {
    match (a, b) {
        (RowId::Stored(x), RowId::Stored(y)) => x < y,
        (RowId::Stored(_), RowId::Written(_)) => true,
        (RowId::Written(_), RowId::Stored(_)) => false,
        (RowId::Written(x), RowId::Written(y)) => x < y,
    }
}

fn id_before_exec(a: RowId, b: RowId) -> (r: bool)
    ensures
        r == id_before(a, b),
{
    match (a, b) {
        (RowId::Stored(x), RowId::Stored(y)) => x < y,
        (RowId::Stored(_), RowId::Written(_)) => true,
        (RowId::Written(_), RowId::Stored(_)) => false,
        (RowId::Written(x), RowId::Written(y)) => x < y,
    }
}

/// A file a scan writes: where it is, what root type it is under, and its
/// fingerprint when one was read.
#[derive(Clone, Debug, PartialEq)]
pub struct Arrival {
    pub path: String,
    pub content_type: String,
    pub fingerprint: Option<String>,
}

/// What happens to one new file.
#[derive(Clone, Copy, Debug, PartialEq, Eq, Structural)]
pub enum Placement {
    /// Written as a track of its own.
    Insert,
    /// Its missing twin takes it back: the row moves to the file's path.
    Reattach(RowId),
    /// Written as a new row that starts with a copy of this present twin's
    /// operator state.
    Duplicate(RowId),
}

/// What applying a scan does to each new file, and what it changed.
#[derive(Clone, Debug, PartialEq)]
pub struct ReconcilePlan {
    /// One placement per new file, in order.
    pub placements: Vec<Placement>,
    pub done: Reconciled,
}

/// A row as the plan follows it.
pub struct SlotView {
    pub id: RowId,
    pub path: Seq<char>,
    pub missing: Option<i64>,
    pub fp: Option<Seq<char>>,
}

#[derive(Debug)]
struct Slot {
    id: RowId,
    path: String,
    missing: Option<i64>,
    fp: Option<String>,
}

pub open spec fn row_slot(r: IndexRow) -> SlotView {
    SlotView { id: RowId::Stored(r.id), path: r.path@, missing: r.missing_since, fp: opt_view(r.fingerprint) }
}

/// The library's rows before the scan, in index order.
pub open spec fn slots_of(index: Seq<IndexRow>) -> Seq<SlotView> {
    index.map_values(|r: IndexRow| row_slot(r))
}

spec fn slot_view(x: Slot) -> SlotView {
    SlotView { id: x.id, path: x.path@, missing: x.missing, fp: opt_view(x.fp) }
}

spec fn slot_views(v: Seq<Slot>) -> Seq<SlotView> {
    v.map_values(|x: Slot| slot_view(x))
}

/// A file as plain values: its path and fingerprint.
pub open spec fn arrival_view(a: Arrival) -> (Seq<char>, Option<Seq<char>>) {
    (a.path@, opt_view(a.fingerprint))
}

pub open spec fn arrival_views(v: Seq<Arrival>) -> Seq<(Seq<char>, Option<Seq<char>>)> {
    v.map_values(|a: Arrival| arrival_view(a))
}

/// Rows whose file is back: no longer missing.
pub open spec fn revive_slot(x: SlotView, ids: Seq<i64>) -> SlotView {
    if x.id matches RowId::Stored(i) && ids.contains(i) {
        SlotView { missing: None, ..x }
    } else {
        x
    }
}

pub open spec fn revived(s: Seq<SlotView>, ids: Seq<i64>) -> Seq<SlotView> {
    s.map_values(|x: SlotView| revive_slot(x, ids))
}

/// Whether marking `ids` missing changes `x`: a stored, present row named.
pub open spec fn marks(x: SlotView, ids: Seq<i64>) -> bool {
    x.id matches RowId::Stored(i) && ids.contains(i) && x.missing is None
}

pub open spec fn mark_slot(x: SlotView, ids: Seq<i64>, now: i64) -> SlotView {
    if marks(x, ids) {
        SlotView { missing: Some(now), ..x }
    } else {
        x
    }
}

/// Present rows named by `ids` marked missing at `now`.
pub open spec fn marked(s: Seq<SlotView>, ids: Seq<i64>, now: i64) -> Seq<SlotView> {
    s.map_values(|x: SlotView| mark_slot(x, ids, now))
}

/// How many rows marking `ids` missing changes.
pub open spec fn marked_count(s: Seq<SlotView>, ids: Seq<i64>) -> nat
    decreases s.len(),
{
    if s.len() == 0 {
        0
    } else {
        marked_count(s.drop_last(), ids) + if marks(s.last(), ids) {
            1nat
        } else {
            0nat
        }
    }
}

/// The present row at `path`, if any: the first.
pub open spec fn present_at(s: Seq<SlotView>, path: Seq<char>) -> Option<int>
    decreases s.len(),
{
    if s.len() == 0 {
        None
    } else {
        match present_at(s.drop_last(), path) {
            Some(i) => Some(i),
            None => if s.last().missing is None && s.last().path == path {
                Some(s.len() - 1)
            } else {
                None
            },
        }
    }
}

/// Writing a file's tags by path, as the upsert does: the present row at the
/// path takes them (keeping its fingerprint when none was read), or arrival
/// `j` writes a new present row.
pub open spec fn write(s: Seq<SlotView>, path: Seq<char>, fp: Option<Seq<char>>, j: int) -> Seq<
    SlotView,
> {
    match present_at(s, path) {
        Some(i) => s.update(i, SlotView { fp: if fp is Some { fp } else { s[i].fp }, ..s[i] }),
        None => s.push(SlotView { id: RowId::Written(j as usize), path, missing: None, fp }),
    }
}

/// The upserts of a scan, in order, arrival `j` being the `j`-th.
pub open spec fn upserted(s: Seq<SlotView>, a: Seq<(Seq<char>, Option<Seq<char>>)>) -> Seq<SlotView>
    decreases a.len(),
{
    if a.len() == 0 {
        s
    } else {
        write(upserted(s, a.drop_last()), a.last().0, a.last().1, a.len() - 1)
    }
}

/// Whether `x` is a missing twin of fingerprint `fp`.
pub open spec fn missing_twin(x: SlotView, fp: Seq<char>) -> bool {
    x.missing is Some && x.fp == Some(fp)
}

/// `x` went missing after `y` (`ORDER BY missing_since DESC, id DESC`).
pub open spec fn newer_missing(x: SlotView, y: SlotView) -> bool {
    x.missing.unwrap() > y.missing.unwrap() || (x.missing.unwrap() == y.missing.unwrap() && id_before(
        y.id,
        x.id,
    ))
}

/// The most recently missing twin of `fp`, newest id first on a tie.
pub open spec fn newest_missing(s: Seq<SlotView>, fp: Seq<char>) -> Option<int>
    decreases s.len(),
{
    if s.len() == 0 {
        None
    } else {
        let b = newest_missing(s.drop_last(), fp);
        let k = s.len() - 1;
        if missing_twin(s[k], fp) && (b is None || newer_missing(s[k], s[b.unwrap()])) {
            Some(k)
        } else {
            b
        }
    }
}

/// Whether `x` is a present twin of fingerprint `fp`.
pub open spec fn present_twin(x: SlotView, fp: Seq<char>) -> bool {
    x.missing is None && x.fp == Some(fp)
}

/// The oldest present twin of `fp` (`ORDER BY id`).
pub open spec fn oldest_present(s: Seq<SlotView>, fp: Seq<char>) -> Option<int>
    decreases s.len(),
{
    if s.len() == 0 {
        None
    } else {
        let b = oldest_present(s.drop_last(), fp);
        let k = s.len() - 1;
        if present_twin(s[k], fp) && (b is None || id_before(s[k].id, s[b.unwrap()].id)) {
            Some(k)
        } else {
            b
        }
    }
}

/// Placing new file `a`, arrival `j`: without a fingerprint it is written;
/// with one, its most recently missing twin takes it back, else it is
/// written as a copy of its oldest present twin, else written plain.
pub open spec fn place(s: Seq<SlotView>, a: (Seq<char>, Option<Seq<char>>), j: int) -> (
    Seq<SlotView>,
    Placement,
) {
    match a.1 {
        None => (write(s, a.0, a.1, j), Placement::Insert),
        Some(f) => match newest_missing(s, f) {
            Some(i) => (
                s.update(i, SlotView { path: a.0, missing: None, ..s[i] }),
                Placement::Reattach(s[i].id),
            ),
            None => match oldest_present(s, f) {
                Some(i) => (write(s, a.0, a.1, j), Placement::Duplicate(s[i].id)),
                None => (write(s, a.0, a.1, j), Placement::Insert),
            },
        },
    }
}

/// The new files placed in order, the first being arrival `base`.
pub open spec fn placed(s: Seq<SlotView>, files: Seq<(Seq<char>, Option<Seq<char>>)>, base: int) -> (
    Seq<SlotView>,
    Seq<Placement>,
)
    decreases files.len(),
{
    if files.len() == 0 {
        (s, Seq::empty())
    } else {
        let (t, ps) = placed(s, files.drop_last(), base);
        let (u, p) = place(t, files.last(), base + files.len() - 1);
        (u, ps.push(p))
    }
}

/// How many placements of each kind: reattached, duplicated, inserted.
pub open spec fn tally(ps: Seq<Placement>) -> (nat, nat, nat)
    decreases ps.len(),
{
    if ps.len() == 0 {
        (0, 0, 0)
    } else {
        let (r, d, i) = tally(ps.drop_last());
        match ps.last() {
            Placement::Reattach(_) => (r + 1, d, i),
            Placement::Duplicate(_) => (r, d + 1, i),
            Placement::Insert => (r, d, i + 1),
        }
    }
}

/// The rows once revived rows are back, upserts are written, and the gone
/// and replaced rows are marked missing at `now`, in that order.
pub open spec fn before_new_files(
    index: Seq<IndexRow>,
    revive: Seq<i64>,
    upserts: Seq<Arrival>,
    gone: Seq<i64>,
    replaced: Seq<i64>,
    now: i64,
) -> Seq<SlotView> {
    marked(
        marked(upserted(revived(slots_of(index), revive), arrival_views(upserts)), gone, now),
        replaced,
        now,
    )
}

/// The rows once a whole scan is applied.
pub open spec fn reconciled_rows(
    index: Seq<IndexRow>,
    revive: Seq<i64>,
    upserts: Seq<Arrival>,
    gone: Seq<i64>,
    replaced: Seq<i64>,
    new_files: Seq<Arrival>,
    now: i64,
) -> Seq<SlotView> {
    placed(
        before_new_files(index, revive, upserts, gone, replaced, now),
        arrival_views(new_files),
        upserts.len() as int,
    ).0
}

// ----- executing the plan on a copy of the rows -----

fn contains_id(ids: &[i64], id: i64) -> (r: bool)
    ensures
        r == ids@.contains(id),
{
    let mut k: usize = 0;
    while k < ids.len()
        invariant
            k <= ids@.len(),
            forall|q: int| 0 <= q < k ==> ids@[q] != id,
        decreases ids@.len() - k,
    {
        if ids[k] == id {
            return true;
        }
        k = k + 1;
    }
    false
}

fn same_opt(a: &Option<String>, b: &Option<String>) -> (r: bool)
    ensures
        r == (opt_view(*a) == opt_view(*b)),
{
    match (a, b) {
        (Some(x), Some(y)) => same_text(x.as_str(), y.as_str()),
        (None, None) => true,
        _ => false,
    }
}

fn slots_from(index: &[IndexRow]) -> (v: Vec<Slot>)
    ensures
        slot_views(v@) == slots_of(index@),
{
    let mut v: Vec<Slot> = Vec::new();
    let mut k: usize = 0;
    while k < index.len()
        invariant
            k <= index@.len(),
            slot_views(v@) == slots_of(index@).take(k as int),
        decreases index@.len() - k,
    {
        let r = &index[k];
        let ghost prev = v@;
        proof {
            assert(slot_views(prev).len() == prev.len());
        }
        v.push(Slot { id: RowId::Stored(r.id), path: r.path.clone(), missing: r.missing_since, fp: clone_opt_string(&r.fingerprint) });
        proof {
            assert forall|q: int| 0 <= q < k + 1 implies #[trigger] slot_views(v@)[q] == slots_of(
                index@,
            ).take(k as int + 1)[q] by {
                if q < k {
                    assert(v@[q] == prev[q]);
                    assert(slot_views(prev)[q] == slots_of(index@).take(k as int)[q]);
                }
            }
            assert(slot_views(v@) =~= slots_of(index@).take(k as int + 1));
        }
        k = k + 1;
    }
    proof {
        assert(slots_of(index@).take(index@.len() as int) =~= slots_of(index@));
    }
    v
}

fn revive_slots(v: &mut Vec<Slot>, ids: &[i64])
    ensures
        slot_views(final(v)@) == revived(slot_views(old(v)@), ids@),
{
    let ghost want = revived(slot_views(old(v)@), ids@);
    let mut k: usize = 0;
    while k < v.len()
        invariant
            k <= v@.len(),
            v@.len() == old(v)@.len(),
            want == revived(slot_views(old(v)@), ids@),
            forall|q: int| 0 <= q < k ==> slot_view(#[trigger] v@[q]) == want[q],
            forall|q: int| k <= q < v@.len() ==> #[trigger] v@[q] == old(v)@[q],
        decreases v@.len() - k,
    {
        let hit = match v[k].id {
            RowId::Stored(i) => contains_id(ids, i),
            RowId::Written(_) => false,
        };
        if hit {
            let x = Slot { id: v[k].id, path: v[k].path.clone(), missing: None, fp: clone_opt_string(&v[k].fp) };
            v.set(k, x);
        }
        k = k + 1;
    }
    proof {
        assert(slot_views(v@) =~= want);
    }
}


fn mark_slots(v: &mut Vec<Slot>, ids: &[i64], now: i64) -> (n: usize)
    ensures
        slot_views(final(v)@) == marked(slot_views(old(v)@), ids@, now),
        n == marked_count(slot_views(old(v)@), ids@),
{
    let ghost start = slot_views(old(v)@);
    let ghost want = marked(start, ids@, now);
    let mut n: usize = 0;
    let mut k: usize = 0;
    while k < v.len()
        invariant
            k <= v@.len(),
            v@.len() == old(v)@.len(),
            start == slot_views(old(v)@),
            start.len() == v@.len(),
            want == marked(start, ids@, now),
            n <= k,
            n == marked_count(start.take(k as int), ids@),
            forall|q: int| 0 <= q < k ==> slot_view(#[trigger] v@[q]) == want[q],
            forall|q: int| k <= q < v@.len() ==> #[trigger] v@[q] == old(v)@[q],
        decreases v@.len() - k,
    {
        proof {
            assert(start.take(k as int + 1).drop_last() =~= start.take(k as int));
            assert(start[k as int] == slot_view(v@[k as int]));
        }
        let hit = match v[k].id {
            RowId::Stored(i) => contains_id(ids, i) && v[k].missing.is_none(),
            RowId::Written(_) => false,
        };
        if hit {
            let x = Slot { id: v[k].id, path: v[k].path.clone(), missing: Some(now), fp: clone_opt_string(&v[k].fp) };
            v.set(k, x);
            n = n + 1;
        }
        k = k + 1;
    }
    proof {
        assert(slot_views(v@) =~= want);
        assert(start.take(start.len() as int) =~= start);
    }
    n
}

fn present_at_exec(v: &Vec<Slot>, path: &String) -> (r: Option<usize>)
    ensures
        match r {
            Some(i) => i < v@.len() && present_at(slot_views(v@), path@) == Some(i as int),
            None => present_at(slot_views(v@), path@) is None,
        },
{
    let ghost sv = slot_views(v@);
    let mut found: Option<usize> = None;
    let mut k: usize = 0;
    while k < v.len()
        invariant
            k <= v@.len(),
            sv == slot_views(v@),
            sv.len() == v@.len(),
            match found {
                Some(i) => i < k && present_at(sv.take(k as int), path@) == Some(i as int),
                None => present_at(sv.take(k as int), path@) is None,
            },
        decreases v@.len() - k,
    {
        proof {
            assert(sv.take(k as int + 1).drop_last() =~= sv.take(k as int));
            assert(sv[k as int] == slot_view(v@[k as int]));
        }
        if found.is_none() && v[k].missing.is_none() && same_text(v[k].path.as_str(), path.as_str()) {
            found = Some(k);
        }
        k = k + 1;
    }
    proof {
        assert(sv.take(sv.len() as int) =~= sv);
    }
    found
}

fn write_slot(v: &mut Vec<Slot>, path: &String, fp: &Option<String>, j: usize)
    ensures
        slot_views(final(v)@) == write(slot_views(old(v)@), path@, opt_view(*fp), j as int),
{
    let ghost sv = slot_views(old(v)@);
    match present_at_exec(v, path) {
        Some(i) => {
            let keep = match fp {
                Some(_) => clone_opt_string(fp),
                None => clone_opt_string(&v[i].fp),
            };
            let x = Slot { id: v[i].id, path: v[i].path.clone(), missing: v[i].missing, fp: keep };
            v.set(i, x);
            proof {
                assert(slot_views(v@) =~= write(sv, path@, opt_view(*fp), j as int));
            }
        },
        None => {
            v.push(Slot { id: RowId::Written(j), path: path.clone(), missing: None, fp: clone_opt_string(fp) });
            proof {
                assert(slot_views(v@) =~= write(sv, path@, opt_view(*fp), j as int));
            }
        },
    }
}

fn newest_missing_exec(v: &Vec<Slot>, fp: &String) -> (r: Option<usize>)
    ensures
        match r {
            Some(i) => i < v@.len() && newest_missing(slot_views(v@), fp@) == Some(i as int),
            None => newest_missing(slot_views(v@), fp@) is None,
        },
{
    let ghost sv = slot_views(v@);
    let mut best: Option<usize> = None;
    let mut k: usize = 0;
    while k < v.len()
        invariant
            k <= v@.len(),
            sv == slot_views(v@),
            sv.len() == v@.len(),
            match best {
                Some(b) => b < k && newest_missing(sv.take(k as int), fp@) == Some(b as int)
                    && missing_twin(sv[b as int], fp@),
                None => newest_missing(sv.take(k as int), fp@) is None,
            },
        decreases v@.len() - k,
    {
        proof {
            assert(sv.take(k as int + 1).drop_last() =~= sv.take(k as int));
            assert(sv[k as int] == slot_view(v@[k as int]));
            if let Some(b) = best {
                assert(sv.take(k as int + 1)[b as int] == sv[b as int]);
            }
        }
        let twin = match (&v[k].missing, &v[k].fp) {
            (Some(_), Some(f)) => same_text(f.as_str(), fp.as_str()),
            _ => false,
        };
        if twin {
            let take = match best {
                None => true,
                Some(b) => {
                    let mk = match v[k].missing {
                        Some(m) => m,
                        None => 0,
                    };
                    let mb = match v[b].missing {
                        Some(m) => m,
                        None => 0,
                    };
                    mk > mb || (mk == mb && id_before_exec(v[b].id, v[k].id))
                },
            };
            if take {
                best = Some(k);
            }
        }
        k = k + 1;
    }
    proof {
        assert(sv.take(sv.len() as int) =~= sv);
    }
    best
}

fn oldest_present_exec(v: &Vec<Slot>, fp: &String) -> (r: Option<usize>)
    ensures
        match r {
            Some(i) => i < v@.len() && oldest_present(slot_views(v@), fp@) == Some(i as int),
            None => oldest_present(slot_views(v@), fp@) is None,
        },
{
    let ghost sv = slot_views(v@);
    let mut best: Option<usize> = None;
    let mut k: usize = 0;
    while k < v.len()
        invariant
            k <= v@.len(),
            sv == slot_views(v@),
            sv.len() == v@.len(),
            match best {
                Some(b) => b < k && oldest_present(sv.take(k as int), fp@) == Some(b as int),
                None => oldest_present(sv.take(k as int), fp@) is None,
            },
        decreases v@.len() - k,
    {
        proof {
            assert(sv.take(k as int + 1).drop_last() =~= sv.take(k as int));
            assert(sv[k as int] == slot_view(v@[k as int]));
            if let Some(b) = best {
                assert(sv.take(k as int + 1)[b as int] == sv[b as int]);
            }
        }
        let twin = v[k].missing.is_none() && match &v[k].fp {
            Some(f) => same_text(f.as_str(), fp.as_str()),
            None => false,
        };
        if twin {
            let take = match best {
                None => true,
                Some(b) => id_before_exec(v[k].id, v[b].id),
            };
            if take {
                best = Some(k);
            }
        }
        k = k + 1;
    }
    proof {
        assert(sv.take(sv.len() as int) =~= sv);
    }
    best
}

fn place_file(v: &mut Vec<Slot>, a: &Arrival, j: usize) -> (p: Placement)
    ensures
        (slot_views(final(v)@), p) == place(slot_views(old(v)@), arrival_view(*a), j as int),
{
    let ghost sv = slot_views(old(v)@);
    match &a.fingerprint {
        None => {
            write_slot(v, &a.path, &a.fingerprint, j);
            Placement::Insert
        },
        Some(f) => match newest_missing_exec(v, f) {
            Some(i) => {
                let id = v[i].id;
                let x = Slot { id, path: a.path.clone(), missing: None, fp: clone_opt_string(&v[i].fp) };
                v.set(i, x);
                proof {
                    assert(slot_views(v@) =~= sv.update(i as int, SlotView { path: a.path@, missing: None, ..sv[i as int] }));
                }
                Placement::Reattach(id)
            },
            None => match oldest_present_exec(v, f) {
                Some(i) => {
                    let id = v[i].id;
                    write_slot(v, &a.path, &a.fingerprint, j);
                    Placement::Duplicate(id)
                },
                None => {
                    write_slot(v, &a.path, &a.fingerprint, j);
                    Placement::Insert
                },
            },
        },
    }
}

/// What applying a scan does: `revive` rows come back, `upserts` are
/// written by path, `gone` and then `replaced` rows are marked missing at
/// `now_ms`, and each of `new_files` is placed in turn against the rows as
/// they stand by then (see [`place`]). `index` is the library before.
pub fn reconcile_plan(
    index: &[IndexRow],
    revive: &[i64],
    upserts: &[Arrival],
    gone: &[i64],
    replaced: &[i64],
    new_files: &[Arrival],
    now_ms: i64,
) -> (p: ReconcilePlan)
    requires
        upserts@.len() + new_files@.len() <= usize::MAX,
    ensures
        p.placements@ == placed(
            before_new_files(index@, revive@, upserts@, gone@, replaced@, now_ms),
            arrival_views(new_files@),
            upserts@.len() as int,
        ).1,
        p.done.missing == marked_count(
            upserted(revived(slots_of(index@), revive@), arrival_views(upserts@)),
            gone@,
        ),
        p.done.replaced == marked_count(
            marked(
                upserted(revived(slots_of(index@), revive@), arrival_views(upserts@)),
                gone@,
                now_ms,
            ),
            replaced@,
        ),
        tally(p.placements@) == (
            p.done.reattached as nat,
            p.done.duplicated as nat,
            p.done.inserted as nat,
        ),
{
    let mut v = slots_from(index);
    revive_slots(&mut v, revive);
    let ghost s1 = slot_views(v@);
    let ghost av = arrival_views(upserts@);
    let mut u: usize = 0;
    while u < upserts.len()
        invariant
            u <= upserts@.len(),
            av == arrival_views(upserts@),
            slot_views(v@) == upserted(s1, av.take(u as int)),
        decreases upserts@.len() - u,
    {
        write_slot(&mut v, &upserts[u].path, &upserts[u].fingerprint, u);
        proof {
            assert(av.take(u as int + 1).drop_last() =~= av.take(u as int));
            assert(av.take(u as int + 1).last() == arrival_view(upserts@[u as int]));
        }
        u = u + 1;
    }
    proof {
        assert(av.take(av.len() as int) =~= av);
    }
    let missing = mark_slots(&mut v, gone, now_ms);
    let replaced_n = mark_slots(&mut v, replaced, now_ms);
    let ghost s4 = slot_views(v@);
    let ghost fv = arrival_views(new_files@);
    let base = upserts.len();
    let mut placements: Vec<Placement> = Vec::new();
    let mut reattached: usize = 0;
    let mut duplicated: usize = 0;
    let mut inserted: usize = 0;
    let mut k: usize = 0;
    while k < new_files.len()
        invariant
            k <= new_files@.len(),
            base == upserts@.len(),
            base + new_files@.len() <= usize::MAX,
            fv == arrival_views(new_files@),
            (slot_views(v@), placements@) == placed(s4, fv.take(k as int), base as int),
            tally(placements@) == (reattached as nat, duplicated as nat, inserted as nat),
            reattached + duplicated + inserted == k,
        decreases new_files@.len() - k,
    {
        let p = place_file(&mut v, &new_files[k], base + k);
        proof {
            assert(fv.take(k as int + 1).drop_last() =~= fv.take(k as int));
            assert(fv.take(k as int + 1).last() == arrival_view(new_files@[k as int]));
        }
        let ghost before = placements@;
        placements.push(p);
        proof {
            assert(placements@.drop_last() =~= before);
        }
        match p {
            Placement::Reattach(_) => reattached = reattached + 1,
            Placement::Duplicate(_) => duplicated = duplicated + 1,
            Placement::Insert => inserted = inserted + 1,
        }
        k = k + 1;
    }
    proof {
        assert(fv.take(fv.len() as int) =~= fv);
    }
    ReconcilePlan {
        placements,
        done: Reconciled { missing, reattached, duplicated, inserted, replaced: replaced_n },
    }
}


/// `b` still holds every row of `a`, in place, under the same id.
pub open spec fn keeps_rows(a: Seq<SlotView>, b: Seq<SlotView>) -> bool {
    a.len() <= b.len() && forall|i: int| 0 <= i < a.len() ==> #[trigger] b[i].id == a[i].id
}

proof fn lemma_found_in_range(s: Seq<SlotView>, path: Seq<char>, fp: Seq<char>)
    ensures
        present_at(s, path) matches Some(i) ==> 0 <= i < s.len(),
        newest_missing(s, fp) matches Some(i) ==> 0 <= i < s.len(),
        oldest_present(s, fp) matches Some(i) ==> 0 <= i < s.len(),
    decreases s.len(),
{
    if s.len() > 0 {
        lemma_found_in_range(s.drop_last(), path, fp);
    }
}

proof fn lemma_write_keeps(s: Seq<SlotView>, path: Seq<char>, fp: Option<Seq<char>>, j: int)
    ensures
        keeps_rows(s, write(s, path, fp, j)),
{
    lemma_found_in_range(s, path, Seq::empty());
}

proof fn lemma_upserted_keeps(s: Seq<SlotView>, a: Seq<(Seq<char>, Option<Seq<char>>)>)
    ensures
        keeps_rows(s, upserted(s, a)),
    decreases a.len(),
{
    if a.len() > 0 {
        lemma_upserted_keeps(s, a.drop_last());
        let t = upserted(s, a.drop_last());
        lemma_write_keeps(t, a.last().0, a.last().1, a.len() - 1);
    }
}

proof fn lemma_placed_keeps(s: Seq<SlotView>, files: Seq<(Seq<char>, Option<Seq<char>>)>, base: int)
    ensures
        keeps_rows(s, placed(s, files, base).0),
    decreases files.len(),
{
    if files.len() > 0 {
        lemma_placed_keeps(s, files.drop_last(), base);
        let t = placed(s, files.drop_last(), base).0;
        let a = files.last();
        let j = base + files.len() - 1;
        lemma_write_keeps(t, a.0, a.1, j);
        if let Some(f) = a.1 {
            lemma_found_in_range(t, a.0, f);
        }
    }
}

/// Applying a scan deletes no row: every row the library held before is
/// still there, in place and under its id, whatever was revived, written,
/// marked missing or placed.
pub proof fn reconciling_deletes_no_row(
    index: Seq<IndexRow>,
    revive: Seq<i64>,
    upserts: Seq<Arrival>,
    gone: Seq<i64>,
    replaced: Seq<i64>,
    new_files: Seq<Arrival>,
    now: i64,
)
    ensures
        ({
            let out = reconciled_rows(index, revive, upserts, gone, replaced, new_files, now);
            &&& out.len() >= index.len()
            &&& forall|i: int| 0 <= i < index.len() ==> #[trigger] out[i].id == RowId::Stored(index[i].id)
        }),
{
    let s0 = slots_of(index);
    let s1 = revived(s0, revive);
    let s2 = upserted(s1, arrival_views(upserts));
    let s3 = marked(s2, gone, now);
    let s4 = marked(s3, replaced, now);
    assert(keeps_rows(s0, s1));
    lemma_upserted_keeps(s1, arrival_views(upserts));
    assert(keeps_rows(s2, s3));
    assert(keeps_rows(s3, s4));
    lemma_placed_keeps(s4, arrival_views(new_files), upserts.len() as int);
    let out = placed(s4, arrival_views(new_files), upserts.len() as int).0;
    assert forall|i: int| 0 <= i < index.len() implies #[trigger] out[i].id == RowId::Stored(
        index[i].id,
    ) by {
        assert(s0[i].id == RowId::Stored(index[i].id));
        assert(s1[i].id == s0[i].id);
        assert(s2[i].id == s1[i].id);
        assert(s3[i].id == s2[i].id);
        assert(s4[i].id == s3[i].id);
        assert(out[i].id == s4[i].id);
    }
}

/// Every row of `a` that is present is still present in `b`.
pub open spec fn keeps_present(a: Seq<SlotView>, b: Seq<SlotView>) -> bool {
    a.len() <= b.len() && forall|i: int| 0 <= i < a.len() && (#[trigger] a[i]).missing is None ==> b[i].missing is None
}

proof fn lemma_write_keeps_present(s: Seq<SlotView>, path: Seq<char>, fp: Option<Seq<char>>, j: int)
    ensures
        keeps_present(s, write(s, path, fp, j)),
{
    lemma_found_in_range(s, path, Seq::empty());
}

proof fn lemma_upserted_keeps_present(s: Seq<SlotView>, a: Seq<(Seq<char>, Option<Seq<char>>)>)
    ensures
        keeps_present(s, upserted(s, a)),
    decreases a.len(),
{
    if a.len() > 0 {
        lemma_upserted_keeps_present(s, a.drop_last());
        let t = upserted(s, a.drop_last());
        lemma_write_keeps_present(t, a.last().0, a.last().1, a.len() - 1);
    }
}

proof fn lemma_placed_keeps_present(s: Seq<SlotView>, files: Seq<(Seq<char>, Option<Seq<char>>)>, base: int)
    ensures
        keeps_present(s, placed(s, files, base).0),
    decreases files.len(),
{
    if files.len() > 0 {
        lemma_placed_keeps_present(s, files.drop_last(), base);
        let t = placed(s, files.drop_last(), base).0;
        let a = files.last();
        let j = base + files.len() - 1;
        lemma_write_keeps_present(t, a.0, a.1, j);
        if let Some(f) = a.1 {
            lemma_found_in_range(t, a.0, f);
        }
    }
}

/// A scan marks missing only the rows it names gone or replaced: every
/// other present row is still present once the scan is applied, whatever
/// files arrived.
pub proof fn a_row_not_named_missing_stays_present(
    index: Seq<IndexRow>,
    revive: Seq<i64>,
    upserts: Seq<Arrival>,
    gone: Seq<i64>,
    replaced: Seq<i64>,
    new_files: Seq<Arrival>,
    now: i64,
    k: int,
)
    requires
        0 <= k < index.len(),
        index[k].missing_since is None,
        !gone.contains(index[k].id),
        !replaced.contains(index[k].id),
    ensures
        reconciled_rows(index, revive, upserts, gone, replaced, new_files, now)[k].missing is None,
{
    let s0 = slots_of(index);
    let s1 = revived(s0, revive);
    let s2 = upserted(s1, arrival_views(upserts));
    let s3 = marked(s2, gone, now);
    let s4 = marked(s3, replaced, now);
    assert(s0[k].missing is None);
    assert(s1[k].missing is None);
    lemma_upserted_keeps(s1, arrival_views(upserts));
    lemma_upserted_keeps_present(s1, arrival_views(upserts));
    assert(s2[k].missing is None);
    assert(s2[k].id == RowId::Stored(index[k].id)) by {
        assert(s1[k].id == s0[k].id);
    }
    assert(!marks(s2[k], gone));
    assert(s3[k] == s2[k]);
    assert(!marks(s3[k], replaced));
    assert(s4[k] == s3[k]);
    lemma_placed_keeps_present(s4, arrival_views(new_files), upserts.len() as int);
}

/// A scan leaves present every track under a configured root that could not
/// be listed completely (unreachable, or cut short), as long as the scan did
/// not replace its file: the rows it marks missing are the gone rows of its
/// listing, and those are never under such a root. Track ids are unique, as
/// the table's key makes them.
pub proof fn a_track_under_an_unlisted_root_stays_present(
    index: Seq<IndexRow>,
    l: ListingView,
    roots: Seq<Seq<char>>,
    revive: Seq<i64>,
    upserts: Seq<Arrival>,
    replaced: Seq<i64>,
    new_files: Seq<Arrival>,
    now: i64,
    k: int,
)
    requires
        forall|i: int, j: int| 0 <= i < j < index.len() ==> index[i].id != index[j].id,
        0 <= k < index.len(),
        index[k].missing_since is None,
        under_any(index[k].path@, roots),
        !under_any(index[k].path@, l.complete),
        !replaced.contains(index[k].id),
    ensures
        reconciled_rows(index, revive, upserts, row_ids(gone_rows(index, l, roots)), replaced, new_files, now)[k].missing
            is None,
{
    let g = gone_rows(index, l, roots);
    if row_ids(g).contains(index[k].id) {
        let m = choose|m: int| 0 <= m < row_ids(g).len() && row_ids(g)[m] == index[k].id;
        let row = g[m];
        assert(g.contains(row));
        lemma_gone_rows_come_from_the_index(index, l, roots, row);
        let j = choose|j: int| 0 <= j < index.len() && index[j] == row;
        assert(index[j].id == index[k].id);
        assert(j == k);
        assert(!is_gone(index[k], l, roots));
    }
    a_row_not_named_missing_stays_present(index, revive, upserts, row_ids(g), replaced, new_files, now, k);
}

/// A new file whose fingerprint has a missing twin goes back to the twin
/// that went missing last, newest id first on a tie, and never to a row
/// that is present.
pub proof fn a_moved_file_reattaches_to_its_newest_missing_twin(
    s: Seq<SlotView>,
    a: (Seq<char>, Option<Seq<char>>),
    j: int,
)
    requires
        a.1 is Some,
        newest_missing(s, a.1.unwrap()) is Some,
    ensures
        ({
            let i = newest_missing(s, a.1.unwrap()).unwrap();
            &&& place(s, a, j).1 == Placement::Reattach(s[i].id)
            &&& s[i].missing is Some
            &&& s[i].fp == a.1
            &&& forall|k: int|
                0 <= k < s.len() && #[trigger] missing_twin(s[k], a.1.unwrap()) ==> !newer_missing(
                    s[k],
                    s[i],
                )
        }),
{
    lemma_newest_is_newest(s, a.1.unwrap());
}

proof fn lemma_newest_is_newest(s: Seq<SlotView>, fp: Seq<char>)
    ensures
        newest_missing(s, fp) matches Some(i) ==> {
            &&& 0 <= i < s.len()
            &&& missing_twin(s[i], fp)
            &&& forall|k: int| 0 <= k < s.len() && #[trigger] missing_twin(s[k], fp) ==> !newer_missing(s[k], s[i])
        },
        newest_missing(s, fp) is None ==> forall|k: int| 0 <= k < s.len() ==> !#[trigger] missing_twin(s[k], fp),
    decreases s.len(),
{
    if s.len() > 0 {
        let p = s.drop_last();
        lemma_newest_is_newest(p, fp);
        let last = s.len() - 1;
        assert forall|k: int| 0 <= k < p.len() implies #[trigger] p[k] == s[k] by {}
        let b = newest_missing(p, fp);
        if missing_twin(s[last], fp) && (b is None || newer_missing(s[last], s[b.unwrap()])) {
            assert forall|k: int| 0 <= k < s.len() && #[trigger] missing_twin(s[k], fp) implies !newer_missing(
                s[k],
                s[last],
            ) by {
                if k < last {
                    let bi = b.unwrap();
                    assert(missing_twin(p[k], fp));
                    assert(!newer_missing(p[k], p[bi]));
                }
            }
        } else if b is Some {
            let bi = b.unwrap();
            assert forall|k: int| 0 <= k < s.len() && #[trigger] missing_twin(s[k], fp) implies !newer_missing(
                s[k],
                s[bi],
            ) by {
                if k < last {
                    assert(missing_twin(p[k], fp));
                }
            }
        } else {
            assert forall|k: int| 0 <= k < s.len() implies !#[trigger] missing_twin(s[k], fp) by {
                if k < last {
                    assert(!missing_twin(p[k], fp));
                }
            }
        }
    }
}

} // verus!
