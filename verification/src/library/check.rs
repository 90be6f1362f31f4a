//! The library check: what the next scan would change, found by listing and
//! stat alone. It never reads tags or audio and never writes to the library.

use vstd::prelude::*;

use super::db::IndexRow;
use super::scan_state::ScanStatus;
use super::scanner::{spec_plan, Plan};
use super::listing::{
    gone_rows, root_paths, spec_should_rescan, under_any, within_any_root, Found, Listing,
    ListingView, ScanRoot,
};
use crate::persist::config::copy_strings;
use crate::text::{sort_texts, sorted_text, views};

verus! {

/// What a check found.
#[derive(Clone, Debug, Default, PartialEq, Hash)]
pub struct CheckReport {
    pub checked_at: i64,
    /// Listed files no present track has.
    pub new: Vec<String>,
    /// Present tracks whose file's mtime or root changed.
    pub changed: Vec<String>,
    /// Present tracks under a completely listed root whose file is gone.
    pub gone: Vec<String>,
    /// Present tracks no configured library path contains any more.
    pub unrooted: Vec<String>,
    /// Library paths that are not a readable directory.
    pub unreachable: Vec<String>,
    /// Library paths listed with unreadable parts.
    pub partial: Vec<String>,
}

/// What `DefaultHasher` makes of a report's derived `Hash`, field by field in
/// declaration order.
pub uninterp spec fn report_digest(
    checked_at: i64,
    new: Seq<Seq<char>>,
    changed: Seq<Seq<char>>,
    gone: Seq<Seq<char>>,
    unrooted: Seq<Seq<char>>,
    unreachable: Seq<Seq<char>>,
    partial: Seq<Seq<char>>,
) -> u64;

/// The hash of a report under a fresh `DefaultHasher` (`BuildHasher::hash_one`).
#[verifier::external_body]
fn digest(r: &CheckReport) -> (h: u64)
    ensures
        h == report_digest(
            r.checked_at,
            views(r.new@),
            views(r.changed@),
            views(r.gone@),
            views(r.unrooted@),
            views(r.unreachable@),
            views(r.partial@),
        ),
{
    std::hash::BuildHasher::hash_one(
        &std::hash::BuildHasherDefault::<std::collections::hash_map::DefaultHasher>::default(),
        r,
    )
}

/// The signature of a report: its digest with the time of the check zeroed.
pub open spec fn spec_signature(r: CheckReport) -> u64 {
    report_digest(
        0,
        views(r.new@),
        views(r.changed@),
        views(r.gone@),
        views(r.unrooted@),
        views(r.unreachable@),
        views(r.partial@),
    )
}

impl CheckReport {
    /// Whether the next scan would change the library.
    pub open spec fn spec_has_changes(&self) -> bool {
        !(self.new@.len() == 0 && self.changed@.len() == 0 && self.gone@.len() == 0
            && self.unrooted@.len() == 0)
    }

    pub fn has_changes(&self) -> (r: bool)
        ensures
            r == self.spec_has_changes(),
    {
        !(self.new.len() == 0 && self.changed.len() == 0 && self.gone.len() == 0
            && self.unrooted.len() == 0)
    }

    /// Identifies what was found, not when.
    pub fn signature(&self) -> (s: u64)
        ensures
            s == spec_signature(*self),
    {
        let copy = CheckReport {
            checked_at: 0,
            new: copy_strings(&self.new),
            changed: copy_strings(&self.changed),
            gone: copy_strings(&self.gone),
            unrooted: copy_strings(&self.unrooted),
            unreachable: copy_strings(&self.unreachable),
            partial: copy_strings(&self.partial),
        };
        digest(&copy)
    }
}

/// Two reports that found the same things have the same signature, whenever
/// each check ran.
pub proof fn signature_ignores_when_the_check_ran(a: CheckReport, b: CheckReport)
    requires
        views(a.new@) == views(b.new@),
        views(a.changed@) == views(b.changed@),
        views(a.gone@) == views(b.gone@),
        views(a.unrooted@) == views(b.unrooted@),
        views(a.unreachable@) == views(b.unreachable@),
        views(a.partial@) == views(b.partial@),
    ensures
        spec_signature(a) == spec_signature(b),
{
}

/// The present row of `index` at `path`, if any: the first row at that path
/// that is not marked missing.
pub open spec fn present_row(index: Seq<IndexRow>, path: Seq<char>) -> Option<IndexRow>
    decreases index.len(),
{
    if index.len() == 0 {
        None
    } else {
        let r = index[0];
        if r.missing_since is None && r.path@ == path {
            Some(r)
        } else {
            present_row(index.drop_first(), path)
        }
    }
}

/// The listed files no present row has, in listing order.
pub open spec fn new_files(found: Seq<(Seq<char>, Seq<char>)>, index: Seq<IndexRow>) -> Seq<
    Seq<char>,
>
    decreases found.len(),
{
    if found.len() == 0 {
        Seq::empty()
    } else {
        let before = new_files(found.drop_last(), index);
        if present_row(index, found.last().0) is None {
            before.push(found.last().0)
        } else {
            before
        }
    }
}

/// The listed files whose present row is out of date for the file's mtime,
/// in listing order. `mtimes[i]` is the mtime read for file `i`.
pub open spec fn changed_files(
    found: Seq<(Seq<char>, Seq<char>)>,
    index: Seq<IndexRow>,
    mtimes: Seq<i64>,
) -> Seq<Seq<char>>
    decreases found.len(),
{
    if found.len() == 0 {
        Seq::empty()
    } else {
        let before = changed_files(found.drop_last(), index, mtimes.drop_last());
        let (path, ct) = found.last();
        match present_row(index, path) {
            Some(row) => if spec_should_rescan(Some(row.content_type@), row.mtime, mtimes.last(), ct) {
                before.push(path)
            } else {
                before
            },
            None => before,
        }
    }
}

/// The paths of the gone rows a configured root contains (`under` true) or
/// that no configured root contains (`under` false), in index order.
pub open spec fn gone_paths(rows: Seq<IndexRow>, roots: Seq<Seq<char>>, under: bool) -> Seq<
    Seq<char>,
>
    decreases rows.len(),
{
    if rows.len() == 0 {
        Seq::empty()
    } else {
        let before = gone_paths(rows.drop_last(), roots, under);
        if under_any(rows.last().path@, roots) == under {
            before.push(rows.last().path@)
        } else {
            before
        }
    }
}

/// `report` is what a check of `l` against `index` finds, given the mtimes
/// read for the listed files, and stamped `checked_at`.
pub open spec fn reports(
    report: CheckReport,
    l: ListingView,
    index: Seq<IndexRow>,
    roots: Seq<Seq<char>>,
    mtimes: Seq<i64>,
    checked_at: i64,
) -> bool {
    let gone = gone_rows(index, l, roots);
    &&& report.checked_at == checked_at
    &&& views(report.new@).to_multiset() == new_files(l.found, index).to_multiset()
    &&& sorted_text(views(report.new@))
    &&& views(report.changed@).to_multiset() == changed_files(l.found, index, mtimes).to_multiset()
    &&& sorted_text(views(report.changed@))
    &&& views(report.gone@).to_multiset() == gone_paths(gone, roots, true).to_multiset()
    &&& sorted_text(views(report.gone@))
    &&& views(report.unrooted@).to_multiset() == gone_paths(gone, roots, false).to_multiset()
    &&& sorted_text(views(report.unrooted@))
    &&& views(report.unreachable@) == l.unreachable
    &&& views(report.partial@) == l.partial
}

/// `mtimes` holds, for each listed file the library has, a time `mtime_of`
/// may return for it.
pub open spec fn mtimes_read<M: Fn(&Found) -> i64>(
    mtime_of: M,
    found: Seq<Found>,
    index: Seq<IndexRow>,
    mtimes: Seq<i64>,
) -> bool {
    &&& mtimes.len() == found.len()
    &&& forall|i: int|
        0 <= i < found.len() && present_row(index, found[i].path@) is Some ==> call_ensures(
            mtime_of,
            (&found[i],),
            #[trigger] mtimes[i],
        )
}

/// The present row at `path`.
pub fn find_present(index: &[IndexRow], path: &String) -> (r: Option<usize>)
    ensures
        match r {
            Some(i) => i < index@.len() && present_row(index@, path@) == Some(index@[i as int]),
            None => present_row(index@, path@) is None,
        },
{
    let mut i: usize = 0;
    proof {
        assert(index@.skip(0) =~= index@);
    }
    while i < index.len()
        invariant
            i <= index@.len(),
            present_row(index@, path@) == present_row(index@.skip(i as int), path@),
        decreases index@.len() - i,
    {
        proof {
            assert(index@.skip(i as int).drop_first() =~= index@.skip(i as int + 1));
        }
        if index[i].missing_since.is_none() && index[i].path == *path {
            return Some(i);
        }
        i = i + 1;
    }
    None
}

fn push_path(v: &mut Vec<String>, p: &String)
    ensures
        views(final(v)@) == views(old(v)@).push(p@),
{
    v.push(p.clone());
    proof {
        assert(views(final(v)@) =~= views(old(v)@).push(p@));
    }
}

/// Compare the disk, as `listing` found it, with the library rows in
/// `index`. `mtime_of` reads a listed file's modification time and is asked
/// only for files the library holds; `cancel` is polled before each file, and
/// a check it cancels reports nothing.
pub fn check<C: Fn() -> bool, M: Fn(&Found) -> i64>(
    listing: &Listing,
    index: &[IndexRow],
    roots: &[ScanRoot],
    checked_at: i64,
    cancel: C,
    mtime_of: M,
) -> (r: Option<CheckReport>)
    requires
        call_requires(cancel, ()),
        forall|i: int| 0 <= i < listing.found@.len() ==> call_requires(mtime_of, (&listing.found@[i],)),
    ensures
        r is None ==> call_ensures(cancel, (), true),
        listing.found@.len() > 0 && (forall|b: bool| #[trigger] call_ensures(cancel, (), b) ==> b)
            ==> r is None,
        r matches Some(report) ==> exists|mtimes: Seq<i64>|
            #[trigger] mtimes_read(mtime_of, listing.found@, index@, mtimes) && reports(
                report,
                listing@,
                index@,
                root_paths(roots@),
                mtimes,
                checked_at,
            ),
{
    let mut new: Vec<String> = Vec::new();
    let mut changed: Vec<String> = Vec::new();
    let ghost mut mtimes: Seq<i64> = Seq::empty();
    let ghost found = listing@.found;
    let mut i: usize = 0;
    while i < listing.found.len()
        invariant
            i <= listing.found@.len(),
            found == listing@.found,
            found.len() == listing.found@.len(),
            call_requires(cancel, ()),
            forall|k: int| 0 <= k < listing.found@.len() ==> call_requires(mtime_of, (&listing.found@[k],)),
            mtimes.len() == i,
            i > 0 ==> call_ensures(cancel, (), false),
            forall|k: int|
                0 <= k < i && present_row(index@, listing.found@[k].path@) is Some ==> call_ensures(
                    mtime_of,
                    (&listing.found@[k],),
                    #[trigger] mtimes[k],
                ),
            views(new@) == new_files(found.take(i as int), index@),
            views(changed@) == changed_files(found.take(i as int), index@, mtimes),
        decreases listing.found@.len() - i,
    {
        let stop = cancel();
        if stop {
            return None;
        }
        let file = &listing.found[i];
        proof {
            assert(found.take(i as int + 1).drop_last() =~= found.take(i as int));
            assert(found[i as int] == (file.path@, file.content_type@));
        }
        let ghost mut m: i64 = 0;
        match find_present(index, &file.path) {
            None => {
                push_path(&mut new, &file.path);
            },
            Some(k) => {
                let mtime = mtime_of(file);
                proof {
                    m = mtime;
                }
                if file.changed(&index[k], mtime) {
                    push_path(&mut changed, &file.path);
                }
            },
        }
        proof {
            assert(mtimes.push(m).drop_last() =~= mtimes);
            mtimes = mtimes.push(m);
        }
        i = i + 1;
    }
    proof {
        assert(found.take(found.len() as int) =~= found);
    }
    let gone_list = listing.gone(index, roots);
    let mut gone: Vec<String> = Vec::new();
    let mut unrooted: Vec<String> = Vec::new();
    let mut j: usize = 0;
    while j < gone_list.len()
        invariant
            j <= gone_list@.len(),
            views(gone@) == gone_paths(gone_list@.take(j as int), root_paths(roots@), true),
            views(unrooted@) == gone_paths(gone_list@.take(j as int), root_paths(roots@), false),
        decreases gone_list@.len() - j,
    {
        let row = &gone_list[j];
        proof {
            assert(gone_list@.take(j as int + 1).drop_last() =~= gone_list@.take(j as int));
        }
        if within_any_root(row.path.as_str(), roots) {
            push_path(&mut gone, &row.path);
        } else {
            push_path(&mut unrooted, &row.path);
        }
        j = j + 1;
    }
    proof {
        assert(gone_list@.take(gone_list@.len() as int) =~= gone_list@);
    }
    sort_texts(&mut new);
    sort_texts(&mut changed);
    sort_texts(&mut gone);
    sort_texts(&mut unrooted);
    let report = CheckReport {
        checked_at,
        new,
        changed,
        gone,
        unrooted,
        unreachable: copy_strings(&listing.unreachable),
        partial: copy_strings(&listing.partial),
    };
    proof {
        assert(reports(report, listing@, index@, root_paths(roots@), mtimes, checked_at));
        assert(mtimes_read(mtime_of, listing.found@, index@, mtimes));
    }
    Some(report)
}

proof fn lemma_new_files_contains(found: Seq<(Seq<char>, Seq<char>)>, index: Seq<IndexRow>, p: Seq<char>)
    ensures
        new_files(found, index).contains(p) <==> (present_row(index, p) is None && exists|i: int|
            0 <= i < found.len() && (#[trigger] found[i]).0 == p),
    decreases found.len(),
{
    if found.len() > 0 {
        let init = found.drop_last();
        lemma_new_files_contains(init, index, p);
        let before = new_files(init, index);
        let after = new_files(found, index);
        if after.contains(p) && !before.contains(p) {
            let w = choose|w: int| 0 <= w < after.len() && after[w] == p;
            assert(w == before.len());
            assert(found[found.len() - 1].0 == p);
        }
        if before.contains(p) {
            let w = choose|w: int| 0 <= w < before.len() && before[w] == p;
            assert(after[w] == p);
            let i = choose|i: int| 0 <= i < init.len() && (#[trigger] init[i]).0 == p;
            assert(found[i] == init[i]);
        }
        if present_row(index, p) is None && exists|i: int| 0 <= i < found.len() && (#[trigger] found[i]).0 == p {
            let i = choose|i: int| 0 <= i < found.len() && (#[trigger] found[i]).0 == p;
            if i < found.len() - 1 {
                assert(init[i] == found[i]);
            } else {
                assert(after[after.len() - 1] == p);
            }
        }
    }
}

proof fn lemma_changed_files_contains(
    found: Seq<(Seq<char>, Seq<char>)>,
    index: Seq<IndexRow>,
    mtimes: Seq<i64>,
    i: int,
)
    requires
        0 <= i < found.len(),
        mtimes.len() == found.len(),
        forall|a: int, b: int| 0 <= a < b < found.len() ==> (#[trigger] found[a]).0 != (#[trigger] found[b]).0,
    ensures
        changed_files(found, index, mtimes).contains(found[i].0) <==> (present_row(index, found[i].0) matches Some(row)
            && spec_should_rescan(Some(row.content_type@), row.mtime, mtimes[i], found[i].1)),
    decreases found.len(),
{
    let p = found[i].0;
    let init = found.drop_last();
    let before = changed_files(init, index, mtimes.drop_last());
    let after = changed_files(found, index, mtimes);
    let last = found.len() - 1;
    if i < last {
        assert(init[i] == found[i]);
        assert forall|a: int, b: int| 0 <= a < b < init.len() implies (#[trigger] init[a]).0 != (#[trigger] init[b]).0 by {
            assert(init[a] == found[a] && init[b] == found[b]);
        }
        lemma_changed_files_contains(init, index, mtimes.drop_last(), i);
        assert(mtimes.drop_last()[i] == mtimes[i]);
        assert(found[last].0 != p);
        if after.contains(p) {
            let w = choose|w: int| 0 <= w < after.len() && after[w] == p;
            if w < before.len() {
                assert(before[w] == p);
            }
        }
        if before.contains(p) {
            let w = choose|w: int| 0 <= w < before.len() && before[w] == p;
            assert(after[w] == p);
        }
    } else {
        lemma_changed_subset(init, index, mtimes.drop_last(), p);
        assert forall|a: int| 0 <= a < init.len() implies (#[trigger] init[a]).0 != p by {
            assert(init[a] == found[a]);
        }
        if after.contains(p) && !before.contains(p) {
        }
        match present_row(index, p) {
            Some(row) => if spec_should_rescan(Some(row.content_type@), row.mtime, mtimes[i], found[i].1) {
                assert(after[after.len() - 1] == p);
            } else {
                assert(after == before);
            },
            None => {
                assert(after == before);
            },
        }
    }
}

proof fn lemma_changed_subset(
    found: Seq<(Seq<char>, Seq<char>)>,
    index: Seq<IndexRow>,
    mtimes: Seq<i64>,
    p: Seq<char>,
)
    requires
        forall|a: int| 0 <= a < found.len() ==> (#[trigger] found[a]).0 != p,
    ensures
        !changed_files(found, index, mtimes).contains(p),
    decreases found.len(),
{
    if found.len() > 0 {
        let init = found.drop_last();
        assert forall|a: int| 0 <= a < init.len() implies (#[trigger] init[a]).0 != p by {
            assert(init[a] == found[a]);
        }
        lemma_changed_subset(init, index, mtimes.drop_last(), p);
        let before = changed_files(init, index, mtimes.drop_last());
        let after = changed_files(found, index, mtimes);
        if after.contains(p) {
            let w = choose|w: int| 0 <= w < after.len() && after[w] == p;
            if w < before.len() {
                assert(before[w] == p);
            } else {
                assert(found[found.len() - 1].0 == p);
            }
        }
    }
}

/// A check agrees with the scan that follows it: a listed file the check
/// reports new is one the scan finds no present row for, and one it reports
/// changed is one the scan reads again.
pub proof fn a_check_agrees_with_the_scan_that_follows_it(
    l: ListingView,
    index: Seq<IndexRow>,
    mtimes: Seq<i64>,
    file: Found,
    i: int,
    fingerprint_new: bool,
)
    requires
        0 <= i < l.found.len(),
        mtimes.len() == l.found.len(),
        forall|a: int, b: int| 0 <= a < b < l.found.len() ==> (#[trigger] l.found[a]).0 != (#[trigger] l.found[b]).0,
        l.found[i] == (file.path@, file.content_type@),
    ensures
        new_files(l.found, index).contains(file.path@) <==> spec_plan(
            file,
            mtimes[i],
            index,
            l.seen,
            fingerprint_new,
        ) is Unknown,
        changed_files(l.found, index, mtimes).contains(file.path@) <==> spec_plan(
            file,
            mtimes[i],
            index,
            l.seen,
            fingerprint_new,
        ) is Reread,
{
    lemma_new_files_contains(l.found, index, file.path@);
    lemma_changed_files_contains(l.found, index, mtimes, i);
}


/// Give the window time to come up before the launch check reads the disk.
pub const LAUNCH_DELAY_MS: u64 = 5000;

/// How often a disabled timer looks at its setting again.
pub const IDLE_POLL_MS: u64 = 60000;

/// What the check worker does next.
#[derive(Clone, Copy, Debug, PartialEq, Eq, Structural)]
pub enum Wake {
    /// Check now.
    Run,
    /// Sleep this many milliseconds, unless a request wakes it first.
    Sleep(u64),
}

/// When the check worker runs, and whether a check in flight is still worth
/// reporting. Checks run at launch, on the configured timer and on demand,
/// never alongside a scan.
#[derive(Clone, Copy, Debug, PartialEq, Eq, Structural)]
pub struct CheckSchedule {
    /// Bumped by every scan transition, so a check that overlapped one is
    /// discarded rather than reporting a disk the scan has since applied.
    pub generation: u64,
    /// A starting scan asks the running check to stop.
    pub cancel: bool,
    /// When the last check ran, or a scan made the last report moot, on a
    /// monotonic millisecond clock.
    pub last: Option<u64>,
    pub now_requested: bool,
}

/// The generation after one more scan transition; the counter wraps.
pub open spec fn next_generation(g: u64) -> u64 {
    if g == u64::MAX {
        0
    } else {
        (g + 1) as u64
    }
}

/// The generation after `n` scan transitions.
pub open spec fn generation_after(g: u64, n: nat) -> u64
    decreases n,
{
    if n == 0 {
        g
    } else {
        next_generation(generation_after(g, (n - 1) as nat))
    }
}

/// How a scan transition moves the schedule on, and whether the current
/// check report became moot: every transition bumps the generation; a
/// starting scan cancels the check; a completed one makes the report moot
/// and counts as a check; a canceled one leaves new files behind that are
/// worth reporting, so a check is requested.
pub open spec fn spec_on_scan_event(s: CheckSchedule, status: ScanStatus, now: u64) -> (
    CheckSchedule,
    bool,
) {
    let bumped = CheckSchedule { generation: next_generation(s.generation), ..s };
    match status {
        ScanStatus::Running { .. } => (CheckSchedule { cancel: true, ..bumped }, false),
        ScanStatus::Idle { .. } => (CheckSchedule { last: Some(now), ..bumped }, true),
        ScanStatus::Canceled { .. } => (CheckSchedule { now_requested: true, ..bumped }, false),
        ScanStatus::Error { .. } => (bumped, false),
    }
}

/// Milliseconds since `last`, as a monotonic clock reports them: never
/// negative.
pub open spec fn elapsed_since(last: u64, now: u64) -> int {
    if now >= last {
        now - last
    } else {
        0
    }
}

/// What the worker does next with a check interval of `interval_min`
/// minutes (0 turns the timer off): run at once when a check was requested,
/// which consumes the request; poll the setting while the timer is off;
/// otherwise run once an interval has passed since the last check (at once
/// if none ran yet), and sleep until then, or for a poll at most.
pub open spec fn spec_next_wake(s: CheckSchedule, interval_min: u64, now: u64) -> (
    CheckSchedule,
    Wake,
) {
    if s.now_requested {
        (CheckSchedule { now_requested: false, ..s }, Wake::Run)
    } else if interval_min == 0 {
        (s, Wake::Sleep(IDLE_POLL_MS))
    } else {
        let interval = interval_min * 60000;
        let elapsed = match s.last {
            Some(t) => elapsed_since(t, now),
            None => interval,
        };
        if elapsed >= interval {
            (s, Wake::Run)
        } else if interval - elapsed < IDLE_POLL_MS {
            (s, Wake::Sleep((interval - elapsed) as u64))
        } else {
            (s, Wake::Sleep(IDLE_POLL_MS))
        }
    }
}

impl CheckSchedule {
    /// Nothing checked yet and nothing requested.
    pub fn new() -> (s: CheckSchedule)
        ensures
            s == (CheckSchedule { generation: 0, cancel: false, last: None, now_requested: false }),
    {
        CheckSchedule { generation: 0, cancel: false, last: None, now_requested: false }
    }

    /// Check as soon as possible.
    pub fn request(&mut self)
        ensures
            *final(self) == (CheckSchedule { now_requested: true, ..*old(self) }),
    {
        self.now_requested = true;
    }

    /// Follow a scan transition to `status` at `now`. Returns whether the
    /// current check report is moot and must be dropped.
    pub fn on_scan_event(&mut self, status: &ScanStatus, now: u64) -> (moot: bool)
        ensures
            (*final(self), moot) == spec_on_scan_event(*old(self), *status, now),
    {
        self.generation = if self.generation == u64::MAX {
            0
        } else {
            self.generation + 1
        };
        match status {
            ScanStatus::Running { .. } => {
                self.cancel = true;
                false
            },
            ScanStatus::Idle { .. } => {
                self.last = Some(now);
                true
            },
            ScanStatus::Canceled { .. } => {
                self.now_requested = true;
                false
            },
            ScanStatus::Error { .. } => false,
        }
    }

    /// Start a check at `now`: it counts as the last check either way, but
    /// none runs while a scan does. Returns the generation the check must
    /// still find when it ends, or `None` when it does not run.
    pub fn begin(&mut self, now: u64, scan_running: bool) -> (started: Option<u64>)
        ensures
            scan_running ==> started is None && *final(self) == (CheckSchedule {
                last: Some(now),
                ..*old(self)
            }),
            !scan_running ==> started == Some(old(self).generation) && *final(self) == (
            CheckSchedule { last: Some(now), cancel: false, ..*old(self) }),
    {
        self.last = Some(now);
        if scan_running {
            return None;
        }
        self.cancel = false;
        Some(self.generation)
    }

    /// Whether a check begun at generation `started` may still report: no
    /// scan transition happened since.
    pub fn is_current(&self, started: u64) -> (r: bool)
        ensures
            r == (self.generation == started),
    {
        self.generation == started
    }

    /// Decide when the worker next runs; see [`spec_next_wake`].
    pub fn next_wake(&mut self, interval_min: u64, now: u64) -> (w: Wake)
        requires
            interval_min <= u64::MAX / 60,
        ensures
            (*final(self), w) == spec_next_wake(*old(self), interval_min, now),
    {
        if self.now_requested {
            self.now_requested = false;
            return Wake::Run;
        }
        if interval_min == 0 {
            return Wake::Sleep(IDLE_POLL_MS);
        }
        let interval: u128 = interval_min as u128 * 60000;
        let elapsed: u128 = match self.last {
            Some(t) => if now >= t {
                (now - t) as u128
            } else {
                0
            },
            None => interval,
        };
        if elapsed >= interval {
            return Wake::Run;
        }
        let left: u128 = interval - elapsed;
        if left < IDLE_POLL_MS as u128 {
            Wake::Sleep(left as u64)
        } else {
            Wake::Sleep(IDLE_POLL_MS)
        }
    }
}

/// The generation after `n` transitions is `g + n`, wrapped.
proof fn lemma_generation_after(g: u64, n: nat)
    ensures
        generation_after(g, n) == (g + n) % 0x1_0000_0000_0000_0000,
    decreases n,
{
    if n > 0 {
        lemma_generation_after(g, (n - 1) as nat);
        let m: int = 0x1_0000_0000_0000_0000;
        let prev: int = (g + n - 1) % m;
        assert(0 <= prev < m);
        vstd::arithmetic::div_mod::lemma_add_mod_noop(g + n - 1, 1, m);
        vstd::arithmetic::div_mod::lemma_small_mod(1, m as nat);
        if prev == m - 1 {
            vstd::arithmetic::div_mod::lemma_mod_multiples_vanish(1, 0, m);
            vstd::arithmetic::div_mod::lemma_small_mod(0, m as nat);
            assert((g + n) % m == 0);
        } else {
            vstd::arithmetic::div_mod::lemma_small_mod((prev + 1) as nat, m as nat);
            assert((g + n) % m == prev + 1);
        }
    }
}

/// A check is reported only when no scan transition happened while it ran:
/// a check begun at generation `g` is stale after any number `n` of
/// transitions, short of the counter wrapping all the way round.
pub proof fn a_check_that_overlapped_a_scan_is_discarded(g: u64, n: nat)
    requires
        0 < n < 0x1_0000_0000_0000_0000,
    ensures
        generation_after(g, n) != g,
{
    lemma_generation_after(g, n);
    let m: int = 0x1_0000_0000_0000_0000;
    assert((g + n) % m != g as int) by {
        if g + n < m {
            vstd::arithmetic::div_mod::lemma_small_mod((g + n) as nat, m as nat);
        } else {
            vstd::arithmetic::div_mod::lemma_mod_multiples_vanish(1, g + n - m, m);
            vstd::arithmetic::div_mod::lemma_small_mod((g + n - m) as nat, m as nat);
        }
    }
}

/// A scan that was canceled leaves files behind worth reporting: the next
/// wake after it runs a check at once, whatever the timer says.
pub proof fn a_canceled_scan_brings_the_next_check_forward(
    s: CheckSchedule,
    processed: usize,
    total: usize,
    added: usize,
    at: u64,
    interval_min: u64,
    now: u64,
)
    ensures
        spec_next_wake(
            spec_on_scan_event(s, ScanStatus::Canceled { processed, total, added }, at).0,
            interval_min,
            now,
        ).1 == Wake::Run,
{
}

/// A completed scan counts as a check: with the timer on, the next check
/// waits a whole interval from the scan's end.
pub proof fn a_completed_scan_restarts_the_timer(
    s: CheckSchedule,
    last_result: Option<super::scan_state::ScanResult>,
    at: u64,
    interval_min: u64,
)
    requires
        !s.now_requested,
        0 < interval_min <= u64::MAX / 60,
    ensures
        spec_on_scan_event(s, ScanStatus::Idle { last_result }, at).1,
        spec_next_wake(
            spec_on_scan_event(s, ScanStatus::Idle { last_result }, at).0,
            interval_min,
            at,
        ).1 == Wake::Sleep(IDLE_POLL_MS) || spec_next_wake(
            spec_on_scan_event(s, ScanStatus::Idle { last_result }, at).0,
            interval_min,
            at,
        ).1 == Wake::Sleep((interval_min * 60000) as u64),
{
}

} // verus!
