//! Writing metadata edits back into the audio file's tags: the queue of
//! tracks to write, the failures listed until a retry succeeds or the
//! operator dismisses them, and which tag fields a write sets or clears.
//! The tagged copy itself is made in `retag`; reading and replacing the file
//! belong to the application.

use std::collections::VecDeque;
use vstd::prelude::*;

use super::db::{opt_view, TagValues};
use super::paths::{file_name, name_of, with_file_name, with_name};
use crate::text::{decimal, decimal_text, push_text};

verus! {

/// A write that did not land, kept until a retry succeeds or the operator
/// dismisses it.
#[derive(Clone, Debug, PartialEq)]
pub struct TagWriteFailure {
    pub id: i64,
    pub title: String,
    pub artist: String,
    pub path: String,
    pub error: String,
    /// Unix ms.
    pub at: i64,
}

/// Track ids waiting for a write, each once, and whether a worker is
/// draining them.
#[derive(Debug)]
pub struct TagWriteQueue {
    pending: VecDeque<i64>,
    running: bool,
}

impl TagWriteQueue {
    pub closed spec fn pending(&self) -> Seq<i64> {
        self.pending@
    }

    pub closed spec fn is_running(&self) -> bool {
        self.running
    }

    pub open spec fn wf(&self) -> bool {
        self.pending().no_duplicates()
    }

    pub fn new() -> (q: TagWriteQueue)
        ensures
            q.wf(),
            q.pending().len() == 0,
            !q.is_running(),
    {
        TagWriteQueue { pending: VecDeque::new(), running: false }
    }

    /// Queue a write of track `id`, once however often it is asked for.
    /// Returns whether a worker must be started to drain the queue.
    pub fn enqueue(&mut self, id: i64) -> (start: bool)
        requires
            old(self).wf(),
        ensures
            final(self).wf(),
            final(self).pending() == if old(self).pending().contains(id) {
                old(self).pending()
            } else {
                old(self).pending().push(id)
            },
            start == !old(self).is_running(),
            final(self).is_running(),
    {
        let mut i: usize = 0;
        let mut queued = false;
        while i < self.pending.len()
            invariant
                i <= self.pending@.len(),
                queued == exists|j: int| 0 <= j < i && self.pending@[j] == id,
            decreases self.pending@.len() - i,
        {
            if self.pending[i] == id {
                queued = true;
            }
            i = i + 1;
        }
        if !queued {
            self.pending.push_back(id);
            proof {
                assert forall|a: int, b: int| 0 <= a < b < self.pending@.len() implies self.pending@[a]
                    != self.pending@[b] by {
                    if b == self.pending@.len() - 1 {
                        assert(old(self).pending@[a] != id);
                    } else {
                        assert(old(self).pending@[a] != old(self).pending@[b]);
                    }
                }
            }
        }
        let start = !self.running;
        self.running = true;
        start
    }

    /// The next track to write, oldest first; none stops the worker.
    pub fn next(&mut self) -> (id: Option<i64>)
        requires
            old(self).wf(),
        ensures
            final(self).wf(),
            match id {
                Some(x) => old(self).pending().len() > 0 && x == old(self).pending()[0]
                    && final(self).pending() == old(self).pending().drop_first()
                    && final(self).is_running() == old(self).is_running(),
                None => old(self).pending().len() == 0 && final(self).pending() == old(
                    self,
                ).pending() && !final(self).is_running(),
            },
    {
        match self.pending.pop_front() {
            Some(x) => {
                proof {
                    assert(self.pending@ =~= old(self).pending@.drop_first());
                    assert forall|a: int, b: int| 0 <= a < b < self.pending@.len() implies self.pending@[a]
                        != self.pending@[b] by {
                        assert(old(self).pending@[a + 1] != old(self).pending@[b + 1]);
                    }
                }
                Some(x)
            },
            None => {
                self.running = false;
                None
            },
        }
    }
}

/// The first failure of track `id` in `s`.
pub open spec fn failure_in(s: Seq<TagWriteFailure>, id: i64) -> Option<TagWriteFailure>
    decreases s.len(),
{
    if s.len() == 0 {
        None
    } else if s[0].id == id {
        Some(s[0])
    } else {
        failure_in(s.drop_first(), id)
    }
}

pub open spec fn ascending_ids(s: Seq<TagWriteFailure>) -> bool {
    forall|i: int, j: int| 0 <= i < j < s.len() ==> (#[trigger] s[i]).id < (#[trigger] s[j]).id
}

proof fn lemma_failure_at(s: Seq<TagWriteFailure>, id: i64, k: int)
    requires
        ascending_ids(s),
        0 <= k < s.len(),
        s[k].id == id,
    ensures
        failure_in(s, id) == Some(s[k]),
    decreases s.len(),
{
    if k > 0 {
        assert(s[0].id < s[k].id);
        let t = s.drop_first();
        assert(ascending_ids(t)) by {
            assert forall|i: int, j: int| 0 <= i < j < t.len() implies (#[trigger] t[i]).id < (
            #[trigger] t[j]).id by {
                assert(s[i + 1].id < s[j + 1].id);
            }
        }
        lemma_failure_at(t, id, k - 1);
    }
}

proof fn lemma_failure_absent(s: Seq<TagWriteFailure>, id: i64)
    requires
        forall|i: int| 0 <= i < s.len() ==> (#[trigger] s[i]).id != id,
    ensures
        failure_in(s, id) is None,
    decreases s.len(),
{
    if s.len() > 0 {
        assert(s[0].id != id);
        let t = s.drop_first();
        assert forall|i: int| 0 <= i < t.len() implies (#[trigger] t[i]).id != id by {
            assert(s[i + 1].id != id);
        }
        lemma_failure_absent(t, id);
    }
}

/// Failures by track id, ascending, one per track.
#[derive(Debug)]
pub struct TagWriteFailures {
    list: Vec<TagWriteFailure>,
}

impl TagWriteFailures {
    /// The failures, by ascending track id.
    pub closed spec fn items(&self) -> Seq<TagWriteFailure> {
        self.list@
    }

    pub open spec fn wf(&self) -> bool {
        forall|i: int, j: int|
            0 <= i < j < self.items().len() ==> (#[trigger] self.items()[i]).id < (
            #[trigger] self.items()[j]).id
    }

    /// The failure of track `id`, if any.
    pub open spec fn of(&self, id: i64) -> Option<TagWriteFailure> {
        failure_in(self.items(), id)
    }

    pub fn new() -> (f: TagWriteFailures)
        ensures
            f.wf(),
            f.items().len() == 0,
    {
        TagWriteFailures { list: Vec::new() }
    }

    /// Where track `id` is or belongs.
    fn position(&self, id: i64) -> (p: usize)
        requires
            self.wf(),
        ensures
            p <= self.items().len(),
            forall|i: int| 0 <= i < p ==> (#[trigger] self.items()[i]).id < id,
            forall|i: int| p <= i < self.items().len() ==> (#[trigger] self.items()[i]).id >= id,
    {
        let mut p: usize = 0;
        while p < self.list.len() && self.list[p].id < id
            invariant
                p <= self.list@.len(),
                forall|i: int| 0 <= i < p ==> (#[trigger] self.list@[i]).id < id,
            decreases self.list@.len() - p,
        {
            p = p + 1;
        }
        proof {
            assert forall|i: int| p <= i < self.items().len() implies (#[trigger] self.items()[i]).id
                >= id by {
                if i > p {
                    assert(self.items()[p as int].id < self.items()[i].id);
                }
            }
        }
        p
    }

    /// Record a failure, replacing the track's earlier one.
    pub fn record(&mut self, f: TagWriteFailure)
        requires
            old(self).wf(),
        ensures
            final(self).wf(),
            final(self).of(f.id) == Some(f),
            forall|id: i64| id != f.id ==> final(self).of(id) == old(self).of(id),
    {
        let p = self.position(f.id);
        let ghost before = self.list@;
        let ghost fv = f;
        let replace = p < self.list.len() && self.list[p].id == f.id;
        if replace {
            self.list.set(p, f);
        } else {
            self.list.insert(p, f);
        }
        proof {
            let after = self.list@;
            assert(replace ==> after.len() == before.len() && before[p as int].id == fv.id);
            assert(!replace ==> after.len() == before.len() + 1);
            assert forall|i: int, j: int| 0 <= i < j < after.len() implies (#[trigger] after[i]).id < (
            #[trigger] after[j]).id by {
                if after.len() == before.len() {
                    if i != p && j != p {
                        assert(before[i].id < before[j].id);
                    } else if i == p {
                        assert(before[i].id < before[j].id);
                    } else {
                        assert(before[i].id < before[j].id);
                    }
                } else {
                    if j < p {
                        assert(before[i].id < before[j].id);
                    } else if i > p {
                        assert(before[i - 1].id < before[j - 1].id);
                    } else if i < p && j > p {
                        assert(before[i].id < before[j - 1].id);
                    }
                }
            }
            assert(after[p as int] == fv);
            lemma_failure_at(after, fv.id, p as int);
            assert forall|id: i64| id != fv.id implies failure_in(after, id) == failure_in(before, id) by {
                if exists|i: int| 0 <= i < after.len() && (#[trigger] after[i]).id == id {
                    let w = choose|i: int| 0 <= i < after.len() && (#[trigger] after[i]).id == id;
                    let k = if after.len() == before.len() || w < p {
                        w
                    } else {
                        w - 1
                    };
                    assert(before[k] == after[w]);
                    lemma_failure_at(after, id, w);
                    lemma_failure_at(before, id, k);
                } else {
                    lemma_failure_absent(after, id);
                    assert forall|i: int| 0 <= i < before.len() implies (#[trigger] before[i]).id != id by {
                        if after.len() == before.len() && i == p {
                            assert(before[i].id == fv.id);
                        } else {
                            let w = if after.len() == before.len() || i < p {
                                i
                            } else {
                                i + 1
                            };
                            assert(after[w] == before[i]);
                        }
                    }
                    lemma_failure_absent(before, id);
                }
            }
        }
    }

    /// Forget the failure of track `id`. Returns whether there was one.
    pub fn remove(&mut self, id: i64) -> (removed: bool)
        requires
            old(self).wf(),
        ensures
            final(self).wf(),
            removed == (old(self).of(id) is Some),
            final(self).of(id) is None,
            forall|other: i64| other != id ==> final(self).of(other) == old(self).of(other),
    {
        let p = self.position(id);
        let ghost before = self.list@;
        if p < self.list.len() && self.list[p].id == id {
            self.list.remove(p);
            proof {
                let after = self.list@;
                assert forall|i: int, j: int| 0 <= i < j < after.len() implies (#[trigger] after[i]).id
                    < (#[trigger] after[j]).id by {
                    let a = if i < p {
                        i
                    } else {
                        i + 1
                    };
                    let b = if j < p {
                        j
                    } else {
                        j + 1
                    };
                    assert(before[a].id < before[b].id);
                }
                lemma_failure_at(before, id, p as int);
                assert forall|i: int| 0 <= i < after.len() implies (#[trigger] after[i]).id != id by {
                    if i < p {
                        assert(before[i].id < id);
                    } else {
                        assert(before[i + 1].id > before[p as int].id);
                    }
                }
                lemma_failure_absent(after, id);
                assert forall|other: i64| other != id implies failure_in(after, other) == failure_in(
                    before,
                    other,
                ) by {
                    if exists|i: int| 0 <= i < after.len() && (#[trigger] after[i]).id == other {
                        let w = choose|i: int| 0 <= i < after.len() && (#[trigger] after[i]).id == other;
                        let k = if w < p {
                            w
                        } else {
                            w + 1
                        };
                        assert(before[k] == after[w]);
                        lemma_failure_at(after, other, w);
                        lemma_failure_at(before, other, k);
                    } else {
                        lemma_failure_absent(after, other);
                        assert forall|i: int| 0 <= i < before.len() implies (#[trigger] before[i]).id
                            != other by {
                            if i != p {
                                let w = if i < p {
                                    i
                                } else {
                                    i - 1
                                };
                                assert(after[w] == before[i]);
                            }
                        }
                        lemma_failure_absent(before, other);
                    }
                }
            }
            true
        } else {
            proof {
                assert forall|i: int| 0 <= i < before.len() implies (#[trigger] before[i]).id != id by {
                    if i > p && p < before.len() {
                        assert(before[p as int].id < before[i].id);
                    }
                }
                lemma_failure_absent(before, id);
            }
            false
        }
    }

    /// Every failure, by ascending track id.
    pub fn list(&self) -> (v: &Vec<TagWriteFailure>)
        ensures
            v@ == self.items(),
    {
        &self.list
    }
}

/// A tag field a write-back sets or clears.
#[derive(Clone, Copy, Debug, PartialEq, Eq, Structural)]
pub enum TagField {
    Title,
    Artist,
    Album,
    Genre,
    Year,
}

/// What a write does to one field: set it to a text, or clear it when the
/// column is empty.
pub open spec fn field_value(v: Option<Seq<char>>) -> Option<Seq<char>> {
    match v {
        Some(s) => if s.len() > 0 {
            Some(s)
        } else {
            None
        },
        None => None,
    }
}

fn field_value_of(v: &Option<String>) -> (r: Option<String>)
    ensures
        opt_view(r) == field_value(opt_view(*v)),
{
    match v {
        Some(s) => if s.as_str().is_empty() {
            None
        } else {
            Some(s.clone())
        },
        None => None,
    }
}

/// The fields a write of `values` sets (`Some`) or clears (`None`), in the
/// order they are written.
pub open spec fn spec_write_plan(values: TagValues) -> Seq<(TagField, Option<Seq<char>>)> {
    seq![
        (TagField::Title, field_value(opt_view(values.title))),
        (TagField::Artist, field_value(opt_view(values.artist))),
        (TagField::Album, field_value(opt_view(values.album))),
        (TagField::Genre, field_value(opt_view(values.genre))),
        (TagField::Year, field_value(match values.year {
            Some(y) => Some(decimal(y as int)),
            None => None,
        })),
    ]
}

pub open spec fn plan_views(v: Seq<(TagField, Option<String>)>) -> Seq<(TagField, Option<Seq<char>>)> {
    v.map_values(|p: (TagField, Option<String>)| (p.0, opt_view(p.1)))
}

/// Which tag fields a write of `values` sets or clears.
pub fn write_plan(values: &TagValues) -> (plan: Vec<(TagField, Option<String>)>)
    ensures
        plan_views(plan@) == spec_write_plan(*values),
{
    let year: Option<String> = match values.year {
        Some(y) => Some(decimal_text(y)),
        None => None,
    };
    let mut plan: Vec<(TagField, Option<String>)> = Vec::new();
    plan.push((TagField::Title, field_value_of(&values.title)));
    plan.push((TagField::Artist, field_value_of(&values.artist)));
    plan.push((TagField::Album, field_value_of(&values.album)));
    plan.push((TagField::Genre, field_value_of(&values.genre)));
    plan.push((TagField::Year, field_value_of(&year)));
    proof {
        assert(plan_views(plan@) =~= spec_write_plan(*values));
    }
    plan
}

/// A track is written back only once the operator has edited one of its
/// tag fields.
pub fn wants_write(values: &TagValues) -> (r: bool)
    ensures
        r == (values.edited_fields != 0),
{
    values.edited_fields != 0
}

/// The failure listed for a write of `values` to track `id` that ended in
/// `error` at `at`.
pub fn failure_of(id: i64, values: &TagValues, error: String, at: i64) -> (f: TagWriteFailure)
    ensures
        f.id == id,
        f.title@ == match values.title {
            Some(t) => t@,
            None => Seq::empty(),
        },
        f.artist@ == match values.artist {
            Some(a) => a@,
            None => Seq::empty(),
        },
        f.path@ == values.path@,
        f.error@ == error@,
        f.at == at,
{
    TagWriteFailure {
        id,
        title: match &values.title {
            Some(t) => t.clone(),
            None => String::new(),
        },
        artist: match &values.artist {
            Some(a) => a.clone(),
            None => String::new(),
        },
        path: values.path.clone(),
        error,
        at,
    }
}

/// The explanation for a rename the share refused although both files are
/// there; `os_error` is what the system said.
pub fn refused_rename_message(os_error: &str) -> (m: String)
    ensures
        m@ == "the share could not rename this file, although it is there. Its name may have been created by another system: rename the file on the server, then retry ("@
            + os_error@ + ")"@,
{
    let mut m = String::new();
    push_text(
        &mut m,
        "the share could not rename this file, although it is there. Its name may have been created by another system: rename the file on the server, then retry (",
    );
    push_text(&mut m, os_error);
    push_text(&mut m, ")");
    m
}

/// A rename that reports "not found" while both files are there is the
/// share refusing to rename this file.
pub fn share_refused(not_found: bool, temp_exists: bool, path_exists: bool) -> (r: bool)
    ensures
        r == (not_found && temp_exists && path_exists),
{
    not_found && temp_exists && path_exists
}


/// The temp file a write goes to before it is renamed over the track: the
/// file's name with `.rdj-tmp` added, beside it.
pub fn temp_path(path: &str) -> (r: String)
    ensures
        r@ == with_name(
            path@,
            match name_of(path@) {
                Some(n) => n,
                None => Seq::empty(),
            } + ".rdj-tmp"@,
        ),
{
    let mut name = match file_name(path) {
        Some(n) => n,
        None => String::new(),
    };
    push_text(&mut name, ".rdj-tmp");
    with_file_name(path, name.as_str())
}

/// What a failed rename of the temp file over the track reports: the
/// share's refusal when the system says "not found" although both files are
/// there, else the system's error as the replace failing.
pub fn rename_error(not_found: bool, temp_exists: bool, path_exists: bool, os_error: &str) -> (m: String)
    ensures
        (not_found && temp_exists && path_exists) ==> m@ == "the share could not rename this file, although it is there. Its name may have been created by another system: rename the file on the server, then retry ("@
            + os_error@ + ")"@,
        !(not_found && temp_exists && path_exists) ==> m@ == "replace the file: "@ + os_error@,
{
    if share_refused(not_found, temp_exists, path_exists) {
        refused_rename_message(os_error)
    } else {
        let mut m = String::new();
        push_text(&mut m, "replace the file: ");
        push_text(&mut m, os_error);
        m
    }
}


/// A tagged copy may replace the track's file only while it keeps the
/// track's identity: a track with a stored fingerprint keeps only a copy
/// whose fingerprint, `written`, is the same.
pub fn keeps_identity(stored: &Option<String>, written: &Option<String>) -> (r: bool)
    ensures
        r == (stored is None || opt_view(*written) == opt_view(*stored)),
{
    match (stored, written) {
        (None, _) => true,
        (Some(a), Some(b)) => crate::text::same_text(a.as_str(), b.as_str()),
        (Some(_), None) => false,
    }
}

} // verus!
