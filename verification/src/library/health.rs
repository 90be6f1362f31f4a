//! The library health report: missing tracks, duplicates, and what the
//! operator has already dismissed.

use vstd::prelude::*;
use vstd::relations::{sorted_by, total_ordering};

use super::check::{signature_ignores_when_the_check_ran, spec_signature, CheckReport};
use super::db::{opt_view, Dismissal, HealthRow, MissingRow};
use super::listing::{root_paths, under_any, within_any_root, ScanRoot};
use crate::playlist::model::Track;
use crate::text::{
    chars_of, decimal, decimal_text, digits, lemma_decimal_round_trip, lemma_text_le_total, lemma_text_le_transitive,
    lemma_text_le_antisymmetric, lemma_text_le_reflexive, parse_i64, parsed_i64, push_char,
    push_text, same_text, text_le, text_le_exec, views,
};

verus! {

/// The event the report is pushed to the renderer on.
pub const HEALTH_EVENT: &'static str = "library-health";

/// What `str::to_lowercase` makes of `s`: every character replaced by its
/// Unicode lower-case mapping.
pub uninterp spec fn lowercased(s: Seq<char>) -> Seq<char>;

/// `s` in lower case (`str::to_lowercase`).
#[verifier::external_body]
fn to_lowercase(s: &str) -> (r: String)
    ensures
        r@ == lowercased(s@),
{
    s.to_lowercase()
}

/// Whether `char::is_alphanumeric` holds of `c`: it is a Unicode letter or
/// number.
pub uninterp spec fn alphanumeric(c: char) -> bool;

/// `char::is_alphanumeric`.
#[verifier::external_body]
fn is_alphanumeric(c: char) -> (r: bool)
    ensures
        r == alphanumeric(c),
{
    c.is_alphanumeric()
}

/// `s` with each run of characters that are neither letters nor digits
/// replaced by one space between words and dropped at either end; the flag
/// says whether such a run follows the last word.
pub open spec fn collapse(s: Seq<char>) -> (Seq<char>, bool)
    decreases s.len(),
{
    if s.len() == 0 {
        (Seq::empty(), false)
    } else {
        let (out, gap) = collapse(s.drop_last());
        let c = s.last();
        if alphanumeric(c) {
            if gap && out.len() > 0 {
                (out.push(' ').push(c), false)
            } else {
                (out.push(c), false)
            }
        } else {
            (out, true)
        }
    }
}

/// `s` lower-cased, its words kept and each run of anything else between
/// them made one space.
pub open spec fn normalised(s: Seq<char>) -> Seq<char> {
    collapse(lowercased(s)).0
}

/// Lower-case, and collapse every run of anything but letters and digits into
/// one space. Words are kept, so "(Remix)" still tells two titles apart.
pub fn normalise(s: &str) -> (r: String)
    ensures
        r@ == normalised(s@),
{
    let lower = to_lowercase(s);
    let v = chars_of(lower.as_str());
    let mut out = String::new();
    let mut gap = false;
    let mut any = false;
    let mut i: usize = 0;
    proof {
        assert(v@.take(0) =~= Seq::<char>::empty());
    }
    while i < v.len()
        invariant
            v@ == lowercased(s@),
            i <= v@.len(),
            (out@, gap) == collapse(v@.take(i as int)),
            any == (out@.len() > 0),
        decreases v@.len() - i,
    {
        let c = v[i];
        proof {
            assert(v@.take(i as int + 1).drop_last() =~= v@.take(i as int));
        }
        if is_alphanumeric(c) {
            if gap && any {
                push_char(&mut out, ' ');
            }
            push_char(&mut out, c);
            gap = false;
            any = true;
        } else {
            gap = true;
        }
        i = i + 1;
    }
    proof {
        assert(v@.take(v@.len() as int) =~= v@);
    }
    out
}

/// Every character `normalise` keeps is a letter or a digit, but for single
/// spaces that stand between two of them.
pub proof fn normalise_leaves_single_spaces_between_words(s: Seq<char>)
    ensures
        forall|i: int|
            0 <= i < normalised(s).len() && !alphanumeric(#[trigger] normalised(s)[i]) ==> {
                &&& normalised(s)[i] == ' '
                &&& 0 < i < normalised(s).len() - 1
                &&& alphanumeric(normalised(s)[i - 1])
                &&& alphanumeric(normalised(s)[i + 1])
            },
        normalised(s).len() > 0 ==> alphanumeric(normalised(s)[0]) && alphanumeric(
            normalised(s).last(),
        ),
{
    lemma_collapse_shape(lowercased(s));
}

proof fn lemma_collapse_shape(s: Seq<char>)
    ensures
        forall|i: int|
            0 <= i < collapse(s).0.len() && !alphanumeric(#[trigger] collapse(s).0[i]) ==> {
                &&& collapse(s).0[i] == ' '
                &&& 0 < i < collapse(s).0.len() - 1
                &&& alphanumeric(collapse(s).0[i - 1])
                &&& alphanumeric(collapse(s).0[i + 1])
            },
        collapse(s).0.len() > 0 ==> alphanumeric(collapse(s).0[0]) && alphanumeric(
            collapse(s).0.last(),
        ),
    decreases s.len(),
{
    if s.len() > 0 {
        lemma_collapse_shape(s.drop_last());
        let (out, gap) = collapse(s.drop_last());
        let c = s.last();
        let r = collapse(s).0;
        if alphanumeric(c) {
            if gap && out.len() > 0 {
                assert(r =~= out.push(' ').push(c));
                assert forall|i: int| 0 <= i < r.len() && !alphanumeric(#[trigger] r[i]) implies {
                    &&& r[i] == ' '
                    &&& 0 < i < r.len() - 1
                    &&& alphanumeric(r[i - 1])
                    &&& alphanumeric(r[i + 1])
                } by {
                    if i < out.len() {
                        assert(r[i] == out[i]);
                        assert(r[i - 1] == out[i - 1]);
                        if i + 1 < out.len() {
                            assert(r[i + 1] == out[i + 1]);
                        }
                    }
                }
            } else {
                assert(r =~= out.push(c));
                assert forall|i: int| 0 <= i < r.len() && !alphanumeric(#[trigger] r[i]) implies {
                    &&& r[i] == ' '
                    &&& 0 < i < r.len() - 1
                    &&& alphanumeric(r[i - 1])
                    &&& alphanumeric(r[i + 1])
                } by {
                    assert(r[i] == out[i]);
                    assert(r[i - 1] == out[i - 1]);
                    if i + 1 < out.len() {
                        assert(r[i + 1] == out[i + 1]);
                    }
                }
            }
        }
    }
}

/// The kinds of finding the operator can dismiss.
#[derive(Clone, Copy, Debug, PartialEq, Eq, Structural)]
pub enum FindingKind {
    Exact,
    Possible,
    Missing,
    Check,
}

impl FindingKind {
    /// The name a dismissal of this kind is stored under.
    pub open spec fn spec_name(self) -> Seq<char> {
        match self {
            FindingKind::Exact => seq!['e', 'x', 'a', 'c', 't'],
            FindingKind::Possible => seq!['p', 'o', 's', 's', 'i', 'b', 'l', 'e'],
            FindingKind::Missing => seq!['m', 'i', 's', 's', 'i', 'n', 'g'],
            FindingKind::Check => seq!['c', 'h', 'e', 'c', 'k'],
        }
    }

    pub fn as_str(self) -> (s: &'static str)
        ensures
            s@ == self.spec_name(),
    {
        proof {
            reveal_strlit("exact");
            reveal_strlit("possible");
            reveal_strlit("missing");
            reveal_strlit("check");
        }
        match self {
            FindingKind::Exact => "exact",
            FindingKind::Possible => "possible",
            FindingKind::Missing => "missing",
            FindingKind::Check => "check",
        }
    }
}

/// The key a dismissal of `kind` is stored under: missing tracks have one
/// dismissal for the whole list.
pub open spec fn spec_dismissal_key(kind: FindingKind, key: Seq<char>) -> Seq<char> {
    match kind {
        FindingKind::Missing => Seq::empty(),
        _ => key,
    }
}

pub fn dismissal_key(kind: FindingKind, key: &str) -> (k: String)
    ensures
        k@ == spec_dismissal_key(kind, key@),
{
    match kind {
        FindingKind::Missing => String::new(),
        _ => key.to_owned(),
    }
}

/// A track that is gone from disk, as the report lists it.
#[derive(Clone, Debug, PartialEq)]
pub struct MissingTrack {
    pub id: i64,
    pub title: String,
    pub artist: String,
    /// Where the file was last seen.
    pub path: String,
    pub missing_since: i64,
    pub play_count: i64,
    pub has_cue_points: bool,
    /// No configured library path contains `path`: the path was removed
    /// rather than the file.
    pub outside_roots: bool,
}

/// One track of a duplicate group.
#[derive(Debug, PartialEq)]
pub struct DuplicateMember {
    pub track: Track,
    pub path: String,
    pub content_type: String,
}

/// Tracks that look like copies of one recording.
#[derive(Debug, PartialEq)]
pub struct DuplicateGroup {
    pub key: String,
    pub dismissed: bool,
    pub tracks: Vec<DuplicateMember>,
}

/// A duplicate group as contracts speak of it.
pub struct GroupView {
    pub key: Seq<char>,
    pub dismissed: bool,
    pub tracks: Seq<DuplicateMember>,
}

impl View for DuplicateGroup {
    type V = GroupView;

    open spec fn view(&self) -> GroupView {
        GroupView { key: self.key@, dismissed: self.dismissed, tracks: self.tracks@ }
    }
}

/// The ids of a group's tracks, in its order.
pub open spec fn member_ids(tracks: Seq<DuplicateMember>) -> Seq<i64> {
    tracks.map_values(|m: DuplicateMember| m.track.id)
}

/// Ascending order on ids.
pub open spec fn id_le() -> spec_fn(i64, i64) -> bool {
    |a: i64, b: i64| a <= b
}

/// Ids in decimal, separated by commas.
pub open spec fn joined_ids(ids: Seq<i64>) -> Seq<char>
    decreases ids.len(),
{
    if ids.len() == 0 {
        Seq::empty()
    } else if ids.len() == 1 {
        decimal(ids[0] as int)
    } else {
        joined_ids(ids.drop_last()) + seq![','] + decimal(ids.last() as int)
    }
}

/// What a group looked like, for telling whether a dismissal still applies:
/// its track ids in ascending order, comma separated.
pub open spec fn spec_group_signature(tracks: Seq<DuplicateMember>) -> Seq<char> {
    joined_ids(member_ids(tracks).sort_by(id_le()))
}

proof fn lemma_id_le_total()
    ensures
        total_ordering(id_le()),
{
    let le = id_le();
    assert(vstd::relations::reflexive(le));
    assert(vstd::relations::antisymmetric(le));
    assert(vstd::relations::transitive(le));
    assert(vstd::relations::strongly_connected(le));
}

/// Sort ids ascending.
fn sort_ids(v: &mut Vec<i64>)
    ensures
        final(v)@.to_multiset() == old(v)@.to_multiset(),
        sorted_by(final(v)@, id_le()),
{
    broadcast use vstd::seq_lib::group_to_multiset_ensures;
    broadcast use vstd::multiset::group_multiset_axioms;

    let ghost original = v@;
    let mut src: Vec<i64> = Vec::new();
    std::mem::swap(v, &mut src);
    let mut out: Vec<i64> = Vec::new();
    while src.len() > 0
        invariant
            sorted_by(out@, id_le()),
            out@.to_multiset().add(src@.to_multiset()) == original.to_multiset(),
        decreases src@.len(),
    {
        let ghost before = src@;
        let x = src.pop().unwrap();
        let mut p: usize = 0;
        while p < out.len() && out[p] <= x
            invariant
                p <= out@.len(),
                sorted_by(out@, id_le()),
                forall|i: int| 0 <= i < p ==> out@[i] <= x,
            decreases out@.len() - p,
        {
            p = p + 1;
        }
        let ghost shorter = out@;
        out.insert(p, x);
        proof {
            vstd::seq_lib::to_multiset_insert(shorter, p as int, x);
            vstd::seq_lib::to_multiset_build(src@, x);
            assert(before =~= src@.push(x));
            assert(out@.to_multiset().add(src@.to_multiset()) =~= shorter.to_multiset().add(
                before.to_multiset(),
            ));
            assert forall|i: int, j: int| 0 <= i < j < out@.len() implies #[trigger] id_le()(
                out@[i],
                out@[j],
            ) by {
                if j < p {
                    assert(id_le()(shorter[i], shorter[j]));
                } else if j == p {
                    assert(out@[i] == shorter[i]);
                } else if i > p {
                    assert(id_le()(shorter[i - 1], shorter[j - 1]));
                } else if i == p {
                    assert(shorter[p as int] > x);
                    if j - 1 > p {
                        assert(id_le()(shorter[p as int], shorter[j - 1]));
                    }
                } else {
                    assert(id_le()(shorter[i], shorter[j - 1]));
                }
            }
        }
    }
    *v = out;
}

/// What a group looked like, for telling whether a dismissal still applies.
pub fn group_signature(group: &DuplicateGroup) -> (s: String)
    ensures
        s@ == spec_group_signature(group.tracks@),
{
    let mut ids: Vec<i64> = Vec::new();
    let mut i: usize = 0;
    while i < group.tracks.len()
        invariant
            i <= group.tracks@.len(),
            ids@ == member_ids(group.tracks@.take(i as int)),
        decreases group.tracks@.len() - i,
    {
        ids.push(group.tracks[i].track.id);
        proof {
            assert(member_ids(group.tracks@.take(i as int + 1)) =~= member_ids(
                group.tracks@.take(i as int),
            ).push(group.tracks@[i as int].track.id));
        }
        i = i + 1;
    }
    proof {
        assert(group.tracks@.take(group.tracks@.len() as int) =~= group.tracks@);
    }
    let ghost unsorted = ids@;
    sort_ids(&mut ids);
    proof {
        lemma_id_le_total();
        unsorted.lemma_sort_by_ensures(id_le());
        vstd::seq_lib::lemma_sorted_unique(ids@, unsorted.sort_by(id_le()), id_le());
    }
    let mut s = String::new();
    let mut k: usize = 0;
    while k < ids.len()
        invariant
            k <= ids@.len(),
            s@ == joined_ids(ids@.take(k as int)),
        decreases ids@.len() - k,
    {
        if k > 0 {
            push_char(&mut s, ',');
        }
        let d = decimal_text(ids[k]);
        push_text(&mut s, d.as_str());
        proof {
            let t = ids@.take(k as int + 1);
            assert(t.drop_last() =~= ids@.take(k as int));
            if k == 0 {
                assert(s@ =~= decimal(t[0] as int));
            } else {
                assert(s@ =~= joined_ids(t.drop_last()) + seq![','] + decimal(t.last() as int));
            }
        }
        k = k + 1;
    }
    proof {
        assert(ids@.take(ids@.len() as int) =~= ids@);
    }
    s
}

/// The order groups are listed in: by the first track's normalised artist,
/// then its normalised title, then its id.
pub open spec fn group_order(g: GroupView) -> (Seq<char>, Seq<char>, i64) {
    let first = g.tracks[0].track;
    (normalised(first.artist@), normalised(first.title@), first.id)
}

/// `a` sorts no later than `b`: lexicographic over the three parts.
pub open spec fn order_le(a: (Seq<char>, Seq<char>, i64), b: (Seq<char>, Seq<char>, i64)) -> bool {
    if a.0 != b.0 {
        text_le(a.0, b.0)
    } else if a.1 != b.1 {
        text_le(a.1, b.1)
    } else {
        a.2 <= b.2
    }
}

/// Listed in `group_order`.
pub open spec fn sorted_groups(s: Seq<GroupView>) -> bool {
    forall|i: int, j: int|
        0 <= i < j < s.len() ==> order_le(group_order(#[trigger] s[i]), group_order(#[trigger] s[j]))
}

pub open spec fn group_views(v: Seq<DuplicateGroup>) -> Seq<GroupView> {
    v.map_values(|g: DuplicateGroup| g@)
}

proof fn lemma_order_le_total(a: (Seq<char>, Seq<char>, i64), b: (Seq<char>, Seq<char>, i64))
    ensures
        order_le(a, b) || order_le(b, a),
{
    lemma_text_le_total(a.0, b.0);
    lemma_text_le_total(a.1, b.1);
}

proof fn lemma_order_le_transitive(
    a: (Seq<char>, Seq<char>, i64),
    b: (Seq<char>, Seq<char>, i64),
    c: (Seq<char>, Seq<char>, i64),
)
    requires
        order_le(a, b),
        order_le(b, c),
    ensures
        order_le(a, c),
{
    if a.0 != b.0 && b.0 != c.0 {
        lemma_text_le_transitive(a.0, b.0, c.0);
        if a.0 == c.0 {
            lemma_text_le_antisymmetric(a.0, b.0);
        }
    } else if a.0 == b.0 && b.0 == c.0 {
        if a.1 != b.1 && b.1 != c.1 {
            lemma_text_le_transitive(a.1, b.1, c.1);
            if a.1 == c.1 {
                lemma_text_le_antisymmetric(a.1, b.1);
            }
        }
    }
}

/// Whether `a` sorts no later than `b`.
fn order_le_exec(a: &DuplicateGroup, b: &DuplicateGroup) -> (r: bool)
    requires
        a.tracks@.len() > 0,
        b.tracks@.len() > 0,
    ensures
        r == order_le(group_order(a@), group_order(b@)),
{
    let x = &a.tracks[0].track;
    let y = &b.tracks[0].track;
    let xa = normalise(x.artist.as_str());
    let ya = normalise(y.artist.as_str());
    if !same_text(xa.as_str(), ya.as_str()) {
        return text_le_exec(xa.as_str(), ya.as_str());
    }
    let xt = normalise(x.title.as_str());
    let yt = normalise(y.title.as_str());
    if !same_text(xt.as_str(), yt.as_str()) {
        return text_le_exec(xt.as_str(), yt.as_str());
    }
    x.id <= y.id
}

/// Sort groups into `group_order`.
fn sort_groups(v: &mut Vec<DuplicateGroup>)
    requires
        forall|i: int| 0 <= i < old(v)@.len() ==> (#[trigger] old(v)@[i]).tracks@.len() > 0,
    ensures
        group_views(final(v)@).to_multiset() == group_views(old(v)@).to_multiset(),
        sorted_groups(group_views(final(v)@)),
        forall|i: int| 0 <= i < final(v)@.len() ==> (#[trigger] final(v)@[i]).tracks@.len() > 0,
        forall|i: int|
            0 <= i < final(v)@.len() ==> group_views(old(v)@).contains(
                #[trigger] group_views(final(v)@)[i],
            ),
{
    broadcast use vstd::seq_lib::group_to_multiset_ensures;
    broadcast use vstd::multiset::group_multiset_axioms;

    let ghost original = group_views(v@);
    let mut src: Vec<DuplicateGroup> = Vec::new();
    std::mem::swap(v, &mut src);
    let mut out: Vec<DuplicateGroup> = Vec::new();
    proof {
        assert(group_views(out@) =~= Seq::<GroupView>::empty());
    }
    while src.len() > 0
        invariant
            sorted_groups(group_views(out@)),
            group_views(out@).to_multiset().add(group_views(src@).to_multiset())
                == original.to_multiset(),
            forall|i: int| 0 <= i < src@.len() ==> (#[trigger] src@[i]).tracks@.len() > 0,
            forall|i: int| 0 <= i < out@.len() ==> (#[trigger] out@[i]).tracks@.len() > 0,
        decreases src@.len(),
    {
        let ghost before = src@;
        let x = src.pop().unwrap();
        proof {
            assert(before[before.len() - 1] == x);
            assert(group_views(before) =~= group_views(src@).push(x@));
        }
        let mut p: usize = 0;
        let mut stop = false;
        while p < out.len() && !stop
            invariant
                p <= out@.len(),
                x.tracks@.len() > 0,
                sorted_groups(group_views(out@)),
                forall|i: int| 0 <= i < out@.len() ==> (#[trigger] out@[i]).tracks@.len() > 0,
                forall|i: int| 0 <= i < p ==> order_le(group_order(#[trigger] out@[i]@), group_order(x@)),
                stop ==> p < out@.len() && !order_le(group_order(out@[p as int]@), group_order(x@)),
            decreases out@.len() - p + (if stop { 0int } else { 1int }),
        {
            if order_le_exec(&out[p], &x) {
                p = p + 1;
            } else {
                stop = true;
            }
        }
        let ghost shorter = out@;
        out.insert(p, x);
        proof {
            let sv = group_views(shorter);
            assert(group_views(out@) =~= sv.insert(p as int, x@));
            vstd::seq_lib::to_multiset_insert(sv, p as int, x@);
            vstd::seq_lib::to_multiset_build(group_views(src@), x@);
            assert(group_views(out@).to_multiset().add(group_views(src@).to_multiset()) =~= sv.to_multiset().add(
                group_views(before).to_multiset(),
            ));
            let ov = group_views(out@);
            assert forall|i: int, j: int| 0 <= i < j < ov.len() implies order_le(
                group_order(#[trigger] ov[i]),
                group_order(#[trigger] ov[j]),
            ) by {
                if j < p {
                    assert(order_le(group_order(sv[i]), group_order(sv[j])));
                } else if j == p {
                    assert(ov[i] == shorter[i]@);
                } else if i > p {
                    assert(order_le(group_order(sv[i - 1]), group_order(sv[j - 1])));
                } else if i == p {
                    lemma_order_le_total(group_order(sv[p as int]), group_order(x@));
                    if j - 1 > p {
                        assert(order_le(group_order(sv[p as int]), group_order(sv[j - 1])));
                        lemma_order_le_transitive(
                            group_order(x@),
                            group_order(sv[p as int]),
                            group_order(sv[j - 1]),
                        );
                    }
                } else {
                    assert(order_le(group_order(shorter[i]@), group_order(x@)));
                    lemma_order_le_total(group_order(sv[p as int]), group_order(x@));
                    assert(order_le(group_order(sv[p as int]), group_order(sv[j - 1]))) by {
                        if j - 1 > p {
                            assert(order_le(group_order(sv[p as int]), group_order(sv[j - 1])));
                        }
                    }
                    lemma_order_le_transitive(
                        group_order(x@),
                        group_order(sv[p as int]),
                        group_order(sv[j - 1]),
                    );
                    lemma_order_le_transitive(
                        group_order(sv[i]),
                        group_order(x@),
                        group_order(sv[j - 1]),
                    );
                }
            }
        }
    }
    proof {
        assert(group_views(src@) =~= Seq::<GroupView>::empty());
        assert(group_views(out@).to_multiset() =~= original.to_multiset());
        assert forall|i: int| 0 <= i < out@.len() implies original.contains(
            #[trigger] group_views(out@)[i],
        ) by {
            vstd::seq_lib::to_multiset_contains(group_views(out@), group_views(out@)[i]);
            vstd::seq_lib::to_multiset_contains(original, group_views(out@)[i]);
        }
    }
    *v = out;
}

/// A row as a member of a group.
pub open spec fn member_of(r: HealthRow) -> DuplicateMember {
    DuplicateMember { track: r.track, path: r.path, content_type: r.content_type }
}

fn member(row: HealthRow) -> (m: DuplicateMember)
    ensures
        m == member_of(row),
{
    DuplicateMember { track: row.track, path: row.path, content_type: row.content_type }
}

/// The key of an exact group: the fingerprint, or empty text for none.
pub open spec fn fingerprint_key(r: HealthRow) -> Seq<char> {
    match r.fingerprint {
        Some(f) => f@,
        None => Seq::empty(),
    }
}

/// `rows` cut into runs of one fingerprint, in order.
pub open spec fn runs(rows: Seq<HealthRow>) -> Seq<GroupView>
    decreases rows.len(),
{
    if rows.len() == 0 {
        Seq::empty()
    } else {
        let before = runs(rows.drop_last());
        let r = rows.last();
        let k = fingerprint_key(r);
        if before.len() > 0 && before.last().key == k {
            before.update(
                before.len() - 1,
                GroupView {
                    key: k,
                    dismissed: false,
                    tracks: before.last().tracks.push(member_of(r)),
                },
            )
        } else {
            before.push(GroupView { key: k, dismissed: false, tracks: seq![member_of(r)] })
        }
    }
}

proof fn lemma_runs_nonempty(rows: Seq<HealthRow>)
    ensures
        forall|i: int| 0 <= i < runs(rows).len() ==> (#[trigger] runs(rows)[i]).tracks.len() > 0,
        forall|i: int| 0 <= i < runs(rows).len() ==> !(#[trigger] runs(rows)[i]).dismissed,
    decreases rows.len(),
{
    if rows.len() > 0 {
        lemma_runs_nonempty(rows.drop_last());
        let before = runs(rows.drop_last());
        let after = runs(rows);
        assert forall|i: int| 0 <= i < after.len() implies (#[trigger] after[i]).tracks.len() > 0
            && !after[i].dismissed by {
            if i < before.len() && !(i == before.len() - 1 && after.len() == before.len()) {
                assert(after[i] == before[i]);
            }
        }
    }
}

fn fingerprint_text(r: &HealthRow) -> (k: String)
    ensures
        k@ == fingerprint_key(*r),
{
    match &r.fingerprint {
        Some(f) => f.clone(),
        None => String::new(),
    }
}

/// Exact duplicates: `rows` arrive ordered by fingerprint, so each group is
/// one run of them.
pub fn exact_groups(rows: &[HealthRow]) -> (out: Vec<DuplicateGroup>)
    ensures
        group_views(out@).to_multiset() == runs(rows@).to_multiset(),
        sorted_groups(group_views(out@)),
        forall|i: int| 0 <= i < out@.len() ==> (#[trigger] out@[i]).tracks@.len() > 0,
        forall|i: int| 0 <= i < out@.len() ==> !(#[trigger] out@[i]).dismissed,
{
    let mut groups: Vec<DuplicateGroup> = Vec::new();
    let mut i: usize = 0;
    proof {
        assert(group_views(groups@) =~= runs(rows@.take(0)));
    }
    while i < rows.len()
        invariant
            i <= rows@.len(),
            group_views(groups@) == runs(rows@.take(i as int)),
            forall|j: int| 0 <= j < groups@.len() ==> (#[trigger] groups@[j]).tracks@.len() > 0,
        decreases rows@.len() - i,
    {
        let row = rows[i].clone();
        let key = fingerprint_text(&row);
        proof {
            assert(rows@.take(i as int + 1).drop_last() =~= rows@.take(i as int));
            assert(rows@.take(i as int + 1).last() == row);
        }
        let n = groups.len();
        let mut joins = false;
        if n > 0 {
            joins = same_text(groups[n - 1].key.as_str(), key.as_str());
        }
        let ghost before = groups@;
        if joins {
            let mut last = groups.pop().unwrap();
            last.tracks.push(member(row));
            groups.push(last);
            proof {
                assert(group_views(groups@) =~= group_views(before).update(
                    n - 1,
                    GroupView {
                        key: key@,
                        dismissed: false,
                        tracks: group_views(before).last().tracks.push(member_of(rows@[i as int])),
                    },
                ));
            }
        } else {
            let mut tracks: Vec<DuplicateMember> = Vec::new();
            tracks.push(member(row));
            groups.push(DuplicateGroup { key, dismissed: false, tracks });
            proof {
                assert(group_views(groups@) =~= group_views(before).push(
                    GroupView { key: key@, dismissed: false, tracks: seq![member_of(rows@[i as int])] },
                ));
            }
        }
        i = i + 1;
    }
    proof {
        assert(rows@.take(rows@.len() as int) =~= rows@);
        lemma_runs_nonempty(rows@);
    }
    let ghost unsorted = group_views(groups@);
    sort_groups(&mut groups);
    proof {
        assert forall|i: int| 0 <= i < groups@.len() implies !(#[trigger] groups@[i]).dismissed by {
            assert(unsorted.contains(group_views(groups@)[i]));
        }
    }
    groups
}

/// The artist the scanner gives an untagged file, normalised.
pub open spec fn unknown_artist() -> Seq<char> {
    seq!['u', 'n', 'k', 'n', 'o', 'w', 'n']
}

/// The key a row is grouped under as a possible duplicate: its normalised
/// artist and title, unless either is blank or the artist is the scanner's
/// "Unknown".
pub open spec fn title_key(r: HealthRow) -> Option<Seq<char>> {
    let a = normalised(r.track.artist@);
    let t = normalised(r.track.title@);
    if a.len() == 0 || t.len() == 0 || a == unknown_artist() {
        None
    } else {
        Some(a + seq!['\u{1f}'] + t)
    }
}

pub open spec fn keyed(k: Seq<char>) -> spec_fn(HealthRow) -> bool {
    |r: HealthRow| title_key(r) == Some(k)
}

/// The rows under key `k`, in order.
pub open spec fn rows_with_key(rows: Seq<HealthRow>, k: Seq<char>) -> Seq<HealthRow> {
    rows.filter(keyed(k))
}

/// The rows do not all share one fingerprint, or the first has none.
pub open spec fn mixed_fingerprints(rows: Seq<HealthRow>) -> bool {
    rows[0].fingerprint is None || exists|i: int|
        0 <= i < rows.len() && opt_view(#[trigger] rows[i].fingerprint) != opt_view(
            rows[0].fingerprint,
        )
}

/// Key `k` makes a possible group: more than one row has it, and they are
/// not already one exact group.
pub open spec fn possible_key(rows: Seq<HealthRow>, k: Seq<char>) -> bool {
    rows_with_key(rows, k).len() > 1 && mixed_fingerprints(rows_with_key(rows, k))
}

/// The keys of `rows`, each once, in the order they first appear.
pub open spec fn first_keys(rows: Seq<HealthRow>) -> Seq<Seq<char>>
    decreases rows.len(),
{
    if rows.len() == 0 {
        Seq::empty()
    } else {
        let ks = first_keys(rows.drop_last());
        match title_key(rows.last()) {
            Some(k) => if ks.contains(k) {
                ks
            } else {
                ks.push(k)
            },
            None => ks,
        }
    }
}

/// The possible group of key `k`.
pub open spec fn possible_group(rows: Seq<HealthRow>, k: Seq<char>) -> GroupView {
    GroupView { key: k, dismissed: false, tracks: rows_with_key(rows, k).map_values(|r: HealthRow| member_of(r)) }
}

/// The possible groups of `rows`, in the order their keys first appear.
pub open spec fn possible_spec(rows: Seq<HealthRow>) -> Seq<GroupView> {
    first_keys(rows).filter(|k: Seq<char>| possible_key(rows, k)).map_values(
        |k: Seq<char>| possible_group(rows, k),
    )
}

fn same_opt_text(a: &Option<String>, b: &Option<String>) -> (r: bool)
    ensures
        r == (opt_view(*a) == opt_view(*b)),
{
    match (a, b) {
        (Some(x), Some(y)) => same_text(x.as_str(), y.as_str()),
        (None, None) => true,
        _ => false,
    }
}

fn mixed(rows: &Vec<HealthRow>) -> (r: bool)
    requires
        rows@.len() > 0,
    ensures
        r == mixed_fingerprints(rows@),
{
    if rows[0].fingerprint.is_none() {
        return true;
    }
    let mut k: usize = 0;
    while k < rows.len()
        invariant
            k <= rows@.len(),
            rows@.len() > 0,
            forall|j: int| 0 <= j < k ==> opt_view(#[trigger] rows@[j].fingerprint) == opt_view(
                rows@[0].fingerprint,
            ),
        decreases rows@.len() - k,
    {
        if !same_opt_text(&rows[k].fingerprint, &rows[0].fingerprint) {
            return true;
        }
        k = k + 1;
    }
    false
}

/// The key of `row`, if it has one.
fn title_key_of(row: &HealthRow) -> (k: Option<String>)
    ensures
        match k {
            Some(s) => title_key(*row) == Some(s@),
            None => title_key(*row) is None,
        },
{
    let artist = normalise(row.track.artist.as_str());
    let title = normalise(row.track.title.as_str());
    proof {
        reveal_strlit("unknown");
        assert("unknown"@ =~= unknown_artist());
    }
    let blank_artist = artist.as_str().is_empty();
    let blank_title = title.as_str().is_empty();
    let unknown = same_text(artist.as_str(), "unknown");
    if blank_artist || blank_title || unknown {
        return None;
    }
    let ghost a = artist@;
    let mut key = artist;
    push_char(&mut key, '\u{1f}');
    push_text(&mut key, title.as_str());
    proof {
        assert(key@ =~= a + seq!['\u{1f}'] + title@);
    }
    Some(key)
}

fn index_of_text(keys: &Vec<String>, k: &String) -> (r: Option<usize>)
    ensures
        match r {
            Some(j) => j < keys@.len() && keys@[j as int]@ == k@,
            None => forall|j: int| 0 <= j < keys@.len() ==> (#[trigger] keys@[j])@ != k@,
        },
{
    let mut j: usize = 0;
    while j < keys.len()
        invariant
            j <= keys@.len(),
            forall|i: int| 0 <= i < j ==> (#[trigger] keys@[i])@ != k@,
        decreases keys@.len() - j,
    {
        if same_text(keys[j].as_str(), k.as_str()) {
            return Some(j);
        }
        j = j + 1;
    }
    None
}

/// Possible duplicates: tracks grouped by normalised artist and title. A
/// group whose tracks all share one fingerprint is an exact group and is left
/// to that list.
pub fn possible_groups(rows: &[HealthRow]) -> (out: Vec<DuplicateGroup>)
    ensures
        group_views(out@).to_multiset() == possible_spec(rows@).to_multiset(),
        sorted_groups(group_views(out@)),
        forall|i: int| 0 <= i < out@.len() ==> (#[trigger] out@[i]).tracks@.len() > 0,
        forall|i: int| 0 <= i < out@.len() ==> !(#[trigger] out@[i]).dismissed,
{
    broadcast use vstd::seq::Seq::lemma_filter_push;

    let mut keys: Vec<String> = Vec::new();
    let mut buckets: Vec<Vec<HealthRow>> = Vec::new();
    let mut i: usize = 0;
    proof {
        assert(views_of(keys@) =~= first_keys(rows@.take(0)));
    }
    while i < rows.len()
        invariant
            i <= rows@.len(),
            views_of(keys@) == first_keys(rows@.take(i as int)),
            buckets@.len() == keys@.len(),
            forall|a: int, b: int| 0 <= a < b < keys@.len() ==> (#[trigger] keys@[a])@ != (#[trigger] keys@[b])@,
            forall|j: int|
                0 <= j < keys@.len() ==> (#[trigger] buckets@[j])@ == rows_with_key(
                    rows@.take(i as int),
                    keys@[j]@,
                ),
        decreases rows@.len() - i,
    {
        let row = &rows[i];
        let ghost prefix = rows@.take(i as int);
        proof {
            assert(rows@.take(i as int + 1) =~= prefix.push(*row));
            assert(rows@.take(i as int + 1).drop_last() =~= prefix);
        }
        match title_key_of(row) {
            None => {
                proof {
                    assert forall|j: int| 0 <= j < keys@.len() implies (#[trigger] buckets@[j])@
                        == rows_with_key(rows@.take(i as int + 1), keys@[j]@) by {
                        prefix.lemma_filter_push(*row, keyed(keys@[j]@));
                    }
                }
            },
            Some(k) => {
                match index_of_text(&keys, &k) {
                    Some(j) => {
                        let ghost old_buckets = buckets@;
                        let mut b = buckets.remove(j);
                        b.push(row.clone());
                        let ghost nb = b;
                        buckets.insert(j, b);
                        proof {
                            assert(buckets@ =~= old_buckets.update(j as int, nb));
                            assert(views_of(keys@).contains(k@)) by {
                                assert(views_of(keys@)[j as int] == k@);
                            }
                            assert forall|m: int| 0 <= m < keys@.len() implies (
                            #[trigger] buckets@[m])@ == rows_with_key(
                                rows@.take(i as int + 1),
                                keys@[m]@,
                            ) by {
                                prefix.lemma_filter_push(*row, keyed(keys@[m]@));
                                if m != j {
                                    assert(buckets@[m] == old_buckets[m]);
                                    if keyed(keys@[m]@)(*row) {
                                        if m < j {
                                            assert(keys@[m]@ != keys@[j as int]@);
                                        } else {
                                            assert(keys@[j as int]@ != keys@[m]@);
                                        }
                                    }
                                } else {
                                    assert(keyed(keys@[m]@)(*row));
                                    assert(nb@ =~= old_buckets[m]@.push(*row));
                                }
                            }
                        }
                    },
                    None => {
                        let mut b: Vec<HealthRow> = Vec::new();
                        b.push(row.clone());
                        let ghost old_keys = keys@;
                        keys.push(k);
                        buckets.push(b);
                        proof {
                            assert(!views_of(old_keys).contains(k@)) by {
                                if views_of(old_keys).contains(k@) {
                                    let w = choose|w: int| 0 <= w < views_of(old_keys).len() && views_of(old_keys)[w] == k@;
                                    assert(old_keys[w]@ != k@);
                                }
                            }
                            assert(views_of(keys@) =~= views_of(old_keys).push(k@));
                            assert forall|m: int| 0 <= m < keys@.len() implies (
                            #[trigger] buckets@[m])@ == rows_with_key(
                                rows@.take(i as int + 1),
                                keys@[m]@,
                            ) by {
                                prefix.lemma_filter_push(*row, keyed(keys@[m]@));
                                if m == keys@.len() - 1 {
                                    assert(rows_with_key(prefix, k@) =~= Seq::<HealthRow>::empty())
                                        by {
                                        lemma_unkeyed_rows(prefix, k@);
                                    }
                                    assert(buckets@[m]@ =~= seq![*row]);
                                }
                            }
                        }
                    },
                }
            },
        }
        i = i + 1;
    }
    proof {
        assert(rows@.take(rows@.len() as int) =~= rows@);
    }
    let ghost keep = |k: Seq<char>| possible_key(rows@, k);
    let ghost to_group = |k: Seq<char>| possible_group(rows@, k);
    let mut out: Vec<DuplicateGroup> = Vec::new();
    let mut j: usize = 0;
    proof {
        assert(views_of(keys@).take(0) =~= Seq::<Seq<char>>::empty());
        assert(group_views(out@) =~= views_of(keys@).take(0).filter(keep).map_values(to_group));
    }
    while j < keys.len()
        invariant
            j <= keys@.len(),
            buckets@.len() == keys@.len(),
            views_of(keys@) == first_keys(rows@),
            forall|m: int| 0 <= m < keys@.len() ==> (#[trigger] buckets@[m])@ == rows_with_key(rows@, keys@[m]@),
            keep == (|k: Seq<char>| possible_key(rows@, k)),
            to_group == (|k: Seq<char>| possible_group(rows@, k)),
            group_views(out@) == views_of(keys@).take(j as int).filter(keep).map_values(to_group),
            forall|m: int| 0 <= m < out@.len() ==> (#[trigger] out@[m]).tracks@.len() > 0,
            forall|m: int| 0 <= m < out@.len() ==> !(#[trigger] out@[m]).dismissed,
        decreases keys@.len() - j,
    {
        let bucket = &buckets[j];
        let ghost k = keys@[j as int]@;
        proof {
            assert(views_of(keys@).take(j as int + 1) =~= views_of(keys@).take(j as int).push(k));
            views_of(keys@).take(j as int).lemma_filter_push(k, keep);
        }
        if bucket.len() > 1 && mixed(bucket) {
            let mut tracks: Vec<DuplicateMember> = Vec::new();
            let mut t: usize = 0;
            while t < bucket.len()
                invariant
                    t <= bucket@.len(),
                    tracks@ == bucket@.take(t as int).map_values(|r: HealthRow| member_of(r)),
                decreases bucket@.len() - t,
            {
                tracks.push(member(bucket[t].clone()));
                proof {
                    assert(bucket@.take(t as int + 1).map_values(|r: HealthRow| member_of(r)) =~= bucket@.take(
                        t as int,
                    ).map_values(|r: HealthRow| member_of(r)).push(member_of(bucket@[t as int])));
                }
                t = t + 1;
            }
            proof {
                assert(bucket@.take(bucket@.len() as int) =~= bucket@);
            }
            let ghost before = out@;
            out.push(DuplicateGroup { key: keys[j].clone(), dismissed: false, tracks });
            proof {
                assert(group_views(out@) =~= group_views(before).push(to_group(k)));
            }
        } else {
            proof {
                assert(!keep(k));
            }
        }
        j = j + 1;
    }
    proof {
        assert(views_of(keys@).take(keys@.len() as int) =~= views_of(keys@));
    }
    let ghost unsorted = group_views(out@);
    sort_groups(&mut out);
    proof {
        assert forall|i: int| 0 <= i < out@.len() implies !(#[trigger] out@[i]).dismissed by {
            assert(unsorted.contains(group_views(out@)[i]));
        }
    }
    out
}

/// The characters of each string.
pub open spec fn views_of(v: Seq<String>) -> Seq<Seq<char>> {
    v.map_values(|s: String| s@)
}

/// No row before the first appearance of `k` has it.
proof fn lemma_unkeyed_rows(rows: Seq<HealthRow>, k: Seq<char>)
    requires
        !first_keys(rows).contains(k),
    ensures
        rows_with_key(rows, k) == Seq::<HealthRow>::empty(),
    decreases rows.len(),
{
    broadcast use vstd::seq::Seq::lemma_filter_push;

    if rows.len() > 0 {
        let init = rows.drop_last();
        assert(rows =~= init.push(rows.last()));
        assert(!first_keys(init).contains(k)) by {
            if first_keys(init).contains(k) {
                let w = choose|w: int| 0 <= w < first_keys(init).len() && first_keys(init)[w] == k;
                match title_key(rows.last()) {
                    Some(x) => {
                        if !first_keys(init).contains(x) {
                            assert(first_keys(rows)[w] == k);
                        }
                    },
                    None => {},
                }
            }
        }
        lemma_unkeyed_rows(init, k);
        init.lemma_filter_push(rows.last(), keyed(k));
        if title_key(rows.last()) == Some(k) {
            let ks = first_keys(init);
            if !ks.contains(k) {
                assert(first_keys(rows)[ks.len() as int] == k);
            }
        }
    }
}

/// Missing tracks, duplicates, and what the operator has already dismissed.
#[derive(Debug, PartialEq)]
pub struct HealthReport {
    pub missing: Vec<MissingTrack>,
    /// The operator has seen every track in `missing`.
    pub missing_dismissed: bool,
    pub exact: Vec<DuplicateGroup>,
    pub possible: Vec<DuplicateGroup>,
    /// Present tracks not fingerprinted yet, so not in any exact group.
    pub unhashed: i64,
    /// The latest library check, until a scan makes it moot.
    pub check: Option<CheckReport>,
    pub check_dismissed: bool,
}

impl Default for HealthReport {
    fn default() -> (r: HealthReport)
        ensures
            r.missing@.len() == 0,
            !r.missing_dismissed,
            r.exact@.len() == 0,
            r.possible@.len() == 0,
            r.unhashed == 0,
            r.check is None,
            !r.check_dismissed,
    {
        HealthReport {
            missing: Vec::new(),
            missing_dismissed: false,
            exact: Vec::new(),
            possible: Vec::new(),
            unhashed: 0,
            check: None,
            check_dismissed: false,
        }
    }
}

/// A missing row as the report lists it.
pub open spec fn missing_track_of(row: MissingRow, roots: Seq<Seq<char>>) -> MissingTrack {
    MissingTrack {
        id: row.id,
        title: row.title,
        artist: row.artist,
        path: row.path,
        missing_since: row.missing_since,
        play_count: row.play_count,
        has_cue_points: row.has_cue_points,
        outside_roots: !under_any(row.path@, roots),
    }
}

/// The value stored for the dismissal of `kind` and `key`: the last one, as
/// a map built from the list keeps it.
pub open spec fn dismissed_value(ds: Seq<Dismissal>, kind: Seq<char>, key: Seq<char>) -> Option<
    Seq<char>,
>
    decreases ds.len(),
{
    if ds.len() == 0 {
        None
    } else if ds.last().kind@ == kind && ds.last().key@ == key {
        Some(ds.last().value@)
    } else {
        dismissed_value(ds.drop_last(), kind, key)
    }
}

/// A group as listed: dismissed exactly when its dismissal recorded what it
/// looks like now.
pub open spec fn flagged(g: GroupView, ds: Seq<Dismissal>, kind: Seq<char>) -> GroupView {
    GroupView {
        key: g.key,
        dismissed: dismissed_value(ds, kind, g.key) == Some(spec_group_signature(g.tracks)),
        tracks: g.tracks,
    }
}

pub open spec fn all_flagged(gs: Seq<GroupView>, ds: Seq<Dismissal>, kind: Seq<char>) -> Seq<GroupView> {
    gs.map_values(|g: GroupView| flagged(g, ds, kind))
}

/// The missing list stays dismissed while nothing went missing after the
/// time its dismissal recorded.
pub open spec fn spec_missing_dismissed(missing: Seq<MissingRow>, ds: Seq<Dismissal>) -> bool {
    match dismissed_value(ds, FindingKind::Missing.spec_name(), Seq::empty()) {
        Some(v) => match parsed_i64(v) {
            Some(seen) => missing.len() > 0 && missing[0].missing_since <= seen,
            None => false,
        },
        None => false,
    }
}

/// The finding a dismissal is about still exists.
pub open spec fn is_live(
    kind: Seq<char>,
    key: Seq<char>,
    exact: Seq<GroupView>,
    possible: Seq<GroupView>,
    any_missing: bool,
) -> bool {
    ||| kind == FindingKind::Exact.spec_name() && exists|i: int| 0 <= i < exact.len() && (#[trigger] exact[i]).key == key
    ||| kind == FindingKind::Possible.spec_name() && exists|i: int| 0 <= i < possible.len() && (#[trigger] possible[i]).key == key
    ||| kind == FindingKind::Missing.spec_name() && key.len() == 0 && any_missing
}

fn stored_value<'a>(ds: &'a [Dismissal], kind: &str, key: &str) -> (r: Option<&'a String>)
    ensures
        match r {
            Some(v) => dismissed_value(ds@, kind@, key@) == Some(v@),
            None => dismissed_value(ds@, kind@, key@) is None,
        },
{
    let mut i: usize = ds.len();
    proof {
        assert(ds@.take(ds@.len() as int) =~= ds@);
    }
    while i > 0
        invariant
            i <= ds@.len(),
            dismissed_value(ds@, kind@, key@) == dismissed_value(ds@.take(i as int), kind@, key@),
        decreases i,
    {
        let d = &ds[i - 1];
        proof {
            assert(ds@.take(i as int).drop_last() =~= ds@.take(i - 1));
            assert(ds@.take(i as int).last() == *d);
        }
        if same_text(d.kind.as_str(), kind) && same_text(d.key.as_str(), key) {
            return Some(&d.value);
        }
        i = i - 1;
    }
    proof {
        assert(ds@.take(ds@.len() as int) =~= ds@);
    }
    None
}

fn flag_groups(groups: &mut Vec<DuplicateGroup>, ds: &[Dismissal], kind: FindingKind)
    ensures
        group_views(final(groups)@) == all_flagged(group_views(old(groups)@), ds@, kind.spec_name()),
        final(groups)@.len() == old(groups)@.len(),
{
    let ghost original = group_views(groups@);
    let mut out: Vec<DuplicateGroup> = Vec::new();
    let mut src: Vec<DuplicateGroup> = Vec::new();
    std::mem::swap(groups, &mut src);
    let mut rev: Vec<DuplicateGroup> = Vec::new();
    while src.len() > 0
        invariant
            group_views(src@) + group_views(rev@).reverse() == original,
        decreases src@.len(),
    {
        let ghost before = src@;
        let g = src.pop().unwrap();
        let ghost old_rev = rev@;
        rev.push(g);
        proof {
            assert(group_views(before) =~= group_views(src@).push(g@));
            assert(group_views(rev@).reverse() =~= seq![g@] + group_views(old_rev).reverse());
            assert(group_views(src@) + group_views(rev@).reverse() =~= group_views(before) + group_views(old_rev).reverse());
        }
    }
    proof {
        assert(group_views(src@) =~= Seq::<GroupView>::empty());
        assert(group_views(rev@).reverse() =~= original);
    }
    let name = kind.as_str();
    proof {
        assert(group_views(out@) =~= all_flagged(original.take(0), ds@, name@));
        assert(original.skip(0) =~= original);
    }
    while rev.len() > 0
        invariant
            original.len() == out@.len() + rev@.len(),
            group_views(rev@).reverse() == original.skip(out@.len() as int),
            group_views(out@) == all_flagged(original.take(out@.len() as int), ds@, name@),
            name@ == kind.spec_name(),
        decreases rev@.len(),
    {
        let ghost before = rev@;
        let ghost n = out@.len() as int;
        let mut g = rev.pop().unwrap();
        proof {
            assert(group_views(before) =~= group_views(rev@).push(g@));
            assert(group_views(before).reverse() =~= seq![g@] + group_views(rev@).reverse());
            assert(original.skip(n) =~= seq![original[n]] + original.skip(n + 1));
            assert(group_views(before).reverse()[0] == g@);
            assert(original.skip(n)[0] == original[n]);
            assert(g@ == original[n]);
            assert(group_views(rev@).reverse() =~= group_views(before).reverse().skip(1));
            assert(original.skip(n + 1) =~= original.skip(n).skip(1));
        }
        let sig = group_signature(&g);
        let stored = stored_value(ds, name, g.key.as_str());
        g.dismissed = match stored {
            Some(v) => same_text(v.as_str(), sig.as_str()),
            None => false,
        };
        let ghost ng = g@;
        let ghost prev = out@;
        out.push(g);
        proof {
            assert(ng == flagged(original[n], ds@, name@));
            assert(group_views(out@) =~= group_views(prev).push(ng));
            assert(original.take(n + 1) =~= original.take(n).push(original[n]));
            assert(all_flagged(original.take(n + 1), ds@, name@) =~= all_flagged(
                original.take(n),
                ds@,
                name@,
            ).push(flagged(original[n], ds@, name@)));
            assert(group_views(out@) =~= all_flagged(original.take(n + 1), ds@, name@));
        }
    }
    proof {
        assert(original.take(original.len() as int) =~= original);
    }
    *groups = out;
}

fn has_group_key(groups: &Vec<DuplicateGroup>, key: &str) -> (r: bool)
    ensures
        r == exists|i: int| 0 <= i < groups@.len() && (#[trigger] group_views(groups@)[i]).key == key@,
{
    let mut i: usize = 0;
    while i < groups.len()
        invariant
            i <= groups@.len(),
            forall|j: int| 0 <= j < i ==> (#[trigger] group_views(groups@)[j]).key != key@,
        decreases groups@.len() - i,
    {
        if same_text(groups[i].key.as_str(), key) {
            assert(group_views(groups@)[i as int].key == key@);
            return true;
        }
        i = i + 1;
    }
    false
}

fn live(
    kind: &str,
    key: &str,
    exact: &Vec<DuplicateGroup>,
    possible: &Vec<DuplicateGroup>,
    any_missing: bool,
) -> (r: bool)
    ensures
        r == is_live(kind@, key@, group_views(exact@), group_views(possible@), any_missing),
{
    let e = FindingKind::Exact.as_str();
    let p = FindingKind::Possible.as_str();
    let m = FindingKind::Missing.as_str();
    if same_text(kind, e) {
        has_group_key(exact, key)
    } else if same_text(kind, p) {
        has_group_key(possible, key)
    } else {
        same_text(kind, m) && key.is_empty() && any_missing
    }
}

/// The (kind, key) pairs of a list of dismissals.
pub open spec fn pair_views(v: Seq<(String, String)>) -> Seq<(Seq<char>, Seq<char>)> {
    v.map_values(|p: (String, String)| (p.0@, p.1@))
}

fn has_pair(v: &Vec<(String, String)>, kind: &str, key: &str) -> (r: bool)
    ensures
        r == pair_views(v@).contains((kind@, key@)),
{
    let mut i: usize = 0;
    while i < v.len()
        invariant
            i <= v@.len(),
            forall|j: int| 0 <= j < i ==> (#[trigger] pair_views(v@)[j]) != (kind@, key@),
        decreases v@.len() - i,
    {
        if same_text(v[i].0.as_str(), kind) && same_text(v[i].1.as_str(), key) {
            assert(pair_views(v@)[i as int] == (kind@, key@));
            return true;
        }
        i = i + 1;
    }
    false
}

/// The groups with their dismissed flags cleared.
pub open spec fn unflagged(gs: Seq<GroupView>) -> Seq<GroupView> {
    gs.map_values(|g: GroupView| GroupView { key: g.key, dismissed: false, tracks: g.tracks })
}

/// Dismissed findings that no longer exist.
pub open spec fn is_stale(
    ds: Seq<Dismissal>,
    pair: (Seq<char>, Seq<char>),
    exact: Seq<GroupView>,
    possible: Seq<GroupView>,
    any_missing: bool,
) -> bool {
    &&& exists|i: int| 0 <= i < ds.len() && (#[trigger] ds[i]).kind@ == pair.0 && ds[i].key@ == pair.1
    &&& !is_live(pair.0, pair.1, exact, possible, any_missing)
}

/// Build the report from what the library holds: `missing` newest first,
/// `twins` ordered by fingerprint, `tagged` the present music, and the
/// stored `dismissals`. Also returns the dismissals whose finding is gone,
/// which the caller forgets.
pub fn build(
    missing: &[MissingRow],
    roots: &[ScanRoot],
    twins: &[HealthRow],
    tagged: &[HealthRow],
    dismissals: &[Dismissal],
    unhashed: i64,
) -> (r: (HealthReport, Vec<(String, String)>))
    ensures
        r.0.missing@ == missing@.map_values(|m: MissingRow| missing_track_of(m, root_paths(roots@))),
        unflagged(group_views(r.0.exact@)).to_multiset() == runs(twins@).to_multiset(),
        group_views(r.0.exact@) == all_flagged(
            unflagged(group_views(r.0.exact@)),
            dismissals@,
            FindingKind::Exact.spec_name(),
        ),
        sorted_groups(group_views(r.0.exact@)),
        unflagged(group_views(r.0.possible@)).to_multiset() == possible_spec(tagged@).to_multiset(),
        group_views(r.0.possible@) == all_flagged(
            unflagged(group_views(r.0.possible@)),
            dismissals@,
            FindingKind::Possible.spec_name(),
        ),
        sorted_groups(group_views(r.0.possible@)),
        r.0.missing_dismissed == spec_missing_dismissed(missing@, dismissals@),
        r.0.unhashed == unhashed,
        r.0.check is None,
        !r.0.check_dismissed,
        pair_views(r.1@).no_duplicates(),
        forall|pair: (Seq<char>, Seq<char>)|
            pair_views(r.1@).contains(pair) <==> is_stale(
                dismissals@,
                pair,
                group_views(r.0.exact@),
                group_views(r.0.possible@),
                missing@.len() > 0,
            ),
{
    let mut listed: Vec<MissingTrack> = Vec::new();
    let ghost to_track = |m: MissingRow| missing_track_of(m, root_paths(roots@));
    let mut i: usize = 0;
    while i < missing.len()
        invariant
            i <= missing@.len(),
            to_track == (|m: MissingRow| missing_track_of(m, root_paths(roots@))),
            listed@ == missing@.take(i as int).map_values(to_track),
        decreases missing@.len() - i,
    {
        let row = &missing[i];
        let outside = !within_any_root(row.path.as_str(), roots);
        listed.push(
            MissingTrack {
                id: row.id,
                title: row.title.clone(),
                artist: row.artist.clone(),
                path: row.path.clone(),
                missing_since: row.missing_since,
                play_count: row.play_count,
                has_cue_points: row.has_cue_points,
                outside_roots: outside,
            },
        );
        proof {
            assert(missing@.take(i as int + 1) =~= missing@.take(i as int).push(*row));
            assert(listed@ =~= missing@.take(i as int + 1).map_values(to_track));
        }
        i = i + 1;
    }
    proof {
        assert(missing@.take(missing@.len() as int) =~= missing@);
    }

    let mut exact = exact_groups(twins);
    let ghost exact_plain = group_views(exact@);
    flag_groups(&mut exact, dismissals, FindingKind::Exact);
    let mut possible = possible_groups(tagged);
    let ghost possible_plain = group_views(possible@);
    flag_groups(&mut possible, dismissals, FindingKind::Possible);
    proof {
        lemma_runs_nonempty(twins@);
        lemma_unflag_flagged(exact_plain, dismissals@, FindingKind::Exact.spec_name());
        lemma_possible_unflagged(tagged@);
        lemma_unflag_flagged(possible_plain, dismissals@, FindingKind::Possible.spec_name());
        lemma_flagging_keeps_order(exact_plain, dismissals@, FindingKind::Exact.spec_name());
        lemma_flagging_keeps_order(possible_plain, dismissals@, FindingKind::Possible.spec_name());
    }

    let missing_name = FindingKind::Missing.as_str();
    let missing_dismissed = match stored_value(dismissals, missing_name, "") {
        Some(v) => match parse_i64(v.as_str()) {
            Some(seen) => missing.len() > 0 && missing[0].missing_since <= seen,
            None => false,
        },
        None => false,
    };
    proof {
        reveal_strlit("");
        assert(""@ =~= Seq::<char>::empty());
    }

    let any_missing = missing.len() > 0;
    let mut stale: Vec<(String, String)> = Vec::new();
    let mut d: usize = 0;
    while d < dismissals.len()
        invariant
            d <= dismissals@.len(),
            pair_views(stale@).no_duplicates(),
            forall|pair: (Seq<char>, Seq<char>)|
                pair_views(stale@).contains(pair) <==> is_stale(
                    dismissals@.take(d as int),
                    pair,
                    group_views(exact@),
                    group_views(possible@),
                    any_missing,
                ),
        decreases dismissals@.len() - d,
    {
        let x = &dismissals[d];
        let ghost prefix = dismissals@.take(d as int);
        proof {
            assert(dismissals@.take(d as int + 1) =~= prefix.push(*x));
        }
        let is_on = live(x.kind.as_str(), x.key.as_str(), &exact, &possible, any_missing);
        let ghost prev = stale@;
        let pushed = !is_on && !has_pair(&stale, x.kind.as_str(), x.key.as_str());
        if pushed {
            stale.push((x.kind.clone(), x.key.clone()));
            proof {
                assert(pair_views(stale@) =~= pair_views(prev).push((x.kind@, x.key@)));
                assert(pair_views(stale@).no_duplicates());
            }
        }
        proof {
            let ps = pair_views(stale@);
            let ex = group_views(exact@);
            let po = group_views(possible@);
            let longer = dismissals@.take(d as int + 1);
            let xp = (x.kind@, x.key@);
            assert(longer[d as int] == *x);
            assert forall|pair: (Seq<char>, Seq<char>)| #[trigger] ps.contains(pair) <==> is_stale(
                longer,
                pair,
                ex,
                po,
                any_missing,
            ) by {
                let now = is_stale(longer, pair, ex, po, any_missing);
                let then = is_stale(prefix, pair, ex, po, any_missing);
                assert(pair_views(prev).contains(pair) == then);
                if pushed {
                    assert(ps.contains(pair) == (pair_views(prev).contains(pair) || pair == xp)) by {
                        if pair == xp {
                            assert(ps[ps.len() - 1] == xp);
                        }
                        if ps.contains(pair) && pair != xp {
                            let w = choose|w: int| 0 <= w < ps.len() && ps[w] == pair;
                            assert(pair_views(prev)[w] == pair);
                        }
                        if pair_views(prev).contains(pair) {
                            let w = choose|w: int| 0 <= w < pair_views(prev).len() && pair_views(prev)[w] == pair;
                            assert(ps[w] == pair);
                        }
                    }
                } else {
                    assert(ps == pair_views(prev));
                }
                if then {
                    let w = choose|w: int| 0 <= w < prefix.len() && (#[trigger] prefix[w]).kind@ == pair.0 && prefix[w].key@ == pair.1;
                    assert(longer[w] == prefix[w]);
                }
                if now && !then {
                    let w = choose|w: int| 0 <= w < longer.len() && (#[trigger] longer[w]).kind@ == pair.0 && longer[w].key@ == pair.1;
                    if w < d {
                        assert(prefix[w] == longer[w]);
                    }
                    assert(pair == xp);
                }
                if pair == xp && !is_live(pair.0, pair.1, ex, po, any_missing) {
                    assert(now);
                }
            }
        }
        d = d + 1;
    }
    proof {
        assert(dismissals@.take(dismissals@.len() as int) =~= dismissals@);
    }

    let report = HealthReport {
        missing: listed,
        missing_dismissed,
        exact,
        possible,
        unhashed,
        check: None,
        check_dismissed: false,
    };
    (report, stale)
}

proof fn lemma_unflag_flagged(gs: Seq<GroupView>, ds: Seq<Dismissal>, kind: Seq<char>)
    requires
        forall|i: int| 0 <= i < gs.len() ==> !(#[trigger] gs[i]).dismissed,
    ensures
        unflagged(all_flagged(gs, ds, kind)) == gs,
        all_flagged(unflagged(all_flagged(gs, ds, kind)), ds, kind) == all_flagged(gs, ds, kind),
{
    assert(unflagged(all_flagged(gs, ds, kind)) =~= gs);
}

proof fn lemma_flagging_keeps_order(gs: Seq<GroupView>, ds: Seq<Dismissal>, kind: Seq<char>)
    requires
        sorted_groups(gs),
    ensures
        sorted_groups(all_flagged(gs, ds, kind)),
{
    let f = all_flagged(gs, ds, kind);
    assert forall|i: int, j: int| 0 <= i < j < f.len() implies order_le(
        group_order(#[trigger] f[i]),
        group_order(#[trigger] f[j]),
    ) by {
        assert(order_le(group_order(gs[i]), group_order(gs[j])));
    }
}

proof fn lemma_possible_unflagged(rows: Seq<HealthRow>)
    ensures
        forall|i: int| 0 <= i < possible_spec(rows).len() ==> !(#[trigger] possible_spec(rows)[i]).dismissed,
{
}

/// What dismissing a finding records.
#[derive(Debug, PartialEq)]
pub enum Dismissed {
    /// The signature of the library check dismissed; kept in memory only.
    Check(u64),
    /// A dismissal to store.
    Stored(Dismissal),
}

/// Why a finding cannot be dismissed.
#[derive(Clone, Copy, Debug, PartialEq, Eq, Structural)]
pub enum DismissError {
    NoCheck,
    NoMissing,
    NoGroup,
}

impl DismissError {
    /// What the operator is told.
    pub open spec fn spec_message(self) -> Seq<char> {
        match self {
            DismissError::NoCheck => "there is no library check to dismiss"@,
            DismissError::NoMissing => "no missing tracks to dismiss"@,
            DismissError::NoGroup => "that duplicate group no longer exists"@,
        }
    }

    pub fn message(&self) -> (m: &'static str)
        ensures
            m@ == self.spec_message(),
    {
        match self {
            DismissError::NoCheck => "there is no library check to dismiss",
            DismissError::NoMissing => "no missing tracks to dismiss",
            DismissError::NoGroup => "that duplicate group no longer exists",
        }
    }
}

/// The first group keyed `key`.
pub open spec fn group_at(gs: Seq<GroupView>, key: Seq<char>) -> Option<GroupView>
    decreases gs.len(),
{
    if gs.len() == 0 {
        None
    } else if gs[0].key == key {
        Some(gs[0])
    } else {
        group_at(gs.drop_first(), key)
    }
}

/// What dismissing `kind` and `key` records against `report` and the
/// current library `check`: the check's signature; the newest missing time;
/// or the signature of the first group with that key.
pub open spec fn spec_dismissal(
    report: HealthReport,
    check: Option<CheckReport>,
    kind: FindingKind,
    key: Seq<char>,
) -> Result<(Option<u64>, Seq<char>, Seq<char>, Seq<char>), DismissError> {
    match kind {
        FindingKind::Check => match check {
            Some(c) => Ok((Some(spec_signature(c)), Seq::empty(), Seq::empty(), Seq::empty())),
            None => Err(DismissError::NoCheck),
        },
        FindingKind::Missing => if report.missing@.len() > 0 {
            Ok((None, kind.spec_name(), Seq::empty(), decimal(report.missing@[0].missing_since as int)))
        } else {
            Err(DismissError::NoMissing)
        },
        _ => {
            let groups = if kind == FindingKind::Exact {
                group_views(report.exact@)
            } else {
                group_views(report.possible@)
            };
            match group_at(groups, key) {
                Some(g) => Ok((None, kind.spec_name(), key, spec_group_signature(g.tracks))),
                None => Err(DismissError::NoGroup),
            }
        },
    }
}

/// `d` as the tuple `spec_dismissal` speaks in.
pub open spec fn dismissed_view(d: Dismissed) -> (Option<u64>, Seq<char>, Seq<char>, Seq<char>) {
    match d {
        Dismissed::Check(sig) => (Some(sig), Seq::empty(), Seq::empty(), Seq::empty()),
        Dismissed::Stored(x) => (None, x.kind@, x.key@, x.value@),
    }
}

fn find_group<'a>(groups: &'a Vec<DuplicateGroup>, key: &str) -> (r: Option<&'a DuplicateGroup>)
    ensures
        match r {
            Some(g) => group_at(group_views(groups@), key@) == Some(g@),
            None => group_at(group_views(groups@), key@) is None,
        },
{
    let mut i: usize = 0;
    proof {
        assert(group_views(groups@).skip(0) =~= group_views(groups@));
    }
    while i < groups.len()
        invariant
            i <= groups@.len(),
            group_at(group_views(groups@), key@) == group_at(group_views(groups@).skip(i as int), key@),
        decreases groups@.len() - i,
    {
        proof {
            assert(group_views(groups@).skip(i as int).drop_first() =~= group_views(groups@).skip(i as int + 1));
            assert(group_views(groups@).skip(i as int)[0] == groups@[i as int]@);
        }
        if same_text(groups[i].key.as_str(), key) {
            return Some(&groups[i]);
        }
        i = i + 1;
    }
    None
}

/// What a dismissal of the missing list records: when its newest track went
/// missing (`missing` is sorted newest first), or nothing for an empty list.
pub fn missing_signature(missing: &Vec<MissingTrack>) -> (r: Option<String>)
    ensures
        missing@.len() == 0 ==> r is None,
        missing@.len() > 0 ==> (r matches Some(v) && v@ == decimal(missing@[0].missing_since as int)),
{
    if missing.len() > 0 {
        Some(decimal_text(missing[0].missing_since))
    } else {
        None
    }
}

/// What dismissing the finding `kind` / `key` records, or why it cannot be
/// dismissed.
pub fn dismissal(
    report: &HealthReport,
    check: &Option<CheckReport>,
    kind: FindingKind,
    key: &str,
) -> (r: Result<Dismissed, DismissError>)
    ensures
        match r {
            Ok(d) => spec_dismissal(*report, *check, kind, key@) == Ok::<
                (Option<u64>, Seq<char>, Seq<char>, Seq<char>),
                DismissError,
            >(dismissed_view(d)),
            Err(e) => spec_dismissal(*report, *check, kind, key@) == Err::<
                (Option<u64>, Seq<char>, Seq<char>, Seq<char>),
                DismissError,
            >(e),
        },
{
    match kind {
        FindingKind::Check => match check {
            Some(c) => Ok(Dismissed::Check(c.signature())),
            None => Err(DismissError::NoCheck),
        },
        FindingKind::Missing => {
            if let Some(value) = missing_signature(&report.missing) {
                let kind_name = kind.as_str();
                Ok(
                    Dismissed::Stored(
                        Dismissal { kind: kind_name.to_owned(), key: String::new(), value },
                    ),
                )
            } else {
                Err(DismissError::NoMissing)
            }
        },
        _ => {
            let groups = if kind == FindingKind::Exact {
                &report.exact
            } else {
                &report.possible
            };
            match find_group(groups, key) {
                Some(g) => {
                    let value = group_signature(g);
                    let kind_name = kind.as_str();
                    Ok(
                        Dismissed::Stored(
                            Dismissal { kind: kind_name.to_owned(), key: key.to_owned(), value },
                        ),
                    )
                },
                None => Err(DismissError::NoGroup),
            }
        },
    }
}

/// Whether the operator dismissed the library check `check` as it stands:
/// `dismissed` holds the signature of the report they dismissed.
pub open spec fn spec_check_dismissed(check: Option<CheckReport>, dismissed: Option<u64>) -> bool {
    check matches Some(c) && dismissed == Some(spec_signature(c))
}

pub fn check_is_dismissed(check: &Option<CheckReport>, dismissed: Option<u64>) -> (r: bool)
    ensures
        r == spec_check_dismissed(*check, dismissed),
{
    match check {
        Some(c) => match dismissed {
            Some(s) => s == c.signature(),
            None => false,
        },
        None => false,
    }
}

/// A dismissed library check stays dismissed when a later check finds the
/// same things, whenever it ran.
pub proof fn a_dismissed_check_stays_dismissed_while_its_findings_stand(
    dismissed: CheckReport,
    later: CheckReport,
)
    requires
        views(dismissed.new@) == views(later.new@),
        views(dismissed.changed@) == views(later.changed@),
        views(dismissed.gone@) == views(later.gone@),
        views(dismissed.unrooted@) == views(later.unrooted@),
        views(dismissed.unreachable@) == views(later.unreachable@),
        views(dismissed.partial@) == views(later.partial@),
    ensures
        spec_check_dismissed(Some(later), Some(spec_signature(dismissed))),
{
    signature_ignores_when_the_check_ran(dismissed, later);
}

/// A missing list dismissed when its newest track went missing at `seen`
/// stays dismissed until a track goes missing after that.
pub proof fn missing_dismissal_lasts_until_something_newer_goes_missing(
    missing: Seq<MissingRow>,
    ds: Seq<Dismissal>,
    seen: i64,
)
    requires
        dismissed_value(ds, FindingKind::Missing.spec_name(), Seq::empty()) == Some(
            decimal(seen as int),
        ),
    ensures
        spec_missing_dismissed(missing, ds) == (missing.len() > 0 && missing[0].missing_since
            <= seen),
{
    lemma_decimal_round_trip(seen);
}

/// A group dismissed as it looked then is shown dismissed while its tracks
/// are the same ones.
pub proof fn a_dismissed_group_stays_dismissed(g: GroupView, ds: Seq<Dismissal>, kind: Seq<char>)
    requires
        dismissed_value(ds, kind, g.key) == Some(spec_group_signature(g.tracks)),
    ensures
        flagged(g, ds, kind).dismissed,
{
}

/// Groups whose tracks differ have different signatures, so a dismissed
/// group lights again when a track joins or leaves it.
pub proof fn a_changed_group_lights_again(a: Seq<DuplicateMember>, b: Seq<DuplicateMember>)
    requires
        member_ids(a).to_multiset() != member_ids(b).to_multiset(),
    ensures
        spec_group_signature(a) != spec_group_signature(b),
{
    lemma_id_le_total();
    member_ids(a).lemma_sort_by_ensures(id_le());
    member_ids(b).lemma_sort_by_ensures(id_le());
    let sa = member_ids(a).sort_by(id_le());
    let sb = member_ids(b).sort_by(id_le());
    if joined_ids(sa) == joined_ids(sb) {
        lemma_joined_ids_injective(sa, sb);
    }
}

proof fn lemma_decimal_has_no_comma(n: int)
    ensures
        !decimal(n).contains(','),
        decimal(n).len() > 0,
{
    let m: nat = if n < 0 {
        (-n) as nat
    } else {
        n as nat
    };
    lemma_digits_no_comma(m);
    if n < 0 {
        let d = seq!['-'] + digits(m);
        assert forall|i: int| 0 <= i < d.len() implies d[i] != ',' by {
            if i > 0 {
                assert(d[i] == digits(m)[i - 1]);
            }
        }
    }
}

proof fn lemma_digits_no_comma(m: nat)
    ensures
        !digits(m).contains(','),
        digits(m).len() > 0,
    decreases m,
{
    let c = ((48 + m % 10) as u32) as char;
    assert(c as u32 == 48 + m % 10);
    if m >= 10 {
        lemma_digits_no_comma(m / 10);
        let d = digits(m);
        assert forall|i: int| 0 <= i < d.len() implies d[i] != ',' by {
            if i < d.len() - 1 {
                assert(d[i] == digits(m / 10)[i]);
            }
        }
    }
}

proof fn lemma_decimal_injective(x: int, y: int)
    requires
        i64::MIN <= x <= i64::MAX,
        i64::MIN <= y <= i64::MAX,
        decimal(x) == decimal(y),
    ensures
        x == y,
{
    lemma_decimal_round_trip(x as i64);
    lemma_decimal_round_trip(y as i64);
}

proof fn lemma_joined_ids_injective(a: Seq<i64>, b: Seq<i64>)
    requires
        joined_ids(a) == joined_ids(b),
    ensures
        a == b,
    decreases a.len() + b.len(),
{
    if a.len() == 0 || b.len() == 0 {
        if a.len() > 0 {
            lemma_joined_nonempty(a);
        }
        if b.len() > 0 {
            lemma_joined_nonempty(b);
        }
        assert(a =~= b);
    } else {
        let ja = joined_ids(a);
        if a.len() == 1 && b.len() == 1 {
            lemma_decimal_injective(a[0] as int, b[0] as int);
            assert(a =~= b);
        } else if a.len() == 1 {
            lemma_decimal_has_no_comma(a[0] as int);
            let p = joined_ids(b.drop_last());
            assert(joined_ids(b)[p.len() as int] == ',');
            assert(ja.contains(','));
        } else if b.len() == 1 {
            lemma_decimal_has_no_comma(b[0] as int);
            let p = joined_ids(a.drop_last());
            assert(joined_ids(a)[p.len() as int] == ',');
            assert(joined_ids(b).contains(','));
        } else {
            let pa = joined_ids(a.drop_last());
            let pb = joined_ids(b.drop_last());
            let da = decimal(a.last() as int);
            let db = decimal(b.last() as int);
            lemma_decimal_has_no_comma(a.last() as int);
            lemma_decimal_has_no_comma(b.last() as int);
            let whole = ja;
            assert(whole =~= pa + seq![','] + da);
            assert(whole =~= pb + seq![','] + db);
            if da.len() < db.len() {
                let k = whole.len() - da.len() - 1;
                assert(whole[k] == ',');
                assert(db[k - pb.len() - 1] == whole[k]);
            } else if db.len() < da.len() {
                let k = whole.len() - db.len() - 1;
                assert(whole[k] == ',');
                assert(da[k - pa.len() - 1] == whole[k]);
            }
            assert(da =~= whole.subrange(whole.len() - da.len(), whole.len() as int));
            assert(db =~= whole.subrange(whole.len() - db.len(), whole.len() as int));
            assert(pa =~= whole.subrange(0, pa.len() as int));
            assert(pb =~= whole.subrange(0, pb.len() as int));
            lemma_decimal_injective(a.last() as int, b.last() as int);
            lemma_joined_ids_injective(a.drop_last(), b.drop_last());
            assert(a =~= a.drop_last().push(a.last()));
            assert(b =~= b.drop_last().push(b.last()));
        }
    }
}

proof fn lemma_joined_nonempty(a: Seq<i64>)
    requires
        a.len() > 0,
    ensures
        joined_ids(a).len() > 0,
    decreases a.len(),
{
    lemma_decimal_has_no_comma(a.last() as int);
    if a.len() == 1 {
        lemma_decimal_has_no_comma(a[0] as int);
    }
}

/// The keys of `rows` are listed once each, and every key a row has is
/// listed.
proof fn lemma_first_keys(rows: Seq<HealthRow>)
    ensures
        first_keys(rows).no_duplicates(),
        forall|i: int|
            0 <= i < rows.len() && (#[trigger] title_key(rows[i])) is Some ==> first_keys(
                rows,
            ).contains(title_key(rows[i])->0),
        forall|k: Seq<char>| #[trigger] first_keys(rows).contains(k) ==> exists|i: int|
            0 <= i < rows.len() && title_key(rows[i]) == Some(k),
    decreases rows.len(),
{
    if rows.len() > 0 {
        let init = rows.drop_last();
        lemma_first_keys(init);
        let ks = first_keys(init);
        assert forall|i: int|
            0 <= i < rows.len() && (#[trigger] title_key(rows[i])) is Some implies first_keys(
                rows,
            ).contains(title_key(rows[i])->0) by {
            if i < rows.len() - 1 {
                assert(rows[i] == init[i]);
                let w = choose|w: int| 0 <= w < ks.len() && ks[w] == title_key(init[i])->0;
                assert(first_keys(rows)[w] == ks[w]);
            } else if !ks.contains(title_key(rows[i])->0) {
                assert(first_keys(rows)[ks.len() as int] == title_key(rows[i])->0);
            }
        }
        assert forall|k: Seq<char>| #[trigger] first_keys(rows).contains(k) implies exists|i: int|
            0 <= i < rows.len() && title_key(rows[i]) == Some(k) by {
            let w = choose|w: int| 0 <= w < first_keys(rows).len() && first_keys(rows)[w] == k;
            if w < ks.len() {
                assert(ks[w] == k);
                assert(ks.contains(k));
                let i = choose|i: int| 0 <= i < init.len() && title_key(init[i]) == Some(k);
                assert(rows[i] == init[i]);
            } else {
                assert(title_key(rows[rows.len() - 1]) == Some(k));
            }
        }
    }
}

/// Each possible group holds every row of its key, its key is shared by
/// more than one row not all of one fingerprint, no key is listed twice, and
/// every such key is listed.
pub proof fn possible_groups_gather_every_row_of_a_key(rows: Seq<HealthRow>)
    ensures
        forall|i: int|
            0 <= i < possible_spec(rows).len() ==> {
                let g = #[trigger] possible_spec(rows)[i];
                &&& possible_key(rows, g.key)
                &&& g.tracks == rows_with_key(rows, g.key).map_values(|r: HealthRow| member_of(r))
            },
        forall|i: int, j: int|
            0 <= i < j < possible_spec(rows).len() ==> (#[trigger] possible_spec(rows)[i]).key
                != (#[trigger] possible_spec(rows)[j]).key,
        forall|i: int|
            0 <= i < rows.len() && (#[trigger] title_key(rows[i])) is Some && possible_key(
                rows,
                title_key(rows[i])->0,
            ) ==> exists|j: int|
                0 <= j < possible_spec(rows).len() && (#[trigger] possible_spec(rows)[j]).key
                    == title_key(rows[i])->0,
{
    lemma_first_keys(rows);
    let keep = |k: Seq<char>| possible_key(rows, k);
    let ks = first_keys(rows);
    let kept = ks.filter(keep);
    broadcast use vstd::seq_lib::group_filter_ensures;
    assert forall|i: int| 0 <= i < possible_spec(rows).len() implies {
        let g = #[trigger] possible_spec(rows)[i];
        &&& possible_key(rows, g.key)
        &&& g.tracks == rows_with_key(rows, g.key).map_values(|r: HealthRow| member_of(r))
    } by {
        assert(possible_spec(rows)[i] == possible_group(rows, kept[i]));
        assert(keep(kept[i]));
    }
    lemma_filter_keeps_distinct(ks, keep);
    assert forall|i: int, j: int| 0 <= i < j < possible_spec(rows).len() implies (
    #[trigger] possible_spec(rows)[i]).key != (#[trigger] possible_spec(rows)[j]).key by {
        assert(possible_spec(rows)[i].key == kept[i]);
        assert(possible_spec(rows)[j].key == kept[j]);
    }
    assert forall|i: int|
        0 <= i < rows.len() && (#[trigger] title_key(rows[i])) is Some && possible_key(
            rows,
            title_key(rows[i])->0,
        ) implies exists|j: int|
        0 <= j < possible_spec(rows).len() && (#[trigger] possible_spec(rows)[j]).key == title_key(
            rows[i],
        )->0 by {
        let k = title_key(rows[i])->0;
        assert(ks.contains(k));
        assert(kept.contains(k));
        let j = choose|j: int| 0 <= j < kept.len() && kept[j] == k;
        assert(possible_spec(rows)[j].key == k);
    }
}

proof fn lemma_filter_keeps_distinct(s: Seq<Seq<char>>, p: spec_fn(Seq<char>) -> bool)
    requires
        s.no_duplicates(),
    ensures
        s.filter(p).no_duplicates(),
    decreases s.len(),
{
    broadcast use vstd::seq::Seq::lemma_filter_push;

    if s.len() > 0 {
        let init = s.drop_last();
        assert(s =~= init.push(s.last()));
        assert(init.no_duplicates()) by {
            assert forall|i: int, j: int| 0 <= i < j < init.len() implies init[i] != init[j] by {
                assert(s[i] == init[i] && s[j] == init[j]);
            }
        }
        lemma_filter_keeps_distinct(init, p);
        if p(s.last()) {
            assert(!init.filter(p).contains(s.last())) by {
                if init.filter(p).contains(s.last()) {
                    init.lemma_filter_contains_rev(p, s.last());
                    let v = choose|v: int| 0 <= v < init.len() && init[v] == s.last();
                    assert(s[v] == s[s.len() - 1]);
                }
            }
        }
    }
}

/// Whether some group of `groups` has key `key`.
pub open spec fn lists_key(groups: Seq<GroupView>, key: Seq<char>) -> bool {
    exists|i: int| 0 <= i < groups.len() && (#[trigger] groups[i]).key == key
}

/// A dismissal of a duplicate group the report still lists is never given
/// back as stale, so the group stays dismissed; one of a group the report no
/// longer lists is.
pub proof fn a_dismissal_is_stale_exactly_when_its_group_is_gone(
    ds: Seq<Dismissal>,
    exact: Seq<GroupView>,
    possible: Seq<GroupView>,
    any_missing: bool,
    key: Seq<char>,
)
    ensures
        lists_key(exact, key) ==> !is_stale(ds, (FindingKind::Exact.spec_name(), key), exact, possible, any_missing),
        lists_key(possible, key) ==> !is_stale(
            ds,
            (FindingKind::Possible.spec_name(), key),
            exact,
            possible,
            any_missing,
        ),
        (!lists_key(exact, key) && exists|i: int|
            0 <= i < ds.len() && (#[trigger] ds[i]).kind@ == FindingKind::Exact.spec_name() && ds[i].key@ == key)
            ==> is_stale(ds, (FindingKind::Exact.spec_name(), key), exact, possible, any_missing),
        (!lists_key(possible, key) && exists|i: int|
            0 <= i < ds.len() && (#[trigger] ds[i]).kind@ == FindingKind::Possible.spec_name() && ds[i].key@ == key)
            ==> is_stale(ds, (FindingKind::Possible.spec_name(), key), exact, possible, any_missing),
        (exists|i: int|
            0 <= i < ds.len() && (#[trigger] ds[i]).kind@ == FindingKind::Missing.spec_name() && ds[i].key@
                == Seq::<char>::empty()) ==> (is_stale(
            ds,
            (FindingKind::Missing.spec_name(), Seq::empty()),
            exact,
            possible,
            any_missing,
        ) <==> !any_missing),
{
    assert(FindingKind::Exact.spec_name() != FindingKind::Possible.spec_name()) by {
        assert(FindingKind::Exact.spec_name()[0] != FindingKind::Possible.spec_name()[0]);
    }
    assert(FindingKind::Exact.spec_name() != FindingKind::Missing.spec_name()) by {
        assert(FindingKind::Exact.spec_name()[0] != FindingKind::Missing.spec_name()[0]);
    }
    assert(FindingKind::Possible.spec_name() != FindingKind::Missing.spec_name()) by {
        assert(FindingKind::Possible.spec_name()[0] != FindingKind::Missing.spec_name()[0]);
    }
}

/// Whether every row of `rows` has the fingerprint `f`.
pub open spec fn all_fingerprinted(rows: Seq<HealthRow>, f: Seq<char>) -> bool {
    forall|i: int| 0 <= i < rows.len() ==> opt_view(#[trigger] rows[i].fingerprint) == Some(f)
}

proof fn lemma_mixed_is_no_common_fingerprint(rows: Seq<HealthRow>)
    requires
        rows.len() > 0,
    ensures
        mixed_fingerprints(rows) <==> !(exists|f: Seq<char>| all_fingerprinted(rows, f)),
{
    if mixed_fingerprints(rows) {
        assert forall|f: Seq<char>| !all_fingerprinted(rows, f) by {
            if all_fingerprinted(rows, f) {
                assert(opt_view(rows[0].fingerprint) == Some(f));
                if rows[0].fingerprint is Some {
                    let i = choose|i: int|
                        0 <= i < rows.len() && opt_view(#[trigger] rows[i].fingerprint) != opt_view(
                            rows[0].fingerprint,
                        );
                    assert(opt_view(rows[i].fingerprint) == Some(f));
                }
            }
        }
    } else {
        let f = opt_view(rows[0].fingerprint)->0;
        assert forall|i: int| 0 <= i < rows.len() implies opt_view(#[trigger] rows[i].fingerprint) == Some(f) by {
            assert(opt_view(rows[i].fingerprint) == opt_view(rows[0].fingerprint));
        }
        assert(all_fingerprinted(rows, f));
    }
}

/// Copies of one song, by artist and title, are reported as a possible
/// duplicate group exactly when there are at least two and they do not all
/// carry one same fingerprint: copies without fingerprints are reported, and
/// copies that all share one are left to the exact groups.
pub proof fn copies_without_one_shared_fingerprint_make_a_possible_group(rows: Seq<HealthRow>, k: Seq<char>)
    ensures
        lists_key(possible_spec(rows), k) <==> (rows_with_key(rows, k).len() > 1 && !(exists|f: Seq<char>|
            all_fingerprinted(rows_with_key(rows, k), f))),
{
    broadcast use vstd::seq_lib::group_filter_ensures;

    let rs = rows_with_key(rows, k);
    possible_groups_gather_every_row_of_a_key(rows);
    if rs.len() > 0 {
        lemma_mixed_is_no_common_fingerprint(rs);
    }
    if lists_key(possible_spec(rows), k) {
        let j = choose|j: int| 0 <= j < possible_spec(rows).len() && (#[trigger] possible_spec(rows)[j]).key == k;
        assert(possible_key(rows, possible_spec(rows)[j].key));
    }
    if rs.len() > 1 && !(exists|f: Seq<char>| all_fingerprinted(rs, f)) {
        assert(possible_key(rows, k));
        assert(keyed(k)(rs[0]));
        assert(rs.contains(rs[0]));
        rows.lemma_filter_contains_rev(keyed(k), rs[0]);
        let i = choose|i: int| 0 <= i < rows.len() && rows[i] == rs[0];
        assert(title_key(rows[i]) == Some(k));
        let j = choose|j: int| 0 <= j < possible_spec(rows).len() && (#[trigger] possible_spec(rows)[j]).key
            == title_key(rows[i])->0;
        assert(possible_spec(rows)[j].key == k);
    }
}

} // verus!
