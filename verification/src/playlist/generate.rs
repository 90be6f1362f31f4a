//! Picking auto-playlist material: the jingle/commercial cadence, the even
//! spread of station material across a block, and the rotation rules music
//! selection works under.

use std::collections::HashSet;
use vstd::prelude::*;

use crate::library::db::{artist_key, spec_artist_key, SelectionFilter};
use crate::persist::config::TuningConfig;
use crate::playlist::model::Track;
use crate::text::{same_text, sort_texts, sorted_text, text_le, views};

verus! {

broadcast use vstd::std_specs::hash::group_hash_axioms;

/// The three kinds of library material.
#[derive(Clone, Copy, Debug, PartialEq, Eq, Structural)]
pub enum ContentType {
    Music,
    Jingle,
    Commercial,
}

impl ContentType {
    /// The name a content type is stored and configured under.
    pub open spec fn spec_name(self) -> Seq<char> {
        match self {
            ContentType::Music => seq!['m', 'u', 's', 'i', 'c'],
            ContentType::Jingle => seq!['j', 'i', 'n', 'g', 'l', 'e'],
            ContentType::Commercial => seq!['c', 'o', 'm', 'm', 'e', 'r', 'c', 'i', 'a', 'l'],
        }
    }

    /// The lower-case name: `music`, `jingle` or `commercial`.
    pub fn as_str(&self) -> (s: &'static str)
        ensures
            s@ == self.spec_name(),
    {
        proof {
            reveal_strlit("music");
            reveal_strlit("jingle");
            reveal_strlit("commercial");
        }
        match self {
            ContentType::Music => "music",
            ContentType::Jingle => "jingle",
            ContentType::Commercial => "commercial",
        }
    }
}

/// Interleave cadence for a generated block.
#[derive(Clone, Copy, Debug, PartialEq, Eq, Structural)]
pub struct Interleave {
    pub jingle_every: i64,
    pub commercial_every: i64,
    pub commercial_bucket_multiplier: i64,
    pub commercial_bucket_min: i64,
}

impl Interleave {
    /// The cadence out of the stored tuning.
    pub fn from_config(t: &TuningConfig) -> (il: Interleave)
        ensures
            il.jingle_every == t.interleave.jingle_every,
            il.commercial_every == t.interleave.commercial_every,
            il.commercial_bucket_multiplier == t.interleave.commercial_bucket_multiplier,
            il.commercial_bucket_min == t.interleave.commercial_bucket_min,
    {
        Interleave {
            jingle_every: t.interleave.jingle_every,
            commercial_every: t.interleave.commercial_every,
            commercial_bucket_multiplier: t.interleave.commercial_bucket_multiplier,
            commercial_bucket_min: t.interleave.commercial_bucket_min,
        }
    }
}

impl Default for Interleave {
    fn default() -> (il: Interleave)
        ensures
            il.jingle_every == 4,
            il.commercial_every == 8,
            il.commercial_bucket_multiplier == 3,
            il.commercial_bucket_min == 10,
    {
        Interleave {
            jingle_every: 4,
            commercial_every: 8,
            commercial_bucket_multiplier: 3,
            commercial_bucket_min: 10,
        }
    }
}

/// Integer division rounding toward zero, as Rust divides.
pub open spec fn div_toward_zero(a: int, b: int) -> int
    recommends
        b > 0,
{
    if a >= 0 {
        a / b
    } else {
        -((-a) / b)
    }
}

/// How many jingles or commercials go into `count` slots at one every
/// `every`; an `every` of 0 or less disables the content type.
pub open spec fn spec_cadence_count(count: int, every: int) -> int {
    if every > 0 {
        div_toward_zero(count, every)
    } else {
        0
    }
}

/// How many jingles or commercials to insert into `count` slots at the given
/// cadence. An `every` of 0 disables the content type, without dividing.
pub fn cadence_count(count: i64, every: i64) -> (n: i64)
    ensures
        n == spec_cadence_count(count as int, every as int),
{
    if every > 0 {
        count / every
    } else {
        0
    }
}

/// The size of the least-played bucket commercials are drawn from: `count`
/// times the multiplier, but never below the minimum.
pub fn commercial_bucket_size(count: i64, il: &Interleave) -> (n: i64)
    requires
        i64::MIN <= count * il.commercial_bucket_multiplier <= i64::MAX,
    ensures
        n == if count * il.commercial_bucket_multiplier < il.commercial_bucket_min {
            il.commercial_bucket_min as int
        } else {
            count * il.commercial_bucket_multiplier
        },
{
    let scaled = count * il.commercial_bucket_multiplier;
    if scaled < il.commercial_bucket_min {
        il.commercial_bucket_min
    } else {
        scaled
    }
}

/// How a single filler of one kind is picked.
#[derive(Clone, Copy, Debug, PartialEq, Eq, Structural)]
pub enum FillerQuery {
    /// Any track of the kind, at random.
    Random,
    /// One of the `bucket` least-played tracks of the kind.
    FromBottom { bucket: i64 },
}

/// How to pick one filler of `content_type`: a jingle at random, a
/// commercial from the least-played bucket a single pick gets; music is no
/// filler.
pub fn filler_query(content_type: ContentType, il: &Interleave) -> (q: Option<FillerQuery>)
    ensures
        content_type == ContentType::Jingle ==> q == Some(FillerQuery::Random),
        content_type == ContentType::Commercial ==> q == Some(
            FillerQuery::FromBottom {
                bucket: if il.commercial_bucket_multiplier < il.commercial_bucket_min {
                    il.commercial_bucket_min
                } else {
                    il.commercial_bucket_multiplier
                },
            },
        ),
        content_type == ContentType::Music ==> q is None,
{
    match content_type {
        ContentType::Jingle => Some(FillerQuery::Random),
        ContentType::Commercial => Some(FillerQuery::FromBottom { bucket: commercial_bucket_size(1, il) }),
        ContentType::Music => None,
    }
}

/// The make-up of one generated block.
#[derive(Clone, Copy, Debug, PartialEq, Eq, Structural)]
pub struct BlockPlan {
    pub jingles: i64,
    pub commercials: i64,
    pub music: i64,
    /// How many least-played commercials the commercials are drawn from.
    pub commercial_bucket: i64,
}

/// How a block of `count` tracks splits into jingles, commercials and music.
/// Nothing is asked for when `count` is not positive; music fills whatever the
/// cadence leaves, never going negative.
pub fn plan_block(count: i64, il: &Interleave) -> (p: Option<BlockPlan>)
    requires
        i64::MIN <= spec_cadence_count(count as int, il.commercial_every as int)
            * il.commercial_bucket_multiplier <= i64::MAX,
    ensures
        count <= 0 ==> p is None,
        count > 0 ==> (p matches Some(b) && {
            let j = spec_cadence_count(count as int, il.jingle_every as int);
            let c = spec_cadence_count(count as int, il.commercial_every as int);
            &&& b.jingles == j
            &&& b.commercials == c
            &&& b.music == if count - j - c < 0 {
                0
            } else {
                count - j - c
            }
            &&& b.commercial_bucket == if c * il.commercial_bucket_multiplier
                < il.commercial_bucket_min {
                il.commercial_bucket_min as int
            } else {
                c * il.commercial_bucket_multiplier
            }
        }),
{
    if count <= 0 {
        return None;
    }
    let jingles = cadence_count(count, il.jingle_every);
    let commercials = cadence_count(count, il.commercial_every);
    assert(0 <= jingles <= count) by (nonlinear_arith)
        requires
            jingles == spec_cadence_count(count as int, il.jingle_every as int),
            count > 0,
    {
        if il.jingle_every > 0 {
            assert((count as int) / (il.jingle_every as int) <= count);
        }
    }
    assert(0 <= commercials <= count) by (nonlinear_arith)
        requires
            commercials == spec_cadence_count(count as int, il.commercial_every as int),
            count > 0,
    {
        if il.commercial_every > 0 {
            assert((count as int) / (il.commercial_every as int) <= count);
        }
    }
    let rest = count - jingles - commercials;
    let music = if rest < 0 {
        0
    } else {
        rest
    };
    Some(
        BlockPlan {
            jingles,
            commercials,
            music,
            commercial_bucket: commercial_bucket_size(commercials, il),
        },
    )
}

/// No-repeat windows for music selection, in minutes of wall clock; `0`
/// disables a rule.
#[derive(Clone, Copy, Debug, PartialEq, Eq, Structural)]
pub struct Rotation {
    pub title_window_min: i64,
    pub artist_window_min: i64,
}

impl Default for Rotation {
    fn default() -> (r: Rotation)
        ensures
            r.title_window_min == 180,
            r.artist_window_min == 45,
    {
        Rotation { title_window_min: 180, artist_window_min: 45 }
    }
}

impl Rotation {
    /// The windows out of the stored tuning.
    pub fn from_config(t: &TuningConfig) -> (r: Rotation)
        ensures
            r.title_window_min == t.rotation.title_window_min,
            r.artist_window_min == t.rotation.artist_window_min,
    {
        Rotation {
            title_window_min: t.rotation.title_window_min,
            artist_window_min: t.rotation.artist_window_min,
        }
    }

    /// The instant a window of `window_min` minutes opens before `now_ms`, or
    /// `None` when the rule is off.
    pub fn since(window_min: i64, now_ms: i64) -> (s: Option<i64>)
        requires
            window_min > 0 ==> window_min * 60_000 <= i64::MAX,
            window_min > 0 ==> i64::MIN <= now_ms - window_min * 60_000 <= i64::MAX,
        ensures
            window_min > 0 ==> s == Some((now_ms - window_min * 60_000) as i64),
            window_min <= 0 ==> s is None,
    {
        if window_min > 0 {
            Some(now_ms - window_min * 60_000)
        } else {
            None
        }
    }
}

// ----- even spread -----
/// Slot `k` of `count` spread evenly over `total` positions: the middle of
/// the `k`-th of `count` equal stretches, rounded down.
pub open spec fn slot(k: int, total: int, count: int) -> int {
    ((2 * k + 1) * total) / (2 * count)
}

/// The positions `count` items take when spread evenly over `total`.
pub open spec fn even_slots(total: int, count: int) -> Set<usize> {
    Set::new(|s: usize| exists|k: int| 0 <= k < count && s as int == slot(k, total, count))
}

proof fn lemma_slot_bounds(k: int, total: int, count: int)
    requires
        0 <= k < count,
        0 <= total,
    ensures
        0 <= slot(k, total, count),
        total > 0 ==> slot(k, total, count) < total,
{
    assert(0 <= (2 * k + 1) * total) by (nonlinear_arith)
        requires
            0 <= k,
            0 <= total,
    ;
    assert((2 * k + 1) * total <= (2 * count) * total) by (nonlinear_arith)
        requires
            0 <= k < count,
            0 <= total,
    ;
    if total > 0 {
        assert((2 * k + 1) * total < (2 * count) * total) by (nonlinear_arith)
            requires
                0 <= k < count,
                0 < total,
        ;
        assert(((2 * k + 1) * total) / (2 * count) < total) by (nonlinear_arith)
            requires
                (2 * k + 1) * total < (2 * count) * total,
                count > 0,
        ;
    }
}

/// The positions `count` items take when spread evenly over `total`.
pub fn pick_even_slots(total: usize, count: usize) -> (slots: HashSet<usize>)
    requires
        total <= isize::MAX,
        count <= isize::MAX,
    ensures
        slots@ == if count == 0 || total == 0 {
            Set::<usize>::empty()
        } else {
            even_slots(total as int, count as int)
        },
{
    let mut slots: HashSet<usize> = HashSet::new();
    if count == 0 || total == 0 {
        return slots;
    }
    let mut i: usize = 0;
    while i < count
        invariant
            0 < count <= isize::MAX,
            0 < total <= isize::MAX,
            i <= count,
            slots@ == Set::new(
                |s: usize| exists|k: int| 0 <= k < i && s as int == slot(k, total as int, count as int),
            ),
        decreases count - i,
    {
        proof {
            lemma_slot_bounds(i as int, total as int, count as int);
            assert((2 * (i as int) + 1) * (total as int) < 0x1_0000_0000_0000_0000_0000_0000_0000_0000)
                by (nonlinear_arith)
                requires
                    i < count <= isize::MAX,
                    total <= isize::MAX,
            ;
        }
        let num: u128 = (2 * (i as u128) + 1) * (total as u128);
        let den: u128 = 2 * (count as u128);
        let s = (num / den) as usize;
        slots.insert(s);
        proof {
            assert(s as int == slot(i as int, total as int, count as int));
            assert(slots@ =~= Set::new(
                |x: usize|
                    exists|k: int| 0 <= k < i + 1 && x as int == slot(k, total as int, count as int),
            )) by {
                assert forall|x: usize|
                    (exists|k: int|
                        0 <= k < i + 1 && x as int == slot(k, total as int, count as int)) implies
                    slots@.contains(x) by {
                    let k = choose|k: int|
                        0 <= k < i + 1 && x as int == slot(k, total as int, count as int);
                    if k < i {
                        assert(exists|k2: int|
                            0 <= k2 < i && x as int == slot(k2, total as int, count as int));
                    }
                }
            }
        }
        i = i + 1;
    }
    slots
}

/// The positions `count` items take over `total`, none when either is zero.
pub open spec fn spread(total: int, count: int) -> Set<usize> {
    if count == 0 || total == 0 {
        Set::empty()
    } else {
        even_slots(total, count)
    }
}

/// How many positions below `n` lie outside `taken`.
pub open spec fn count_outside(taken: Set<usize>, n: int) -> int
    decreases n,
{
    if n <= 0 {
        0
    } else {
        count_outside(taken, n - 1) + if taken.contains((n - 1) as usize) {
            0int
        } else {
            1int
        }
    }
}

/// Where the commercials go: spread evenly over the positions the jingles
/// left free.
pub open spec fn commercial_positions(total: int, jingles: int, commercials: int) -> Set<usize> {
    let js = spread(total, jingles);
    let cs = spread(count_outside(js, total), commercials);
    Set::new(
        |p: usize|
            p < total && !js.contains(p) && cs.contains(count_outside(js, p as int) as usize),
    )
}

/// The first `n` positions of an interleaved block, with how far each source
/// has been consumed: a jingle position takes the next jingle, a commercial
/// position the next commercial, any other the next music track, and a
/// position whose source has run out stays empty.
pub open spec fn merge_prefix(
    m: Seq<Track>,
    j: Seq<Track>,
    c: Seq<Track>,
    js: Set<usize>,
    cs: Set<usize>,
    n: int,
) -> (Seq<Track>, int, int, int)
    decreases n,
{
    if n <= 0 {
        (Seq::empty(), 0, 0, 0)
    } else {
        let (out, mi, ji, ci) = merge_prefix(m, j, c, js, cs, n - 1);
        let p = (n - 1) as usize;
        if js.contains(p) {
            if ji < j.len() {
                (out.push(j[ji]), mi, ji + 1, ci)
            } else {
                (out, mi, ji, ci)
            }
        } else if cs.contains(p) {
            if ci < c.len() {
                (out.push(c[ci]), mi, ji, ci + 1)
            } else {
                (out, mi, ji, ci)
            }
        } else {
            if mi < m.len() {
                (out.push(m[mi]), mi + 1, ji, ci)
            } else {
                (out, mi, ji, ci)
            }
        }
    }
}

/// Music with jingles and commercials spread evenly across the block.
pub open spec fn interleaved(m: Seq<Track>, j: Seq<Track>, c: Seq<Track>) -> Seq<Track> {
    let total = (m.len() + j.len() + c.len()) as int;
    merge_prefix(
        m,
        j,
        c,
        spread(total, j.len() as int),
        commercial_positions(total, j.len() as int, c.len() as int),
        total,
    ).0
}

proof fn lemma_count_outside_bounds(taken: Set<usize>, n: int)
    ensures
        0 <= count_outside(taken, n),
        n >= 0 ==> count_outside(taken, n) <= n,
    decreases n,
{
    if n > 0 {
        lemma_count_outside_bounds(taken, n - 1);
    }
}

proof fn lemma_count_outside_grows(taken: Set<usize>, p: int, n: int)
    requires
        0 <= p < n,
        !taken.contains(p as usize),
        p <= usize::MAX,
    ensures
        count_outside(taken, p) < count_outside(taken, n),
    decreases n - p,
{
    if n - 1 > p {
        lemma_count_outside_grows(taken, p, n - 1);
    }
    if n - 1 == p {
        assert(count_outside(taken, n) == count_outside(taken, p) + 1);
    } else {
        assert(count_outside(taken, n) >= count_outside(taken, n - 1));
    }
}

/// Spread jingles and commercials evenly through the music: jingles first
/// over the whole block, then commercials over the positions left.
pub fn interleave_evenly(music: Vec<Track>, jingles: Vec<Track>, commercials: Vec<Track>) -> (out:
    Vec<Track>)
    requires
        music@.len() + jingles@.len() + commercials@.len() <= isize::MAX,
    ensures
        out@ == interleaved(music@, jingles@, commercials@),
{
    let total = music.len() + jingles.len() + commercials.len();
    if total == 0 {
        return Vec::new();
    }
    let j_slots = pick_even_slots(total, jingles.len());
    let ghost js = spread(total as int, jingles@.len() as int);
    let mut remaining: Vec<usize> = Vec::new();
    let mut i: usize = 0;
    while i < total
        invariant
            i <= total,
            j_slots@ == js,
            remaining@.len() == count_outside(js, i as int),
            forall|k: int|
                0 <= k < remaining@.len() ==> {
                    &&& #[trigger] remaining@[k] < i
                    &&& !js.contains(remaining@[k])
                    &&& count_outside(js, remaining@[k] as int) == k
                },
            forall|p: usize|
                p < i && !js.contains(p) ==> #[trigger] remaining@[count_outside(js, p as int)]
                    == p,
        decreases total - i,
    {
        if !j_slots.contains(&i) {
            proof {
                lemma_count_outside_bounds(js, i as int);
            }
            let ghost before = remaining@;
            remaining.push(i);
            proof {
                assert(!js.contains(i));
                assert(count_outside(js, i as int + 1) == count_outside(js, i as int) + 1);
                assert forall|p: usize| p < i + 1 && !js.contains(p) implies #[trigger] remaining@[
                    count_outside(js, p as int)] == p by {
                    if p < i {
                        lemma_count_outside_grows(js, p as int, i as int);
                        lemma_count_outside_bounds(js, p as int);
                        assert(remaining@ == before.push(i));
                        assert(count_outside(js, p as int) < before.len());
                        assert(before[count_outside(js, p as int)] == p);
                        assert(remaining@[count_outside(js, p as int)] == before[count_outside(
                            js,
                            p as int,
                        )]);
                    } else {
                        assert(p == i);
                        assert(count_outside(js, p as int) == before.len());
                    }
                }
            }
        } else {
            proof {
                assert forall|p: usize| p < i + 1 && !js.contains(p) implies #[trigger] remaining@[
                    count_outside(js, p as int)] == p by {
                    if p < i {
                    }
                }
            }
        }
        i = i + 1;
    }
    proof {
        lemma_count_outside_bounds(js, total as int);
    }
    let c_indices = pick_even_slots(remaining.len(), commercials.len());
    let ghost cs = spread(count_outside(js, total as int), commercials@.len() as int);
    let mut c_slots: HashSet<usize> = HashSet::new();
    let mut k: usize = 0;
    while k < remaining.len()
        invariant
            k <= remaining@.len(),
            c_indices@ == cs,
            c_slots@ == Set::new(
                |p: usize|
                    exists|q: int|
                        0 <= q < k && cs.contains(q as usize) && #[trigger] remaining@[q] == p,
            ),
        decreases remaining@.len() - k,
    {
        if c_indices.contains(&k) {
            c_slots.insert(remaining[k]);
        }
        proof {
            assert(c_slots@ =~= Set::new(
                |p: usize|
                    exists|q: int|
                        0 <= q < k + 1 && cs.contains(q as usize) && #[trigger] remaining@[q] == p,
            )) by {
                assert forall|p: usize|
                    (exists|q: int|
                        0 <= q < k + 1 && cs.contains(q as usize) && #[trigger] remaining@[q]
                            == p) implies c_slots@.contains(p) by {
                    let q = choose|q: int|
                        0 <= q < k + 1 && cs.contains(q as usize) && #[trigger] remaining@[q] == p;
                    if q < k {
                        assert(exists|q2: int|
                            0 <= q2 < k && cs.contains(q2 as usize) && #[trigger] remaining@[q2]
                                == p);
                    }
                }
            }
        }
        k = k + 1;
    }
    let ghost cp = commercial_positions(total as int, jingles@.len() as int, commercials@.len() as int);
    proof {
        assert(c_slots@ =~= cp) by {
            assert forall|p: usize| c_slots@.contains(p) implies cp.contains(p) by {
                let q = choose|q: int|
                    0 <= q < remaining@.len() && cs.contains(q as usize) && #[trigger] remaining@[q]
                        == p;
                assert(remaining@[q] < total);
            }
            assert forall|p: usize| cp.contains(p) implies c_slots@.contains(p) by {
                let q = count_outside(js, p as int);
                assert(remaining@[q] == p);
                lemma_count_outside_grows(js, p as int, total as int);
                lemma_count_outside_bounds(js, p as int);
            }
        }
    }
    let mut out: Vec<Track> = Vec::new();
    let mut mi: usize = 0;
    let mut ji: usize = 0;
    let mut ci: usize = 0;
    let mut i: usize = 0;
    while i < total
        invariant
            i <= total,
            j_slots@ == js,
            c_slots@ == cp,
            total == music@.len() + jingles@.len() + commercials@.len(),
            (out@, mi as int, ji as int, ci as int) == merge_prefix(
                music@,
                jingles@,
                commercials@,
                js,
                cp,
                i as int,
            ),
            mi <= music@.len(),
            ji <= jingles@.len(),
            ci <= commercials@.len(),
        decreases total - i,
    {
        if j_slots.contains(&i) {
            if ji < jingles.len() {
                out.push(jingles[ji].clone());
                ji = ji + 1;
            }
        } else if c_slots.contains(&i) {
            if ci < commercials.len() {
                out.push(commercials[ci].clone());
                ci = ci + 1;
            }
        } else {
            if mi < music.len() {
                out.push(music[mi].clone());
                mi = mi + 1;
            }
        }
        i = i + 1;
    }
    out
}

// ----- music selection -----
/// `v`, sorted, with repeats dropped.
fn dedup_sorted(v: Vec<String>) -> (out: Vec<String>)
    requires
        sorted_text(views(v@)),
    ensures
        sorted_text(views(out@)),
        views(out@).no_duplicates(),
        forall|k: Seq<char>| views(out@).contains(k) <==> views(v@).contains(k),
{
    let mut out: Vec<String> = Vec::new();
    let mut i: usize = 0;
    while i < v.len()
        invariant
            i <= v@.len(),
            sorted_text(views(v@)),
            sorted_text(views(out@)),
            views(out@).no_duplicates(),
            forall|k: Seq<char>| views(out@).contains(k) <==> views(v@).take(i as int).contains(k),
            i > 0 ==> out@.len() > 0 && out@[out@.len() - 1]@ == v@[i - 1]@,
            i == 0 ==> out@.len() == 0,
            forall|a: int| 0 <= a < out@.len() ==> exists|b: int| 0 <= b < i && (#[trigger] out@[a])@ == v@[b]@,
        decreases v@.len() - i,
    {
        let x = &v[i];
        let fresh = i == 0 || !same_text(out[out.len() - 1].as_str(), x.as_str());
        let ghost before = out@;
        if fresh {
            out.push(x.clone());
            proof {
                let ov = views(out@);
                assert(ov =~= views(before).push(x@));
                assert forall|a: int, b: int| 0 <= a < b < ov.len() implies text_le(#[trigger] ov[a], #[trigger] ov[b]) by {
                    if b == ov.len() - 1 {
                        let w = choose|w: int| 0 <= w < i && (#[trigger] before[a])@ == v@[w]@;
                        assert(text_le(views(v@)[w], views(v@)[i as int]));
                    } else {
                        assert(text_le(views(before)[a], views(before)[b]));
                    }
                }
                assert forall|a: int, b: int| 0 <= a < b < ov.len() implies ov[a] != ov[b] by {
                    if b == ov.len() - 1 && ov[a] == ov[b] {
                        let last = views(before).len() - 1;
                        let w = choose|w: int| 0 <= w < i && (#[trigger] before[a])@ == v@[w]@;
                        assert(text_le(views(v@)[w], views(v@)[i - 1])) by {
                            if w < i - 1 {
                                assert(text_le(views(v@)[w], views(v@)[i - 1]));
                            } else {
                                crate::text::lemma_text_le_reflexive(views(v@)[w]);
                            }
                        }
                        assert(text_le(views(v@)[i - 1], views(v@)[i as int]));
                        crate::text::lemma_text_le_antisymmetric(views(v@)[i - 1], views(v@)[i as int]);
                    } else if b < ov.len() - 1 {
                        assert(views(before)[a] != views(before)[b]);
                    }
                }
                assert forall|a: int| 0 <= a < out@.len() implies exists|b: int| 0 <= b < i + 1 && (#[trigger] out@[a])@ == v@[b]@ by {
                    if a == out@.len() - 1 {
                        assert(out@[a]@ == v@[i as int]@);
                    } else {
                        let w = choose|w: int| 0 <= w < i && (#[trigger] before[a])@ == v@[w]@;
                        assert(out@[a] == before[a]);
                    }
                }
            }
        }
        proof {
            let t = views(v@).take(i as int + 1);
            let p = views(v@).take(i as int);
            assert(t =~= p.push(x@));
            let ov = views(out@);
            if fresh {
                assert(ov =~= views(before).push(x@));
            } else {
                assert(out@ == before);
                assert(ov[ov.len() - 1] == x@);
            }
            assert forall|k: Seq<char>| ov.contains(k) <==> t.contains(k) by {
                if t.contains(k) {
                    let w = choose|w: int| 0 <= w < t.len() && t[w] == k;
                    if w == i {
                        assert(ov[ov.len() - 1] == k);
                    } else {
                        assert(p[w] == k);
                        assert(p.contains(k));
                        assert(views(before).contains(k));
                        let u = choose|u: int| 0 <= u < views(before).len() && views(before)[u] == k;
                        assert(ov[u] == k);
                    }
                }
                if ov.contains(k) {
                    let w = choose|w: int| 0 <= w < ov.len() && ov[w] == k;
                    if fresh && w == ov.len() - 1 {
                        assert(t[i as int] == k);
                    } else {
                        assert(views(before)[w] == k);
                        assert(views(before).contains(k));
                        assert(p.contains(k));
                        let u = choose|u: int| 0 <= u < p.len() && p[u] == k;
                        assert(t[u] == k);
                    }
                }
            }
        }
        i = i + 1;
    }
    proof {
        assert(views(v@).take(v@.len() as int) =~= views(v@));
    }
    out
}


/// The rotation rules rung `r` of the relaxation ladder still applies, as
/// (title rule, artist rule). Tightest first: selection degrades rather than
/// stalls, dropping the artist rule before the title rule.
pub open spec fn rung_rules(r: int) -> (bool, bool) {
    if r == 0 {
        (true, true)
    } else if r == 1 {
        (true, false)
    } else {
        (false, false)
    }
}

/// The rungs of the ladder.
pub const RUNGS: usize = 3;

/// The ids of `tracks`.
pub open spec fn ids_of(tracks: Seq<Track>) -> Seq<i64> {
    tracks.map_values(|t: Track| t.id)
}

/// The artist keys of `tracks` that are not blank, in order.
pub open spec fn keys_of(tracks: Seq<Track>) -> Seq<Seq<char>>
    decreases tracks.len(),
{
    if tracks.len() == 0 {
        Seq::empty()
    } else {
        let before = keys_of(tracks.drop_last());
        let k = spec_artist_key(tracks.last().artist@);
        if k.len() > 0 {
            before.push(k)
        } else {
            before
        }
    }
}

/// The music half of a block, picked one slot at a time under the rotation
/// rules. The application asks the library for one track matching `query`
/// and hands the result to `answer`, until `query` has nothing more to ask.
/// A slot that cannot be filled under both rules steps down the ladder for
/// itself alone; the exclusion of everything queued or picked is never
/// relaxed.
pub struct MusicPicker {
    count: i64,
    title_since: Option<i64>,
    artist_since: Option<i64>,
    exclude_ids: Vec<i64>,
    artist_keys: Vec<String>,
    picked: Vec<Track>,
    rung: usize,
    warned: Vec<bool>,
    queued_ids: Ghost<Seq<i64>>,
    queued_keys: Ghost<Seq<Seq<char>>>,
}

impl MusicPicker {
    pub closed spec fn picked(&self) -> Seq<Track> {
        self.picked@
    }

    pub closed spec fn count(&self) -> i64 {
        self.count
    }

    pub closed spec fn rung(&self) -> int {
        self.rung as int
    }

    /// Whether a pick has already been reported as needing rung `r`.
    pub closed spec fn reported(&self, r: int) -> bool {
        self.warned@[r]
    }

    /// Ids no pick may return.
    pub closed spec fn excluded(&self) -> Seq<i64> {
        self.exclude_ids@
    }

    /// Artist keys the artist rule blocks.
    pub closed spec fn blocked(&self) -> Seq<Seq<char>> {
        views(self.artist_keys@)
    }

    pub closed spec fn title_since(&self) -> Option<i64> {
        self.title_since
    }

    pub closed spec fn artist_since(&self) -> Option<i64> {
        self.artist_since
    }

    pub closed spec fn queued_ids(&self) -> Seq<i64> {
        self.queued_ids@
    }

    pub closed spec fn queued_keys(&self) -> Seq<Seq<char>> {
        self.queued_keys@
    }

    pub closed spec fn wf(&self) -> bool {
        &&& self.rung <= RUNGS
        &&& self.warned@.len() == RUNGS
        &&& self.picked@.len() <= self.count || self.count <= 0
        &&& self.exclude_ids@ == self.queued_ids@ + ids_of(self.picked@)
        &&& views(self.artist_keys@) == self.queued_keys@ + keys_of(self.picked@)
    }

    /// No slot is left to fill, or the last one could not be filled at all.
    pub open spec fn done(&self) -> bool {
        self.picked().len() >= self.count() || self.rung() >= RUNGS
    }

    /// Start picking `count` tracks after `queued`. Queued tracks have not
    /// aired, so their artists count against the artist rule as aired ones
    /// do; a blank artist would block every untagged track, so it blocks
    /// nothing.
    pub fn new(count: i64, queued: &[Track], rot: Rotation, now_ms: i64) -> (p: MusicPicker)
        requires
            rot.title_window_min > 0 ==> rot.title_window_min * 60_000 <= i64::MAX,
            rot.title_window_min > 0 ==> i64::MIN <= now_ms - rot.title_window_min * 60_000 <= i64::MAX,
            rot.artist_window_min > 0 ==> rot.artist_window_min * 60_000 <= i64::MAX,
            rot.artist_window_min > 0 ==> i64::MIN <= now_ms - rot.artist_window_min * 60_000
                <= i64::MAX,
        ensures
            p.wf(),
            p.count() == count,
            p.picked().len() == 0,
            p.rung() == 0,
            forall|r: int| 0 <= r < RUNGS ==> !p.reported(r),
            p.excluded() == ids_of(queued@),
            p.queued_ids() == ids_of(queued@),
            p.blocked() == p.queued_keys(),
            sorted_text(p.blocked()),
            p.blocked().no_duplicates(),
            forall|k: Seq<char>| p.blocked().contains(k) <==> keys_of(queued@).contains(k),
            rot.title_window_min > 0 ==> p.title_since() == Some(
                (now_ms - rot.title_window_min * 60_000) as i64,
            ),
            rot.title_window_min <= 0 ==> p.title_since() is None,
            rot.artist_window_min > 0 ==> p.artist_since() == Some(
                (now_ms - rot.artist_window_min * 60_000) as i64,
            ),
            rot.artist_window_min <= 0 ==> p.artist_since() is None,
    {
        let mut exclude_ids: Vec<i64> = Vec::new();
        let mut keys: Vec<String> = Vec::new();
        let mut i: usize = 0;
        while i < queued.len()
            invariant
                i <= queued@.len(),
                exclude_ids@ == ids_of(queued@.take(i as int)),
                views(keys@) == keys_of(queued@.take(i as int)),
            decreases queued@.len() - i,
        {
            exclude_ids.push(queued[i].id);
            let k = artist_key(queued[i].artist.as_str());
            let ghost before = keys@;
            if !k.as_str().is_empty() {
                keys.push(k);
                proof {
                    assert(views(keys@) =~= views(before).push(k@));
                }
            }
            proof {
                let t = queued@.take(i as int + 1);
                assert(t.drop_last() =~= queued@.take(i as int));
                assert(t.last() == queued@[i as int]);
                assert(ids_of(t) =~= ids_of(queued@.take(i as int)).push(queued@[i as int].id));
            }
            i = i + 1;
        }
        proof {
            assert(queued@.take(queued@.len() as int) =~= queued@);
        }
        let ghost all_keys = views(keys@);
        sort_texts(&mut keys);
        proof {
            assert forall|k: Seq<char>| views(keys@).contains(k) <==> all_keys.contains(k) by {
                vstd::seq_lib::to_multiset_contains(views(keys@), k);
                vstd::seq_lib::to_multiset_contains(all_keys, k);
            }
        }
        let artist_keys = dedup_sorted(keys);
        let mut warned: Vec<bool> = Vec::new();
        warned.push(false);
        warned.push(false);
        warned.push(false);
        let ghost queued_keys = views(artist_keys@);
        MusicPicker {
            count,
            title_since: Rotation::since(rot.title_window_min, now_ms),
            artist_since: Rotation::since(rot.artist_window_min, now_ms),
            exclude_ids,
            artist_keys,
            picked: Vec::new(),
            rung: 0,
            warned,
            queued_ids: Ghost(ids_of(queued@)),
            queued_keys: Ghost(queued_keys),
        }
    }

    /// What to ask the library for next: one track under the rules of the
    /// current rung, excluding everything queued or picked. `None` once the
    /// block is complete or the ladder is exhausted.
    pub fn query(&self) -> (f: Option<SelectionFilter<'_>>)
        requires
            self.wf(),
        ensures
            f is None <==> self.done(),
            f matches Some(q) ==> {
                &&& q.exclude_ids@ == self.excluded()
                &&& q.title_since == if rung_rules(self.rung()).0 {
                    self.title_since()
                } else {
                    None
                }
                &&& q.artist_since == if rung_rules(self.rung()).1 {
                    self.artist_since()
                } else {
                    None
                }
                &&& views(q.artist_keys@) == if rung_rules(self.rung()).1 {
                    self.blocked()
                } else {
                    Seq::empty()
                }
                &&& !q.spread_artists
            },
    {
        if self.count <= 0 || self.picked.len() as u64 >= self.count as u64 || self.rung >= RUNGS {
            return None;
        }
        let title = self.rung == 0 || self.rung == 1;
        let artist = self.rung == 0;
        let keys: &[String] = if artist {
            self.artist_keys.as_slice()
        } else {
            &[]
        };
        proof {
            if !artist {
                assert(views(keys@) =~= Seq::<Seq<char>>::empty());
            }
        }
        Some(
            SelectionFilter {
                exclude_ids: self.exclude_ids.as_slice(),
                title_since: if title {
                    self.title_since
                } else {
                    None
                },
                artist_since: if artist {
                    self.artist_since
                } else {
                    None
                },
                artist_keys: keys,
                spread_artists: false,
            },
        )
    }

    /// The library's answer to `query`. A track fills the slot, joins the
    /// exclusion and, unless its artist is blank, the blocked artists, and
    /// the next slot starts from the tightest rung again. No track steps
    /// down one rung. Returns the rung relaxed to, the first time a pick
    /// needed it, so it can be reported once per refill.
    pub fn answer(&mut self, track: Option<Track>) -> (relaxed: Option<usize>)
        requires
            old(self).wf(),
            !old(self).done(),
        ensures
            final(self).wf(),
            final(self).count() == old(self).count(),
            final(self).title_since() == old(self).title_since(),
            final(self).artist_since() == old(self).artist_since(),
            final(self).queued_ids() == old(self).queued_ids(),
            final(self).queued_keys() == old(self).queued_keys(),
            match track {
                Some(t) => {
                    &&& final(self).picked() == old(self).picked().push(t)
                    &&& final(self).excluded() == old(self).excluded().push(t.id)
                    &&& final(self).blocked() == if spec_artist_key(t.artist@).len() > 0 {
                        old(self).blocked().push(spec_artist_key(t.artist@))
                    } else {
                        old(self).blocked()
                    }
                    &&& final(self).rung() == 0
                    &&& relaxed == if old(self).rung() > 0 && !old(self).reported(old(self).rung()) {
                        Some(old(self).rung() as usize)
                    } else {
                        None
                    }
                    &&& forall|r: int| 0 <= r < RUNGS ==> final(self).reported(r) == (old(self).reported(r)
                        || (r == old(self).rung() && r > 0))
                },
                None => {
                    &&& final(self).picked() == old(self).picked()
                    &&& final(self).excluded() == old(self).excluded()
                    &&& final(self).blocked() == old(self).blocked()
                    &&& final(self).rung() == old(self).rung() + 1
                    &&& relaxed is None
                    &&& forall|r: int| 0 <= r < RUNGS ==> final(self).reported(r) == old(self).reported(r)
                },
            },
    {
        match track {
            Some(t) => {
                let r = self.rung;
                let mut relaxed: Option<usize> = None;
                if r > 0 && !self.warned[r] {
                    self.warned.set(r, true);
                    relaxed = Some(r);
                }
                self.exclude_ids.push(t.id);
                let key = artist_key(t.artist.as_str());
                let ghost keys_before = self.artist_keys@;
                let ghost picked_before = self.picked@;
                if !key.as_str().is_empty() {
                    self.artist_keys.push(key);
                    proof {
                        assert(views(self.artist_keys@) =~= views(keys_before).push(spec_artist_key(t.artist@)));
                    }
                }
                self.picked.push(t);
                self.rung = 0;
                proof {
                    let np = self.picked@;
                    assert(np.drop_last() =~= picked_before);
                    assert(ids_of(np) =~= ids_of(picked_before).push(np.last().id));
                    assert(self.exclude_ids@ =~= self.queued_ids@ + ids_of(np));
                    assert(views(self.artist_keys@) =~= self.queued_keys@ + keys_of(np));
                }
                relaxed
            },
            None => {
                self.rung = self.rung + 1;
                None
            },
        }
    }

    /// The tracks picked, in order.
    pub fn finish(self) -> (picked: Vec<Track>)
        ensures
            picked@ == self.picked(),
    {
        self.picked
    }
}

/// Everything queued or already picked stays excluded from every later pick,
/// however far the ladder has relaxed, and every picked artist that is not
/// blank stays blocked for as long as the artist rule applies.
pub proof fn picks_stay_excluded(p: &MusicPicker)
    requires
        p.wf(),
    ensures
        forall|i: int| 0 <= i < p.picked().len() ==> p.excluded().contains(#[trigger] p.picked()[i].id),
        forall|i: int| 0 <= i < p.queued_ids().len() ==> p.excluded().contains(#[trigger] p.queued_ids()[i]),
        forall|i: int|
            0 <= i < p.picked().len() && spec_artist_key(#[trigger] p.picked()[i].artist@).len() > 0
                ==> p.blocked().contains(spec_artist_key(p.picked()[i].artist@)),
{
    let q = p.queued_ids();
    let picked = p.picked();
    assert forall|i: int| 0 <= i < picked.len() implies p.excluded().contains(#[trigger] picked[i].id) by {
        assert(p.excluded()[q.len() + i] == ids_of(picked)[i]);
    }
    assert forall|i: int| 0 <= i < q.len() implies p.excluded().contains(#[trigger] q[i]) by {
        assert(p.excluded()[i] == q[i]);
    }
    assert forall|i: int|
        0 <= i < picked.len() && spec_artist_key(#[trigger] picked[i].artist@).len() > 0 implies p.blocked().contains(
        spec_artist_key(picked[i].artist@),
    ) by {
        lemma_keys_of_contains(picked, i);
        let w = choose|w: int| 0 <= w < keys_of(picked).len() && keys_of(picked)[w] == spec_artist_key(picked[i].artist@);
        assert(p.blocked()[p.queued_keys().len() + w] == keys_of(picked)[w]);
    }
}

proof fn lemma_keys_of_contains(tracks: Seq<Track>, i: int)
    requires
        0 <= i < tracks.len(),
        spec_artist_key(tracks[i].artist@).len() > 0,
    ensures
        keys_of(tracks).contains(spec_artist_key(tracks[i].artist@)),
    decreases tracks.len(),
{
    let init = tracks.drop_last();
    if i < tracks.len() - 1 {
        assert(init[i] == tracks[i]);
        lemma_keys_of_contains(init, i);
        let w = choose|w: int| 0 <= w < keys_of(init).len() && keys_of(init)[w] == spec_artist_key(init[i].artist@);
        assert(keys_of(tracks)[w] == keys_of(init)[w]);
    } else {
        assert(keys_of(tracks).last() == spec_artist_key(tracks[i].artist@));
    }
}

// ----- the spread keeps every track -----
/// Positions below `n` that lie in `taken`.
pub open spec fn count_inside(taken: Set<usize>, n: int) -> int {
    n - count_outside(taken, n)
}

proof fn lemma_slot_increasing(k: int, total: int, count: int)
    requires
        0 <= k,
        0 < count <= total,
    ensures
        slot(k, total, count) < slot(k + 1, total, count),
{
    let a = (2 * k + 1) * total;
    let d = 2 * count;
    assert((2 * (k + 1) + 1) * total == a + 2 * total) by (nonlinear_arith)
        requires
            a == (2 * k + 1) * total,
    ;
    vstd::arithmetic::div_mod::lemma_div_is_ordered(d + a, a + 2 * total, d);
    vstd::arithmetic::div_mod::lemma_div_plus_one(a, d);
}

proof fn lemma_slot_monotone(k1: int, k2: int, total: int, count: int)
    requires
        0 <= k1 < k2,
        0 < count <= total,
    ensures
        slot(k1, total, count) < slot(k2, total, count),
    decreases k2 - k1,
{
    lemma_slot_increasing(k2 - 1, total, count);
    if k1 < k2 - 1 {
        lemma_slot_monotone(k1, k2 - 1, total, count);
    }
}

/// How many of the first `k` slots lie below `n`.
pub open spec fn slots_below(total: int, count: int, n: int, k: int) -> int
    decreases k,
{
    if k <= 0 {
        0
    } else {
        slots_below(total, count, n, k - 1) + if slot(k - 1, total, count) < n {
            1int
        } else {
            0int
        }
    }
}

/// Some of the first `k` slots is `n`.
pub open spec fn some_slot(total: int, count: int, n: int, k: int) -> bool {
    exists|q: int| 0 <= q < k && slot(q, total, count) == n
}

proof fn lemma_slots_below_step(total: int, count: int, n: int, k: int)
    requires
        0 <= k <= count,
        0 < count <= total,
    ensures
        slots_below(total, count, n + 1, k) == slots_below(total, count, n, k) + if some_slot(
            total,
            count,
            n,
            k,
        ) {
            1int
        } else {
            0int
        },
    decreases k,
{
    if k > 0 {
        lemma_slots_below_step(total, count, n, k - 1);
        let last = slot(k - 1, total, count);
        if last == n {
            assert(some_slot(total, count, n, k));
            if some_slot(total, count, n, k - 1) {
                let q = choose|q: int| 0 <= q < k - 1 && slot(q, total, count) == n;
                lemma_slot_monotone(q, k - 1, total, count);
            }
        } else {
            if some_slot(total, count, n, k) {
                let q = choose|q: int| 0 <= q < k && slot(q, total, count) == n;
                assert(q < k - 1);
                assert(some_slot(total, count, n, k - 1));
            }
            if some_slot(total, count, n, k - 1) {
                let q = choose|q: int| 0 <= q < k - 1 && slot(q, total, count) == n;
                assert(some_slot(total, count, n, k));
            }
        }
    }
}

proof fn lemma_count_inside_step(taken: Set<usize>, n: int)
    requires
        0 <= n,
    ensures
        count_inside(taken, n + 1) == count_inside(taken, n) + if taken.contains(n as usize) {
            1int
        } else {
            0int
        },
{
}

proof fn lemma_count_inside_spread(total: int, count: int, n: int)
    requires
        0 < count <= total,
        total <= usize::MAX,
        0 <= n <= total,
    ensures
        count_inside(spread(total, count), n) == slots_below(total, count, n, count),
    decreases n,
{
    if n == 0 {
        lemma_no_slot_below_zero(total, count, count);
    }
    if n > 0 {
        lemma_count_inside_spread(total, count, n - 1);
        lemma_count_inside_step(spread(total, count), n - 1);
        lemma_slots_below_step(total, count, n - 1, count);
        let p = (n - 1) as usize;
        assert(p as int == n - 1);
        if spread(total, count).contains(p) {
            let k = choose|k: int| 0 <= k < count && p as int == slot(k, total, count);
            assert(some_slot(total, count, n - 1, count));
        }
        if some_slot(total, count, n - 1, count) {
            let k = choose|k: int| 0 <= k < count && slot(k, total, count) == n - 1;
            assert(spread(total, count).contains(p));
        }
        assert(spread(total, count).contains(p) == some_slot(total, count, n - 1, count));
        let m1 = n - 1;
        assert(m1 + 1 == n);
        assert(slots_below(total, count, m1 + 1, count) == slots_below(total, count, n, count));
        assert(count_inside(spread(total, count), m1 + 1) == count_inside(spread(total, count), n));
        assert(count_inside(spread(total, count), n) == count_inside(spread(total, count), n - 1)
            + if spread(total, count).contains(p) {
            1int
        } else {
            0int
        });
    }
}

proof fn lemma_no_slot_below_zero(total: int, count: int, k: int)
    requires
        0 < count <= total,
        0 <= k <= count,
    ensures
        slots_below(total, count, 0, k) == 0,
    decreases k,
{
    if k > 0 {
        lemma_no_slot_below_zero(total, count, k - 1);
        lemma_slot_bounds(k - 1, total, count);
    }
}

proof fn lemma_all_slots_below_total(total: int, count: int, k: int)
    requires
        0 < count <= total,
        0 <= k <= count,
    ensures
        slots_below(total, count, total, k) == k,
    decreases k,
{
    if k > 0 {
        lemma_all_slots_below_total(total, count, k - 1);
        lemma_slot_bounds(k - 1, total, count);
    }
}

/// Spreading `count` items over `total >= count` positions takes exactly
/// `count` of them.
proof fn lemma_spread_size(total: int, count: int)
    requires
        0 <= count <= total,
        total <= usize::MAX,
    ensures
        count_inside(spread(total, count), total) == count,
{
    if count == 0 || total == 0 {
        lemma_count_inside_empty(total);
    } else {
        lemma_count_inside_spread(total, count, total);
        lemma_all_slots_below_total(total, count, count);
    }
}

proof fn lemma_count_inside_empty(n: int)
    requires
        0 <= n,
    ensures
        count_inside(Set::<usize>::empty(), n) == 0,
    decreases n,
{
    if n > 0 {
        lemma_count_inside_empty(n - 1);
    }
}

/// Below `n`, how many positions take a jingle, a commercial and music, in
/// the order the merge checks them.
pub open spec fn position_counts(js: Set<usize>, cs: Set<usize>, n: int) -> (int, int, int)
    decreases n,
{
    if n <= 0 {
        (0, 0, 0)
    } else {
        let (a, b, c) = position_counts(js, cs, n - 1);
        let p = (n - 1) as usize;
        if js.contains(p) {
            (a + 1, b, c)
        } else if cs.contains(p) {
            (a, b + 1, c)
        } else {
            (a, b, c + 1)
        }
    }
}

proof fn lemma_position_counts_monotone(js: Set<usize>, cs: Set<usize>, n: int)
    requires
        n > 0,
    ensures
        position_counts(js, cs, n - 1).0 <= position_counts(js, cs, n).0,
        position_counts(js, cs, n - 1).1 <= position_counts(js, cs, n).1,
        position_counts(js, cs, n - 1).2 <= position_counts(js, cs, n).2,
        position_counts(js, cs, n).0 + position_counts(js, cs, n).1 + position_counts(js, cs, n).2
            == n,
        position_counts(js, cs, n - 1).0 >= 0,
        position_counts(js, cs, n - 1).1 >= 0,
        position_counts(js, cs, n - 1).2 >= 0,
    decreases n,
{
    if n > 1 {
        lemma_position_counts_monotone(js, cs, n - 1);
    }
}

/// While no source runs out, the merge takes one item per position, each
/// from the source its position names, in order.
proof fn lemma_merge_takes_every_position(
    m: Seq<Track>,
    j: Seq<Track>,
    c: Seq<Track>,
    js: Set<usize>,
    cs: Set<usize>,
    n: int,
)
    requires
        0 <= n,
        position_counts(js, cs, n).0 <= j.len(),
        position_counts(js, cs, n).1 <= c.len(),
        position_counts(js, cs, n).2 <= m.len(),
    ensures
        ({
            let (out, mi, ji, ci) = merge_prefix(m, j, c, js, cs, n);
            let (a, b, d) = position_counts(js, cs, n);
            &&& ji == a
            &&& ci == b
            &&& mi == d
            &&& out.len() == n
            &&& out.to_multiset() == m.take(mi).to_multiset().add(j.take(ji).to_multiset()).add(
                c.take(ci).to_multiset(),
            )
        }),
    decreases n,
{
    broadcast use vstd::seq_lib::group_to_multiset_ensures;
    broadcast use vstd::multiset::group_multiset_axioms;

    if n == 0 {
        assert(m.take(0) =~= Seq::<Track>::empty());
        assert(j.take(0) =~= Seq::<Track>::empty());
        assert(c.take(0) =~= Seq::<Track>::empty());
        assert(merge_prefix(m, j, c, js, cs, 0).0.to_multiset() =~= m.take(0).to_multiset().add(
            j.take(0).to_multiset(),
        ).add(c.take(0).to_multiset()));
    } else {
        lemma_position_counts_monotone(js, cs, n);
        lemma_merge_takes_every_position(m, j, c, js, cs, n - 1);
        let (out, mi, ji, ci) = merge_prefix(m, j, c, js, cs, n - 1);
        let p = (n - 1) as usize;
        let (a, b, d) = position_counts(js, cs, n - 1);
        assert(ji == a && ci == b && mi == d);
        if js.contains(p) {
            assert(position_counts(js, cs, n).0 == a + 1);
            assert(ji < j.len());
            assert(j.take(ji + 1) =~= j.take(ji).push(j[ji]));
            assert(out.push(j[ji]).to_multiset() =~= m.take(mi).to_multiset().add(
                j.take(ji + 1).to_multiset(),
            ).add(c.take(ci).to_multiset()));
        } else if cs.contains(p) {
            assert(position_counts(js, cs, n).1 == b + 1);
            assert(ci < c.len());
            assert(c.take(ci + 1) =~= c.take(ci).push(c[ci]));
            assert(out.push(c[ci]).to_multiset() =~= m.take(mi).to_multiset().add(
                j.take(ji).to_multiset(),
            ).add(c.take(ci + 1).to_multiset()));
        } else {
            assert(position_counts(js, cs, n).2 == d + 1);
            assert(mi < m.len());
            assert(m.take(mi + 1) =~= m.take(mi).push(m[mi]));
            assert(out.push(m[mi]).to_multiset() =~= m.take(mi + 1).to_multiset().add(
                j.take(ji).to_multiset(),
            ).add(c.take(ci).to_multiset()));
        }
    }
}

/// The jingle count below `n` is what `count_inside` counts.
proof fn lemma_jingle_positions(js: Set<usize>, cs: Set<usize>, n: int)
    requires
        0 <= n,
    ensures
        position_counts(js, cs, n).0 == count_inside(js, n),
    decreases n,
{
    if n > 0 {
        lemma_jingle_positions(js, cs, n - 1);
        lemma_count_inside_step(js, n - 1);
    }
}

/// The commercial positions below `n` are the spread positions below the
/// number of free positions below `n`.
proof fn lemma_commercial_positions(total: int, jl: int, cl: int, n: int)
    requires
        0 <= n <= total,
        total <= usize::MAX,
    ensures
        position_counts(
            spread(total, jl),
            commercial_positions(total, jl, cl),
            n,
        ).1 == count_inside(
            spread(count_outside(spread(total, jl), total), cl),
            count_outside(spread(total, jl), n),
        ),
    decreases n,
{
    let js = spread(total, jl);
    let cs = commercial_positions(total, jl, cl);
    let free = spread(count_outside(js, total), cl);
    if n == 0 {
    } else {
        lemma_commercial_positions(total, jl, cl, n - 1);
        let p = (n - 1) as usize;
        let r = count_outside(js, n - 1);
        lemma_count_outside_bounds(js, n - 1);
        if !js.contains(p) {
            lemma_count_inside_step(free, r);
            assert(r as usize as int == r);
            assert(cs.contains(p) == free.contains(r as usize));
        }
    }
}

/// Interleaving keeps every track: each music track, jingle and commercial
/// comes out exactly once, and nothing else does.
pub proof fn interleaving_keeps_every_track(m: Seq<Track>, j: Seq<Track>, c: Seq<Track>)
    requires
        m.len() + j.len() + c.len() <= usize::MAX,
    ensures
        interleaved(m, j, c).len() == m.len() + j.len() + c.len(),
        interleaved(m, j, c).to_multiset() == m.to_multiset().add(j.to_multiset()).add(
            c.to_multiset(),
        ),
{
    let total = (m.len() + j.len() + c.len()) as int;
    let jl = j.len() as int;
    let cl = c.len() as int;
    let js = spread(total, jl);
    let cs = commercial_positions(total, jl, cl);
    lemma_spread_size(total, jl);
    let free_total = count_outside(js, total);
    assert(free_total == total - jl);
    lemma_spread_size(free_total, cl);
    lemma_commercial_positions(total, jl, cl, total);
    lemma_jingle_positions(js, cs, total);
    if total > 0 {
        lemma_position_counts_monotone(js, cs, total);
    }
    lemma_merge_takes_every_position(m, j, c, js, cs, total);
    assert(m.take(m.len() as int) =~= m);
    assert(j.take(j.len() as int) =~= j);
    assert(c.take(c.len() as int) =~= c);
}

proof fn lemma_slot_gap(k: int, total: int, count: int)
    requires
        0 <= k,
        0 < count,
        2 * count <= total,
    ensures
        slot(k, total, count) + 2 <= slot(k + 1, total, count),
{
    let a = (2 * k + 1) * total;
    let d = 2 * count;
    assert((2 * (k + 1) + 1) * total == a + 2 * total) by (nonlinear_arith)
        requires
            a == (2 * k + 1) * total,
    ;
    vstd::arithmetic::div_mod::lemma_div_plus_one(a, d);
    vstd::arithmetic::div_mod::lemma_div_plus_one(d + a, d);
    vstd::arithmetic::div_mod::lemma_div_is_ordered(d + (d + a), a + 2 * total, d);
}

/// With at least two positions per item, no two spread items are adjacent.
pub proof fn spread_items_are_never_adjacent(total: int, count: int, p: usize, q: usize)
    requires
        0 < count,
        2 * count <= total,
        spread(total, count).contains(p),
        spread(total, count).contains(q),
        p < q,
    ensures
        q - p >= 2,
{
    let k1 = choose|k: int| 0 <= k < count && p as int == slot(k, total, count);
    let k2 = choose|k: int| 0 <= k < count && q as int == slot(k, total, count);
    if k2 <= k1 {
        if k2 < k1 {
            lemma_slot_monotone(k2, k1, total, count);
        }
    } else {
        lemma_slot_gap(k1, total, count);
        if k1 + 1 < k2 {
            lemma_slot_monotone(k1 + 1, k2, total, count);
        }
    }
}

} // verus!
