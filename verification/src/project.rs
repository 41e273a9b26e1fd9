//! The beat project: colours, travel directions, tempo changes and the tempo
//! map that turns 32nd-note positions into tempo segments.
use vstd::prelude::*;

verus! {

broadcast use vstd::seq_lib::group_seq_properties;

/// An RGBA colour with 8-bit channels.
#[derive(Debug, Clone, PartialEq, Eq, Structural)]
pub struct Color {
    pub r: u8,
    pub g: u8,
    pub b: u8,
    pub a: u8,
}

/// From which edge the dots travel towards the end circle.
#[derive(Debug, Clone, Copy, PartialEq, Eq, Structural)]
pub enum Direction {
    LeftToRight,
    RightToLeft,
    BothDirections,
}

impl Direction {
    /// How many copies of each dot travel at once: two when dots come from
    /// both edges, one otherwise.
    pub fn lane_count(self) -> (n: usize)
        ensures
            n == (if self == Direction::BothDirections { 2usize } else { 1usize }),
    {
        match self {
            Direction::BothDirections => 2,
            _ => 1,
        }
    }
}

/// The kind of a beat change.
#[derive(Debug, Clone, Copy, PartialEq, Eq, Structural)]
pub enum BeatChangeType {
    NoChange,
    Half,
    Normal,
    Double,
    Triplet,
}

/// A change of beat at a 32nd-note position. `bpm` is the tempo payload; it
/// only matters for `Normal` changes, which set the tempo from that point on.
#[derive(Debug, Clone)]
pub struct BeatChange<B> {
    pub beat_32: u32,
    pub change_type: BeatChangeType,
    pub bpm: Option<B>,
}

/// The value that a field marked "defaults to true" takes.
pub fn default_true() -> (r: bool)
    ensures
        r,
{
    true
}

/// Whether a change sets the tempo: a `Normal` change that carries a bpm.
pub open spec fn sets_tempo<B>(c: BeatChange<B>) -> bool {
    c.change_type == BeatChangeType::Normal && c.bpm is Some
}

/// The `(beat, bpm)` points of the changes that set the tempo at a beat after
/// 0, in the order in which they are given.
pub open spec fn later_tempo_points<B>(changes: Seq<BeatChange<B>>) -> Seq<(u32, B)>
    decreases changes.len(),
{
    if changes.len() == 0 {
        Seq::empty()
    } else {
        let rest = later_tempo_points(changes.drop_last());
        let c = changes.last();
        if sets_tempo(c) && c.beat_32 > 0 {
            rest.push((c.beat_32, c.bpm.unwrap()))
        } else {
            rest
        }
    }
}

/// The tempo at beat 0: that of the last change that sets the tempo at beat 0,
/// or `bpm` where there is none.
pub open spec fn starting_bpm<B>(bpm: B, changes: Seq<BeatChange<B>>) -> B
    decreases changes.len(),
{
    if changes.len() == 0 {
        bpm
    } else {
        let c = changes.last();
        if sets_tempo(c) && c.beat_32 == 0 {
            c.bpm.unwrap()
        } else {
            starting_bpm(bpm, changes.drop_last())
        }
    }
}

/// The test `sets_tempo` as a predicate.
pub open spec fn tempo_setting<B>() -> spec_fn(BeatChange<B>) -> bool {
    |c: BeatChange<B>| sets_tempo(c)
}

/// Law: changes that do not set the tempo (any kind but `Normal`, or a
/// `Normal` one without a bpm) do not affect the tempo map: keeping only the
/// changes that set the tempo gives the same later points and starting tempo.
pub proof fn law_only_tempo_setting_changes_matter<B>(bpm: B, changes: Seq<BeatChange<B>>)
    ensures
        later_tempo_points(changes.filter(tempo_setting::<B>())) == later_tempo_points(changes),
        starting_bpm(bpm, changes.filter(tempo_setting::<B>())) == starting_bpm(bpm, changes),
    decreases changes.len(),
{
    reveal(Seq::filter);
    if changes.len() > 0 {
        let rest = changes.drop_last();
        law_only_tempo_setting_changes_matter(bpm, rest);
        let f = changes.filter(tempo_setting::<B>());
        let fr = rest.filter(tempo_setting::<B>());
        if sets_tempo(changes.last()) {
            assert(f == fr.push(changes.last()));
            assert(f.drop_last() =~= fr);
            assert(f.last() == changes.last());
        } else {
            assert(f == fr);
        }
    }
}

/// Whether the beats of `s` never decrease.
pub open spec fn sorted_by_beat<B>(s: Seq<(u32, B)>) -> bool {
    forall|i: int, j: int| 0 <= i <= j < s.len() ==> s[i].0 <= s[j].0
}

/// Whether a point lies at beat `k`.
pub open spec fn beat_is<B>(k: u32) -> spec_fn((u32, B)) -> bool {
    |e: (u32, B)| e.0 == k
}

/// The points of `s` at beat `k`, in their order in `s`.
pub open spec fn at_beat<B>(s: Seq<(u32, B)>, k: u32) -> Seq<(u32, B)> {
    s.filter(beat_is::<B>(k))
}

/// Whether a point lies before a position with ceiling `limit`.
pub open spec fn beat_below<B>(limit: u64) -> spec_fn((u32, B)) -> bool {
    |e: (u32, B)| (e.0 as u64) < limit
}

/// Whether `i` is the tempo segment that a position with ceiling `limit`
/// falls in: every point after the first up to `i` lies before the position,
/// and the next point, if any, does not.
pub open spec fn is_segment_of<B>(tempo: Seq<(u32, B)>, limit: u64, i: int) -> bool {
    &&& 0 <= i < tempo.len()
    &&& forall|j: int| 1 <= j <= i ==> (#[trigger] tempo[j]).0 < limit
    &&& (i + 1 == tempo.len() || tempo[i + 1].0 >= limit)
}

/// Inserting a point after every point at a beat no later than its own, and
/// before every later one, adds it at the end of its own beat and leaves the
/// points of every other beat as they were.
proof fn lemma_insert_at_beat<B>(t: Seq<(u32, B)>, p: int, x: (u32, B), k: u32)
    requires
        0 <= p <= t.len(),
        forall|j: int| 0 <= j < p ==> t[j].0 <= x.0,
        forall|j: int| p <= j < t.len() ==> t[j].0 > x.0,
    ensures
        at_beat(t.insert(p, x), k) == if k == x.0 {
            at_beat(t, k).push(x)
        } else {
            at_beat(t, k)
        },
{
    let pred = beat_is::<B>(k);
    let front = t.subrange(0, p);
    let back = t.subrange(p, t.len() as int);
    assert(t =~= front + back);
    assert(t.insert(p, x) =~= front.push(x) + back);
    Seq::filter_distributes_over_add(front, back, pred);
    Seq::filter_distributes_over_add(front.push(x), back, pred);
    front.lemma_filter_push(x, pred);
    if k == x.0 {
        assert(back.all(|e: (u32, B)| !pred(e))) by {
            assert forall|j: int| 0 <= j < back.len() implies !pred(#[trigger] back[j]) by {
                assert(back[j] == t[p + j]);
            }
        }
        back.lemma_all_neg_filter_empty(pred);
        assert(back.filter(pred) =~= Seq::<(u32, B)>::empty());
        assert(front.filter(pred).push(x) + back.filter(pred) =~= (front.filter(pred) + back.filter(pred)).push(x));
    }
}

/// Whether `r` is the tempo map of a project whose base tempo is `bpm`: its
/// first point is beat 0 at the starting tempo, and the rest, all at beats
/// after 0, are the points of the changes that set the tempo later on, sorted
/// by beat and in the given order among points at the same beat.
pub open spec fn is_tempo_map<B>(bpm: B, changes: Seq<BeatChange<B>>, r: Seq<(u32, B)>) -> bool {
    &&& r.len() == 1 + later_tempo_points(changes).len()
    &&& r[0] == (0u32, starting_bpm(bpm, changes))
    &&& sorted_by_beat(r)
    &&& forall|i: int| 1 <= i < r.len() ==> r[i].0 > 0
    &&& forall|k: u32| #[trigger] at_beat(r.drop_first(), k) == at_beat(later_tempo_points(changes), k)
}

/// Builds the tempo map of a project whose base tempo is `bpm`: the first
/// point is beat 0 at the starting tempo, followed by one point for every change
/// that sets the tempo at a later beat, ordered by beat, and in the given order
/// among changes at the same beat.
pub fn tempo_map<B: Copy>(bpm: B, changes: &Vec<BeatChange<B>>) -> (r: Vec<(u32, B)>)
    ensures
        is_tempo_map(bpm, changes@, r@),
{
    let mut start = bpm;
    let mut tail: Vec<(u32, B)> = Vec::new();
    let n = changes.len();
    let mut i: usize = 0;
    while i < n
        invariant
            n == changes@.len(),
            i <= n,
            start == starting_bpm(bpm, changes@.take(i as int)),
            tail@.len() == later_tempo_points(changes@.take(i as int)).len(),
            sorted_by_beat(tail@),
            forall|j: int| 0 <= j < tail@.len() ==> tail@[j].0 > 0,
            forall|k: u32| #[trigger] at_beat(tail@, k) == at_beat(later_tempo_points(changes@.take(i as int)), k),
        decreases n - i,
    {
        let ghost before = changes@.take(i as int);
        let ghost after = changes@.take(i + 1);
        assert(after.drop_last() =~= before);
        let c = &changes[i];
        assert(after.last() == *c);
        let sets = match c.change_type {
            BeatChangeType::Normal => c.bpm.is_some(),
            _ => false,
        };
        if sets {
            let v = c.bpm.unwrap();
            if c.beat_32 == 0 {
                start = v;
            } else {
                let beat = c.beat_32;
                let ghost old_tail = tail@;
                let mut p: usize = 0;
                while p < tail.len() && tail[p].0 <= beat
                    invariant
                        p <= tail@.len(),
                        forall|j: int| 0 <= j < p ==> tail@[j].0 <= beat,
                    decreases tail@.len() - p,
                {
                    p += 1;
                }
                assert forall|j: int| p <= j < tail@.len() implies tail@[j].0 > beat by {
                    assert(tail@[p as int].0 > beat);
                    assert(tail@[p as int].0 <= tail@[j].0);
                }
                tail.insert(p, (beat, v));
                proof {
                    old_tail.insert_ensures(p as int, (beat, v));
                    assert forall|k: u32| #[trigger] at_beat(tail@, k) == at_beat(later_tempo_points(after), k) by {
                        lemma_insert_at_beat(old_tail, p as int, (beat, v), k);
                        let pred = beat_is::<B>(k);
                        later_tempo_points(before).lemma_filter_push((beat, v), pred);
                    }
                    assert forall|a: int, b: int| 0 <= a <= b < tail@.len() implies tail@[a].0 <= tail@[b].0 by {
                        if a < p && b > p {
                            assert(tail@[a] == old_tail[a]);
                            assert(tail@[b] == old_tail[b - 1]);
                        } else if a < p && b < p {
                            assert(tail@[a] == old_tail[a]);
                            assert(tail@[b] == old_tail[b]);
                        } else if a > p {
                            assert(tail@[a] == old_tail[a - 1]);
                            assert(tail@[b] == old_tail[b - 1]);
                        } else if a < p && b == p {
                            assert(tail@[a] == old_tail[a]);
                        } else if a == p && b > p {
                            assert(tail@[b] == old_tail[b - 1]);
                        }
                    }
                    assert forall|j: int| 0 <= j < tail@.len() implies tail@[j].0 > 0 by {
                        if j < p {
                            assert(tail@[j] == old_tail[j]);
                        } else if j > p {
                            assert(tail@[j] == old_tail[j - 1]);
                        }
                    }
                }
            }
        }
        i += 1;
    }
    assert(changes@.take(n as int) =~= changes@);
    let ghost t = tail@;
    tail.insert(0, (0u32, start));
    proof {
        t.insert_ensures(0, (0u32, start));
        assert(tail@.drop_first() =~= t);
        assert forall|a: int, b: int| 0 <= a <= b < tail@.len() implies tail@[a].0 <= tail@[b].0 by {
            if a > 0 {
                assert(tail@[a] == t[a - 1]);
                assert(tail@[b] == t[b - 1]);
            }
        }
    }
    tail
}

/// Finds the tempo segment that a position falls in: from the first point on,
/// step to the next point while that point lies before the position. `limit` is the smallest integer not below the position
/// (0 for a position at or below 0), so that a point at beat `b` lies before the
/// position exactly when `b < limit`.
pub fn tempo_segment<B>(tempo: &Vec<(u32, B)>, limit: u64) -> (i: usize)
    requires
        tempo@.len() > 0,
    ensures
        is_segment_of(tempo@, limit, i as int),
{
    let n = tempo.len();
    let mut i: usize = 0;
    while i + 1 < n && (tempo[i + 1].0 as u64) < limit
        invariant
            n == tempo@.len(),
            i < n,
            forall|j: int| 1 <= j <= i ==> (#[trigger] tempo@[j]).0 < limit,
        decreases tempo@.len() - i,
    {
        i += 1;
    }
    i
}

/// Law: a position falls in exactly one tempo segment.
pub proof fn law_segment_unique<B>(tempo: Seq<(u32, B)>, limit: u64, i: int, j: int)
    requires
        is_segment_of(tempo, limit, i),
        is_segment_of(tempo, limit, j),
    ensures
        i == j,
{
    if i < j {
        assert(tempo[i + 1].0 < limit);
    } else if j < i {
        assert(tempo[j + 1].0 < limit);
    }
}

/// Law: in a sorted tempo map, a later position never falls in an earlier
/// segment.
pub proof fn law_segment_monotone<B>(tempo: Seq<(u32, B)>, l1: u64, l2: u64, i1: int, i2: int)
    requires
        sorted_by_beat(tempo),
        l1 <= l2,
        is_segment_of(tempo, l1, i1),
        is_segment_of(tempo, l2, i2),
    ensures
        i1 <= i2,
{
    if i2 < i1 {
        assert(tempo[i2 + 1].0 < l1);
    }
}

/// Law: in a sorted tempo map, the segment of a position is the number of
/// points after the first that lie before it.
pub proof fn law_segment_counts_earlier_points<B>(tempo: Seq<(u32, B)>, limit: u64, i: int)
    requires
        sorted_by_beat(tempo),
        is_segment_of(tempo, limit, i),
    ensures
        tempo.drop_first().filter(beat_below::<B>(limit)).len() == i,
{
    let pred = beat_below::<B>(limit);
    let rest = tempo.drop_first();
    let front = rest.take(i);
    let back = rest.skip(i);
    assert(rest =~= front + back);
    Seq::filter_distributes_over_add(front, back, pred);
    assert forall|j: int| 0 <= j < back.len() implies !pred(#[trigger] back[j]) by {
        assert(back[j] == tempo[i + 1 + j]);
        assert(tempo[i + 1].0 <= tempo[i + 1 + j].0);
    }
    assert(back.all(|e: (u32, B)| !pred(e)));
    back.lemma_all_neg_filter_empty(pred);
    assert forall|j: int| 0 <= j < front.len() implies pred(#[trigger] front[j]) by {
        assert(front[j] == tempo[j + 1]);
    }
    lemma_filter_all_kept(front, pred);
}

/// A filter that keeps every element keeps the whole sequence.
proof fn lemma_filter_all_kept<A>(s: Seq<A>, pred: spec_fn(A) -> bool)
    requires
        forall|j: int| 0 <= j < s.len() ==> pred(#[trigger] s[j]),
    ensures
        s.filter(pred).len() == s.len(),
    decreases s.len(),
{
    reveal(Seq::filter);
    if s.len() > 0 {
        let rest = s.drop_last();
        assert forall|j: int| 0 <= j < rest.len() implies pred(#[trigger] rest[j]) by {
            assert(rest[j] == s[j]);
        }
        lemma_filter_all_kept(rest, pred);
        assert(pred(s[s.len() - 1]));
    }
}

/// The points at beat `k` of a non-empty sequence: those of all but its last
/// point, followed by the last point where that lies at `k`.
proof fn lemma_at_beat_drop_last<B>(s: Seq<(u32, B)>, k: u32)
    requires
        s.len() > 0,
    ensures
        at_beat(s, k) == if s.last().0 == k {
            at_beat(s.drop_last(), k).push(s.last())
        } else {
            at_beat(s.drop_last(), k)
        },
{
    reveal(Seq::filter);
}

/// A sorted sequence with a point at beat `k` ends at a beat no earlier than `k`.
proof fn lemma_at_beat_bound<B>(s: Seq<(u32, B)>, k: u32)
    requires
        sorted_by_beat(s),
        at_beat(s, k).len() > 0,
    ensures
        s.len() > 0,
        k <= s.last().0,
    decreases s.len(),
{
    reveal(Seq::filter);
    if s.len() == 0 {
        assert(at_beat(s, k).len() == 0);
    } else {
        lemma_at_beat_drop_last(s, k);
        if s.last().0 != k {
            let rest = s.drop_last();
            assert(sorted_by_beat(rest));
            lemma_at_beat_bound(rest, k);
            assert(rest.last() == s[s.len() - 2]);
        }
    }
}

/// Two sorted sequences with the same points at every beat, in the same
/// order, are equal.
proof fn lemma_sorted_same_beats_equal<B>(s1: Seq<(u32, B)>, s2: Seq<(u32, B)>)
    requires
        sorted_by_beat(s1),
        sorted_by_beat(s2),
        forall|k: u32| #[trigger] at_beat(s1, k) == at_beat(s2, k),
    ensures
        s1 == s2,
    decreases s1.len() + s2.len(),
{
    reveal(Seq::filter);
    if s1.len() == 0 || s2.len() == 0 {
        if s1.len() > 0 {
            lemma_at_beat_drop_last(s1, s1.last().0);
            assert(at_beat(s2, s1.last().0).len() == 0);
        }
        if s2.len() > 0 {
            lemma_at_beat_drop_last(s2, s2.last().0);
            assert(at_beat(s1, s2.last().0).len() == 0);
        }
        assert(s1 =~= s2);
    } else {
        let m1 = s1.last().0;
        let m2 = s2.last().0;
        lemma_at_beat_drop_last(s1, m1);
        lemma_at_beat_drop_last(s2, m2);
        assert(at_beat(s2, m1) == at_beat(s1, m1));
        assert(at_beat(s1, m2) == at_beat(s2, m2));
        lemma_at_beat_bound(s2, m1);
        lemma_at_beat_bound(s1, m2);
        assert(m1 == m2);
        assert(at_beat(s1, m1).last() == s1.last());
        assert(at_beat(s2, m1).last() == s2.last());
        let r1 = s1.drop_last();
        let r2 = s2.drop_last();
        assert forall|k: u32| #[trigger] at_beat(r1, k) == at_beat(r2, k) by {
            lemma_at_beat_drop_last(s1, k);
            lemma_at_beat_drop_last(s2, k);
            if k == m1 {
                assert(at_beat(r1, k) =~= at_beat(s1, k).drop_last());
                assert(at_beat(r2, k) =~= at_beat(s2, k).drop_last());
            }
        }
        assert(sorted_by_beat(r1));
        assert(sorted_by_beat(r2));
        lemma_sorted_same_beats_equal(r1, r2);
        assert(s1 =~= r1.push(s1.last()));
        assert(s2 =~= r2.push(s2.last()));
    }
}

/// Law: a project has exactly one tempo map.
pub proof fn law_tempo_map_unique<B>(bpm: B, changes: Seq<BeatChange<B>>, r1: Seq<(u32, B)>, r2: Seq<(u32, B)>)
    requires
        is_tempo_map(bpm, changes, r1),
        is_tempo_map(bpm, changes, r2),
    ensures
        r1 == r2,
{
    let t1 = r1.drop_first();
    let t2 = r2.drop_first();
    assert forall|k: u32| #[trigger] at_beat(t1, k) == at_beat(t2, k) by {
        assert(at_beat(t1, k) == at_beat(later_tempo_points(changes), k));
        assert(at_beat(t2, k) == at_beat(later_tempo_points(changes), k));
    }
    assert(sorted_by_beat(t1));
    assert(sorted_by_beat(t2));
    lemma_sorted_same_beats_equal(t1, t2);
    assert(r1 =~= seq![r1[0]] + t1);
    assert(r2 =~= seq![r2[0]] + t2);
}

/// Law: adding or removing changes that do not set the tempo leaves the tempo
/// map unchanged: a project and the same project with only its tempo-setting
/// changes have the same map.
pub proof fn law_tempo_map_ignores_changes_that_set_no_tempo<B>(
    bpm: B,
    changes: Seq<BeatChange<B>>,
    r1: Seq<(u32, B)>,
    r2: Seq<(u32, B)>,
)
    requires
        is_tempo_map(bpm, changes, r1),
        is_tempo_map(bpm, changes.filter(tempo_setting::<B>()), r2),
    ensures
        r1 == r2,
{
    law_only_tempo_setting_changes_matter(bpm, changes);
    assert(is_tempo_map(bpm, changes, r2));
    law_tempo_map_unique(bpm, changes, r1, r2);
}

/// Whether no two changes that set the tempo share a beat.
pub open spec fn distinct_tempo_beats<B>(changes: Seq<BeatChange<B>>) -> bool {
    forall|i: int, j: int|
        0 <= i < j < changes.len() && sets_tempo(changes[i]) && sets_tempo(changes[j])
            ==> changes[i].beat_32 != changes[j].beat_32
}

/// Whether some change sets the tempo at beat `k`.
pub open spec fn has_tempo_at<B>(changes: Seq<BeatChange<B>>, k: u32) -> bool {
    exists|i: int| 0 <= i < changes.len() && sets_tempo(#[trigger] changes[i]) && changes[i].beat_32 == k
}

/// Where the changes set the tempo at distinct beats, the points at a beat
/// `k` after 0 are the one point of the change that sets the tempo there.
proof fn lemma_points_at_beat_found<B>(changes: Seq<BeatChange<B>>, k: u32, i: int)
    requires
        distinct_tempo_beats(changes),
        0 <= i < changes.len(),
        sets_tempo(changes[i]),
        changes[i].beat_32 == k,
        k > 0,
    ensures
        at_beat(later_tempo_points(changes), k) == seq![(k, changes[i].bpm.unwrap())],
    decreases changes.len(),
{
    let rest = changes.drop_last();
    let last = changes.last();
    let n = changes.len() - 1;
    let pred = beat_is::<B>(k);
    assert(distinct_tempo_beats(rest));
    later_tempo_points(rest).lemma_filter_push((last.beat_32, last.bpm.unwrap()), pred);
    if i == n {
        assert(!has_tempo_at(rest, k)) by {
            if has_tempo_at(rest, k) {
                let j = choose|j: int| 0 <= j < rest.len() && sets_tempo(#[trigger] rest[j]) && rest[j].beat_32 == k;
                assert(changes[j] == rest[j]);
            }
        }
        lemma_points_at_beat_absent(rest, k);
        assert(at_beat(later_tempo_points(rest), k) =~= Seq::<(u32, B)>::empty());
        assert(last == changes[i]);
    } else {
        assert(rest[i] == changes[i]);
        lemma_points_at_beat_found(rest, k, i);
        assert(!(sets_tempo(last) && last.beat_32 == k));
    }
}

/// Where no change sets the tempo at beat `k`, there is no point at `k`.
proof fn lemma_points_at_beat_absent<B>(changes: Seq<BeatChange<B>>, k: u32)
    requires
        !has_tempo_at(changes, k),
    ensures
        at_beat(later_tempo_points(changes), k).len() == 0,
    decreases changes.len(),
{
    reveal(Seq::filter);
    if changes.len() > 0 {
        let rest = changes.drop_last();
        let last = changes.last();
        assert(!has_tempo_at(rest, k)) by {
            if has_tempo_at(rest, k) {
                let j = choose|j: int| 0 <= j < rest.len() && sets_tempo(#[trigger] rest[j]) && rest[j].beat_32 == k;
                assert(changes[j] == rest[j]);
            }
        }
        lemma_points_at_beat_absent(rest, k);
        assert(!(sets_tempo(last) && last.beat_32 == k)) by {
            assert(changes[changes.len() - 1] == last);
        }
        later_tempo_points(rest).lemma_filter_push((last.beat_32, last.bpm.unwrap()), beat_is::<B>(k));
    }
}

/// There is no later point at beat 0.
proof fn lemma_no_points_at_zero<B>(changes: Seq<BeatChange<B>>)
    ensures
        at_beat(later_tempo_points(changes), 0).len() == 0,
    decreases changes.len(),
{
    if changes.len() > 0 {
        let rest = changes.drop_last();
        let last = changes.last();
        lemma_no_points_at_zero(rest);
        later_tempo_points(rest).lemma_filter_push((last.beat_32, last.bpm.unwrap()), beat_is::<B>(0));
    }
}

/// Where the changes set the tempo at distinct beats, the starting tempo is
/// that of the change that sets it at beat 0, if there is one, and `bpm`
/// otherwise.
proof fn lemma_starting_bpm_distinct<B>(bpm: B, changes: Seq<BeatChange<B>>)
    requires
        distinct_tempo_beats(changes),
    ensures
        has_tempo_at(changes, 0) ==> forall|i: int|
            0 <= i < changes.len() && sets_tempo(#[trigger] changes[i]) && changes[i].beat_32 == 0
                ==> starting_bpm(bpm, changes) == changes[i].bpm.unwrap(),
        !has_tempo_at(changes, 0) ==> starting_bpm(bpm, changes) == bpm,
    decreases changes.len(),
{
    if changes.len() > 0 {
        let rest = changes.drop_last();
        let last = changes.last();
        let n = changes.len() - 1;
        assert(distinct_tempo_beats(rest));
        lemma_starting_bpm_distinct(bpm, rest);
        assert(changes[n] == last);
        assert forall|i: int| 0 <= i < rest.len() implies #[trigger] rest[i] == changes[i] by {}
        if sets_tempo(last) && last.beat_32 == 0 {
            assert forall|i: int|
                0 <= i < changes.len() && sets_tempo(#[trigger] changes[i]) && changes[i].beat_32 == 0
                    implies starting_bpm(bpm, changes) == changes[i].bpm.unwrap() by {
                assert(i == n);
            }
        } else {
            if has_tempo_at(changes, 0) {
                let j = choose|j: int| 0 <= j < changes.len() && sets_tempo(#[trigger] changes[j]) && changes[j].beat_32 == 0;
                assert(rest[j] == changes[j]);
                assert(has_tempo_at(rest, 0));
            } else {
                assert(!has_tempo_at(rest, 0)) by {
                    if has_tempo_at(rest, 0) {
                        let j = choose|j: int| 0 <= j < rest.len() && sets_tempo(#[trigger] rest[j]) && rest[j].beat_32 == 0;
                        assert(changes[j] == rest[j]);
                    }
                }
            }
        }
    }
}

/// Changes holding the same elements set the tempo at the same beats.
proof fn lemma_same_elements_same_beats<B>(c1: Seq<BeatChange<B>>, c2: Seq<BeatChange<B>>, k: u32)
    requires
        c1.to_multiset() == c2.to_multiset(),
        has_tempo_at(c1, k),
    ensures
        has_tempo_at(c2, k),
        forall|i: int| 0 <= i < c1.len() && sets_tempo(#[trigger] c1[i]) && c1[i].beat_32 == k
            ==> c2.contains(c1[i]),
{
    broadcast use vstd::seq_lib::group_to_multiset_ensures;
    let i = choose|i: int| 0 <= i < c1.len() && sets_tempo(#[trigger] c1[i]) && c1[i].beat_32 == k;
    assert(c1.contains(c1[i]));
    assert(c1.to_multiset().count(c1[i]) > 0);
    assert(c2.to_multiset().count(c1[i]) > 0);
    assert(c2.contains(c1[i]));
    let j = choose|j: int| 0 <= j < c2.len() && c2[j] == c1[i];
    assert(sets_tempo(c2[j]));
    assert forall|i: int| 0 <= i < c1.len() && sets_tempo(#[trigger] c1[i]) && c1[i].beat_32 == k
        implies c2.contains(c1[i]) by {
        assert(c1.contains(c1[i]));
        assert(c1.to_multiset().count(c1[i]) > 0);
        assert(c2.to_multiset().count(c1[i]) > 0);
    }
}

/// Law: where no two changes set the tempo at the same beat, the order in
/// which the changes are given does not matter: the same changes in any order
/// give the same tempo map.
pub proof fn law_tempo_map_order_independent<B>(
    bpm: B,
    c1: Seq<BeatChange<B>>,
    c2: Seq<BeatChange<B>>,
    r1: Seq<(u32, B)>,
    r2: Seq<(u32, B)>,
)
    requires
        c1.to_multiset() == c2.to_multiset(),
        distinct_tempo_beats(c1),
        distinct_tempo_beats(c2),
        is_tempo_map(bpm, c1, r1),
        is_tempo_map(bpm, c2, r2),
    ensures
        r1 == r2,
{
    let t1 = r1.drop_first();
    let t2 = r2.drop_first();
    assert forall|k: u32| #[trigger] at_beat(t1, k) == at_beat(t2, k) by {
        assert(at_beat(t1, k) == at_beat(later_tempo_points(c1), k));
        assert(at_beat(t2, k) == at_beat(later_tempo_points(c2), k));
        if k == 0 {
            lemma_no_points_at_zero(c1);
            lemma_no_points_at_zero(c2);
            assert(at_beat(t1, k) =~= at_beat(t2, k));
        } else if has_tempo_at(c1, k) {
            lemma_same_elements_same_beats(c1, c2, k);
            let i = choose|i: int| 0 <= i < c1.len() && sets_tempo(#[trigger] c1[i]) && c1[i].beat_32 == k;
            assert(c2.contains(c1[i]));
            let j = choose|j: int| 0 <= j < c2.len() && c2[j] == c1[i];
            lemma_points_at_beat_found(c1, k, i);
            lemma_points_at_beat_found(c2, k, j);
        } else {
            assert(!has_tempo_at(c2, k)) by {
                if has_tempo_at(c2, k) {
                    lemma_same_elements_same_beats(c2, c1, k);
                }
            }
            lemma_points_at_beat_absent(c1, k);
            lemma_points_at_beat_absent(c2, k);
            assert(at_beat(t1, k) =~= at_beat(t2, k));
        }
    }
    lemma_starting_bpm_distinct(bpm, c1);
    lemma_starting_bpm_distinct(bpm, c2);
    if has_tempo_at(c1, 0) {
        lemma_same_elements_same_beats(c1, c2, 0);
        let i = choose|i: int| 0 <= i < c1.len() && sets_tempo(#[trigger] c1[i]) && c1[i].beat_32 == 0;
        assert(c2.contains(c1[i]));
        let j = choose|j: int| 0 <= j < c2.len() && c2[j] == c1[i];
        assert(sets_tempo(c2[j]) && c2[j].beat_32 == 0);
    } else {
        assert(!has_tempo_at(c2, 0)) by {
            if has_tempo_at(c2, 0) {
                lemma_same_elements_same_beats(c2, c1, 0);
            }
        }
    }
    assert(sorted_by_beat(t1));
    assert(sorted_by_beat(t2));
    lemma_sorted_same_beats_equal(t1, t2);
    assert(r1 =~= seq![r1[0]] + t1);
    assert(r2 =~= seq![r2[0]] + t2);
}

} // verus!
