//! Network simplification: geometry simplification, grouping, chaining
//! through shared endpoints under the turn-angle margin, splitting at true
//! junctions, and splitting where tags disagree.

use crate::coord::Coord;
use crate::geometry::{simplify_polygon, simplify_spec, turn_ok, turn_ok_exec, SIMPLIFY_EPS2_X2};
use crate::grouping::{group_key, group_segments, groups_wf, GroupTable};
use crate::maps::{lemma_map_of_dom, lemma_map_of_get, lemma_map_of_update, map_of, TagMap};
use crate::segment::{Junction, Segment, SimplifyMethod, Way};
use vstd::prelude::*;

verus! {

/// The number of incidences (segment endpoints) at a coordinate hash over
/// the first `n` segments: a segment contributes its start and its end.
pub open spec fn inc_count(segs: Seq<Segment>, h: u64, n: int) -> int
    decreases n,
{
    if n <= 0 {
        0
    } else {
        inc_count(segs, h, n - 1) + (if segs[n - 1].start_node == h {
            1int
        } else {
            0int
        }) + (if segs[n - 1].end_node == h {
            1int
        } else {
            0int
        })
    }
}

/// The junction index: for each coordinate hash, the segments incident
/// there.
pub struct JunctionTable {
    keys: Vec<u64>,
    vals: Vec<Junction>,
}

impl JunctionTable {
    /// The hashes, in insertion order.
    pub closed spec fn key_seq(self) -> Seq<u64> {
        self.keys@
    }

    /// The incidence counts, in the same order.
    pub closed spec fn count_seq(self) -> Seq<int> {
        self.vals@.map_values(|j: Junction| j.segment_indices@.len() as int)
    }

    /// Keys are distinct and parallel to the values.
    pub open spec fn wf(self) -> bool {
        &&& self.key_seq().len() == self.count_seq().len()
        &&& forall|a: int, b: int|
            0 <= a < b < self.key_seq().len() ==> self.key_seq()[a] != self.key_seq()[b]
    }

    /// The number of incidences recorded at a hash.
    #[verifier::opaque]
    pub open spec fn count_of(self, h: u64) -> int {
        if map_of(self.key_seq(), self.count_seq()).dom().contains(h) {
            map_of(self.key_seq(), self.count_seq())[h]
        } else {
            0
        }
    }

    /// An empty index.
    pub fn new() -> (r: JunctionTable)
        ensures
            r.wf(),
            forall|h: u64| #[trigger] r.count_of(h) == 0,
    {
        let r = JunctionTable { keys: Vec::new(), vals: Vec::new() };
        proof {
            reveal(JunctionTable::count_of);
            assert(r.count_seq() =~= Seq::<int>::empty());
            lemma_map_of_dom(r.key_seq(), r.count_seq());
            assert forall|h: u64| #[trigger] r.count_of(h) == 0 by {
                if map_of(r.key_seq(), r.count_seq()).dom().contains(h) {
                    assert(r.key_seq().contains(h));
                }
            }
        }
        r
    }

    /// Where `h` sits in the list, if anywhere.
    fn find(&self, h: u64) -> (r: Option<usize>)
        ensures
            match r {
                Option::Some(i) => i < self.key_seq().len() && self.key_seq()[i as int] == h,
                Option::None => forall|i: int|
                    0 <= i < self.key_seq().len() ==> self.key_seq()[i] != h,
            },
    {
        let n = self.keys.len();
        let mut i: usize = 0;
        while i < n
            invariant
                i <= n,
                n == self.key_seq().len(),
                forall|k: int| 0 <= k < i ==> self.key_seq()[k] != h,
            decreases n - i,
        {
            if self.keys[i] == h {
                return Option::Some(i);
            }
            i = i + 1;
        }
        Option::None
    }

    /// The number of incidences at a hash.
    pub fn count(&self, h: u64) -> (r: usize)
        requires
            self.wf(),
        ensures
            r as int == self.count_of(h),
    {
        proof {
            reveal(JunctionTable::count_of);
            lemma_map_of_dom(self.key_seq(), self.count_seq());
        }
        match self.find(h) {
            Option::Some(i) => {
                proof {
                    lemma_map_of_get(self.key_seq(), self.count_seq(), i as int);
                    assert(self.key_seq().contains(h));
                }
                self.vals[i].segment_indices.len()
            },
            Option::None => {
                proof {
                    if self.key_seq().contains(h) {
                        let i = choose|i: int|
                            0 <= i < self.key_seq().len() && self.key_seq()[i] == h;
                    }
                }
                0
            },
        }
    }

    /// Record one incidence of a segment at a hash.
    fn add_incidence(&mut self, h: u64, idx: usize)
        requires
            old(self).wf(),
        ensures
            final(self).wf(),
            final(self).count_of(h) == old(self).count_of(h) + 1,
            forall|x: u64| x != h ==> #[trigger] final(self).count_of(x) == old(self).count_of(x),
    {
        proof {
            reveal(JunctionTable::count_of);
            lemma_map_of_dom(old(self).key_seq(), old(self).count_seq());
        }
        match self.find(h) {
            Option::Some(i) => {
                proof {
                    assert(self.key_seq().contains(h));
                    lemma_map_of_get(self.key_seq(), self.count_seq(), i as int);
                }
                let ghost oldks = self.key_seq();
                let ghost oldcs = self.count_seq();
                let mut j = self.vals.remove(i);
                j.segment_indices.push(idx);
                self.vals.insert(i, j);
                proof {
                    assert(self.key_seq() =~= oldks);
                    assert(self.count_seq() =~= oldcs.update(i as int, oldcs[i as int] + 1));
                    lemma_map_of_update(oldks, oldcs, i as int, oldcs[i as int] + 1);
                    lemma_map_of_dom(self.key_seq(), self.count_seq());
                    assert forall|x: u64|
                        x != h implies #[trigger] self.count_of(x) == old(self).count_of(x) by {
                        if map_of(oldks, oldcs).dom().contains(x) {
                            let t = choose|t: int| 0 <= t < oldks.len() && oldks[t] == x;
                            lemma_map_of_get(oldks, oldcs, t);
                            lemma_map_of_get(self.key_seq(), self.count_seq(), t);
                        }
                    }
                }
            },
            Option::None => {
                proof {
                    if old(self).key_seq().contains(h) {
                        let i = choose|i: int|
                            0 <= i < old(self).key_seq().len() && old(self).key_seq()[i] == h;
                    }
                }
                let ghost oldks = self.key_seq();
                let ghost oldcs = self.count_seq();
                let mut si: Vec<usize> = Vec::new();
                si.push(idx);
                self.keys.push(h);
                self.vals.push(Junction { segment_indices: si });
                proof {
                    assert(self.key_seq() =~= oldks.push(h));
                    assert(self.count_seq() =~= oldcs.push(1int));
                    assert(self.key_seq().drop_last() =~= oldks);
                    assert(self.count_seq().drop_last() =~= oldcs);
                    lemma_map_of_dom(self.key_seq(), self.count_seq());
                    assert forall|x: u64|
                        x != h implies #[trigger] self.count_of(x) == old(self).count_of(x) by {
                        if map_of(oldks, oldcs).dom().contains(x) {
                            let t = choose|t: int| 0 <= t < oldks.len() && oldks[t] == x;
                            lemma_map_of_get(oldks, oldcs, t);
                            lemma_map_of_get(self.key_seq(), self.count_seq(), t);
                        }
                    }
                }
            },
        }
    }
}

/// Build the junction index of a network.
pub fn build_junctions(segments: &Vec<Segment>) -> (r: JunctionTable)
    ensures
        r.wf(),
        forall|h: u64| #[trigger] r.count_of(h) == inc_count(segments@, h, segments@.len() as int),
{
    let n = segments.len();
    let mut t = JunctionTable::new();
    let mut i: usize = 0;
    while i < n
        invariant
            i <= n,
            n == segments@.len(),
            t.wf(),
            forall|h: u64| #[trigger] t.count_of(h) == inc_count(segments@, h, i as int),
        decreases n - i,
    {
        let s = segments[i].start_node;
        let e = segments[i].end_node;
        t.add_incidence(s, i);
        t.add_incidence(e, i);
        i = i + 1;
    }
    t
}

/// The two direction vectors the turn between two touching segments is
/// measured over, picked by which endpoints coincide: the last stretch of
/// the incoming side and the first stretch of the outgoing side.
#[verifier::opaque]
pub open spec fn seg_turn_ok(s1: Segment, s2: Segment) -> bool {
    let g1 = s1.geometry@;
    let g2 = s2.geometry@;
    let p1x = crate::geometry::proj_x_spec(g1[g1.len() - 2]);
    let p1l = crate::geometry::proj_x_spec(g1.last());
    let p10 = crate::geometry::proj_x_spec(g1[0]);
    let p11 = crate::geometry::proj_x_spec(g1[1]);
    let p20 = crate::geometry::proj_x_spec(g2[0]);
    let p21 = crate::geometry::proj_x_spec(g2[1]);
    let p2x = crate::geometry::proj_x_spec(g2[g2.len() - 2]);
    let p2l = crate::geometry::proj_x_spec(g2.last());
    if s1.end_node == s2.start_node {
        turn_ok(
            p1l - p1x,
            g1.last().lat7 - g1[g1.len() - 2].lat7,
            p21 - p20,
            g2[1].lat7 - g2[0].lat7,
        )
    } else if s1.start_node == s2.end_node {
        turn_ok(
            p10 - p11,
            g1[0].lat7 - g1[1].lat7,
            p2x - p2l,
            g2[g2.len() - 2].lat7 - g2.last().lat7,
        )
    } else if s1.start_node == s2.start_node {
        turn_ok(
            p10 - p11,
            g1[0].lat7 - g1[1].lat7,
            p21 - p20,
            g2[1].lat7 - g2[0].lat7,
        )
    } else {
        turn_ok(
            p1l - p1x,
            g1.last().lat7 - g1[g1.len() - 2].lat7,
            p2x - p2l,
            g2[g2.len() - 2].lat7 - g2.last().lat7,
        )
    }
}

/// Is the turn from `s1` into `s2` within the merge margin?
pub fn compute_junction_angle_ok(s1: &Segment, s2: &Segment) -> (r: bool)
    requires
        s1.wf(),
        s2.wf(),
    ensures
        r == seg_turn_ok(*s1, *s2),
{
    proof {
        reveal(seg_turn_ok);
    }
    let n1 = s1.geometry.len();
    let n2 = s2.geometry.len();
    let a_prev = crate::geometry::proj_x(&s1.geometry[n1 - 2]);
    let a_last = crate::geometry::proj_x(&s1.geometry[n1 - 1]);
    let a_0 = crate::geometry::proj_x(&s1.geometry[0]);
    let a_1 = crate::geometry::proj_x(&s1.geometry[1]);
    let b_0 = crate::geometry::proj_x(&s2.geometry[0]);
    let b_1 = crate::geometry::proj_x(&s2.geometry[1]);
    let b_prev = crate::geometry::proj_x(&s2.geometry[n2 - 2]);
    let b_last = crate::geometry::proj_x(&s2.geometry[n2 - 1]);
    if s1.end_node == s2.start_node {
        turn_ok_exec(
            a_last - a_prev,
            s1.geometry[n1 - 1].lat7 - s1.geometry[n1 - 2].lat7,
            b_1 - b_0,
            s2.geometry[1].lat7 - s2.geometry[0].lat7,
        )
    } else if s1.start_node == s2.end_node {
        turn_ok_exec(
            a_0 - a_1,
            s1.geometry[0].lat7 - s1.geometry[1].lat7,
            b_prev - b_last,
            s2.geometry[n2 - 2].lat7 - s2.geometry[n2 - 1].lat7,
        )
    } else if s1.start_node == s2.start_node {
        turn_ok_exec(
            a_0 - a_1,
            s1.geometry[0].lat7 - s1.geometry[1].lat7,
            b_1 - b_0,
            s2.geometry[1].lat7 - s2.geometry[0].lat7,
        )
    } else {
        turn_ok_exec(
            a_last - a_prev,
            s1.geometry[n1 - 1].lat7 - s1.geometry[n1 - 2].lat7,
            b_prev - b_last,
            s2.geometry[n2 - 2].lat7 - s2.geometry[n2 - 1].lat7,
        )
    }
}

/// Index list chained end to start over the segment list.
pub open spec fn chained_idxs(way: Seq<usize>, segs: Seq<Segment>) -> bool {
    &&& forall|k: int| 0 <= k < way.len() ==> (#[trigger] way[k]) < segs.len()
    &&& forall|k: int|
        0 <= k < way.len() - 1 ==> segs[(#[trigger] way[k]) as int].end_node == segs[way[k + 1] as int].start_node
}

/// The number of true flags.
pub open spec fn count_true(s: Seq<bool>) -> int
    decreases s.len(),
{
    if s.len() == 0 {
        0
    } else {
        count_true(s.drop_last()) + (if s.last() {
            1int
        } else {
            0int
        })
    }
}

/// Clearing a set flag lowers the count by one.
proof fn lemma_count_true_clear(s: Seq<bool>, i: int)
    requires
        0 <= i < s.len(),
        s[i],
    ensures
        count_true(s.update(i, false)) == count_true(s) - 1,
    decreases s.len(),
{
    let u = s.update(i, false);
    if i == s.len() - 1 {
        assert(u.drop_last() =~= s.drop_last());
    } else {
        assert(u.drop_last() =~= s.drop_last().update(i, false));
        lemma_count_true_clear(s.drop_last(), i);
    }
}

/// The count of set flags is bounded by the length.
proof fn lemma_count_true_nonneg(s: Seq<bool>)
    ensures
        0 <= count_true(s) <= s.len(),
    decreases s.len(),
{
    if s.len() > 0 {
        lemma_count_true_nonneg(s.drop_last());
    }
}

/// A remaining candidate whose start continues the chain within the turn
/// margin, if there is one: the first in group order.
fn find_forward(
    segments: &Vec<Segment>,
    gi: &Vec<usize>,
    remaining: &Vec<bool>,
    last_node: u64,
    last_idx: usize,
) -> (r: Option<usize>)
    requires
        forall|i: int| 0 <= i < segments@.len() ==> (#[trigger] segments@[i]).wf(),
        remaining@.len() == gi@.len(),
        forall|i: int| 0 <= i < gi@.len() ==> (#[trigger] gi@[i]) < segments@.len(),
        last_idx < segments@.len(),
    ensures
        match r {
            Option::Some(p) => p < gi@.len() && remaining@[p as int] && segments@[gi@[p as int] as int].start_node
                == last_node && seg_turn_ok(
                segments@[last_idx as int],
                segments@[gi@[p as int] as int],
            ),
            Option::None => true,
        },
{
    let n = gi.len();
    let mut p: usize = 0;
    while p < n
        invariant
            p <= n,
            n == gi@.len(),
            remaining@.len() == gi@.len(),
            forall|i: int| 0 <= i < segments@.len() ==> (#[trigger] segments@[i]).wf(),
            forall|i: int| 0 <= i < gi@.len() ==> (#[trigger] gi@[i]) < segments@.len(),
            last_idx < segments@.len(),
        decreases n - p,
    {
        if remaining[p] {
            let cand = gi[p];
            if segments[cand].start_node == last_node {
                if compute_junction_angle_ok(&segments[last_idx], &segments[cand]) {
                    return Option::Some(p);
                }
            }
        }
        p = p + 1;
    }
    Option::None
}

/// A remaining candidate whose end continues the chain backward within the
/// turn margin, if there is one.
fn find_backward(
    segments: &Vec<Segment>,
    gi: &Vec<usize>,
    remaining: &Vec<bool>,
    first_node: u64,
    first_idx: usize,
) -> (r: Option<usize>)
    requires
        forall|i: int| 0 <= i < segments@.len() ==> (#[trigger] segments@[i]).wf(),
        remaining@.len() == gi@.len(),
        forall|i: int| 0 <= i < gi@.len() ==> (#[trigger] gi@[i]) < segments@.len(),
        first_idx < segments@.len(),
    ensures
        match r {
            Option::Some(p) => p < gi@.len() && remaining@[p as int] && segments@[gi@[p as int] as int].end_node
                == first_node && seg_turn_ok(
                segments@[gi@[p as int] as int],
                segments@[first_idx as int],
            ),
            Option::None => true,
        },
{
    let n = gi.len();
    let mut p: usize = 0;
    while p < n
        invariant
            p <= n,
            n == gi@.len(),
            remaining@.len() == gi@.len(),
            forall|i: int| 0 <= i < segments@.len() ==> (#[trigger] segments@[i]).wf(),
            forall|i: int| 0 <= i < gi@.len() ==> (#[trigger] gi@[i]) < segments@.len(),
            first_idx < segments@.len(),
        decreases n - p,
    {
        if remaining[p] {
            let cand = gi[p];
            if segments[cand].end_node == first_node {
                if compute_junction_angle_ok(&segments[cand], &segments[first_idx]) {
                    return Option::Some(p);
                }
            }
        }
        p = p + 1;
    }
    Option::None
}

/// One way is a chained run of valid segment indices and its tag map is
/// the (shared) tag map of each of its segments.
pub open spec fn way_ok(w: Way, segs: Seq<Segment>) -> bool {
    &&& w.chained(segs)
    &&& w.tags.wf()
    &&& forall|k: int|
        0 <= k < w.segment_indices@.len() ==> segs[(#[trigger] w.segment_indices@[k]) as int].tags@
            == w.tags@
}

/// Every way of the list is well formed.
pub open spec fn ways_wf(ways: Seq<Way>, segs: Seq<Segment>) -> bool {
    forall|w: int| 0 <= w < ways.len() ==> way_ok(#[trigger] ways[w], segs)
}

/// Consecutive members of an index run turn within the merge margin.
#[verifier::opaque]
pub open spec fn turns_ok_idxs(way: Seq<usize>, segs: Seq<Segment>) -> bool {
    forall|i: int|
        0 <= i < way.len() - 1 ==> seg_turn_ok(
            segs[(#[trigger] way[i]) as int],
            segs[way[i + 1] as int],
        )
}

/// No interior boundary of an index run is a true junction: every shared
/// endpoint inside the run has fewer than three incidences network-wide.
#[verifier::opaque]
pub open spec fn splits_ok_idxs(way: Seq<usize>, segs: Seq<Segment>) -> bool {
    forall|i: int|
        0 <= i < way.len() - 1 ==> inc_count(
            segs,
            segs[(#[trigger] way[i]) as int].end_node,
            segs.len() as int,
        ) < 3
}

/// Every way of the list respects the turn margin between consecutive
/// members and has been split at every true junction.
pub open spec fn ways_merged_ok(ways: Seq<Way>, segs: Seq<Segment>) -> bool {
    forall|w: int|
        0 <= w < ways.len() ==> turns_ok_idxs((#[trigger] ways[w]).segment_indices@, segs)
            && splits_ok_idxs(ways[w].segment_indices@, segs)
}

/// The members of all ways, concatenated in emission order.
#[verifier::opaque]
pub open spec fn concat_members(ways: Seq<Way>) -> Seq<usize>
    decreases ways.len(),
{
    if ways.len() == 0 {
        Seq::empty()
    } else {
        concat_members(ways.drop_last()) + ways.last().segment_indices@
    }
}

/// Appending a way appends its members.
proof fn lemma_concat_push(ways: Seq<Way>, w: Way)
    ensures
        concat_members(ways.push(w)) == concat_members(ways) + w.segment_indices@,
{
    reveal(concat_members);
    assert(ways.push(w).drop_last() =~= ways);
    assert(ways.push(w).last() == w);
}

/// The empty way list has no members.
proof fn lemma_concat_empty(ways: Seq<Way>)
    requires
        ways.len() == 0,
    ensures
        concat_members(ways) == Seq::<usize>::empty(),
{
    reveal(concat_members);
}

/// The members of a chain list, concatenated.
#[verifier::opaque]
pub open spec fn concat_chains(chains: Seq<Vec<usize>>) -> Seq<usize>
    decreases chains.len(),
{
    if chains.len() == 0 {
        Seq::empty()
    } else {
        concat_chains(chains.drop_last()) + chains.last()@
    }
}

/// Appending a chain appends its members.
proof fn lemma_chains_push(chains: Seq<Vec<usize>>, c: Vec<usize>)
    ensures
        concat_chains(chains.push(c)) == concat_chains(chains) + c@,
{
    reveal(concat_chains);
    assert(chains.push(c).drop_last() =~= chains);
    assert(chains.push(c).last() == c);
}

/// Every piece of a chain list is a nonempty chained run that meets the
/// turn and split conditions.
#[verifier::opaque]
pub open spec fn chains_ok(chains: Seq<Vec<usize>>, segs: Seq<Segment>) -> bool {
    forall|c: int|
        0 <= c < chains.len() ==> chained_idxs((#[trigger] chains[c])@, segs) && chains[c]@.len()
            >= 1 && turns_ok_idxs(chains[c]@, segs) && splits_ok_idxs(chains[c]@, segs)
}

/// The empty chain list is well formed.
proof fn lemma_chains_ok_empty(chains: Seq<Vec<usize>>, segs: Seq<Segment>)
    requires
        chains.len() == 0,
    ensures
        chains_ok(chains, segs),
{
    reveal(chains_ok);
}

/// Appending a well-formed piece keeps the chain list well formed.
proof fn lemma_chains_ok_push(chains: Seq<Vec<usize>>, segs: Seq<Segment>, c: Vec<usize>)
    requires
        chains_ok(chains, segs),
        chained_idxs(c@, segs),
        c@.len() >= 1,
        turns_ok_idxs(c@, segs),
        splits_ok_idxs(c@, segs),
    ensures
        chains_ok(chains.push(c), segs),
{
    reveal(chains_ok);
    assert forall|t: int|
        0 <= t < chains.push(c).len() implies chained_idxs(
        (#[trigger] chains.push(c)[t])@,
        segs,
    ) && chains.push(c)[t]@.len() >= 1 && turns_ok_idxs(chains.push(c)[t]@, segs)
        && splits_ok_idxs(chains.push(c)[t]@, segs) by {
        if t < chains.len() {
            assert(chains.push(c)[t] == chains[t]);
        } else {
            assert(chains.push(c)[t] == c);
        }
    }
}

/// One piece of a well-formed chain list.
proof fn lemma_chains_ok_at(chains: Seq<Vec<usize>>, segs: Seq<Segment>, c: int)
    requires
        chains_ok(chains, segs),
        0 <= c < chains.len(),
    ensures
        chained_idxs(chains[c]@, segs),
        chains[c]@.len() >= 1,
        turns_ok_idxs(chains[c]@, segs),
        splits_ok_idxs(chains[c]@, segs),
{
    reveal(chains_ok);
}

/// The empty chain list has no members.
proof fn lemma_chains_empty(chains: Seq<Vec<usize>>)
    requires
        chains.len() == 0,
    ensures
        concat_chains(chains) == Seq::<usize>::empty(),
{
    reveal(concat_chains);
}

/// Distinct group positions hold distinct segment indices: within a group
/// members ascend strictly, and across groups a shared index would force
/// two distinct group keys to coincide.
proof fn lemma_groups_distinct(
    gt: &GroupTable,
    segs: Seq<Segment>,
    method: SimplifyMethod,
    t1: int,
    j1: int,
    t2: int,
    j2: int,
)
    requires
        groups_wf(*gt, segs, method),
        0 <= t1 < gt.val_seq().len(),
        0 <= j1 < gt.val_seq()[t1].len(),
        0 <= t2 < gt.val_seq().len(),
        0 <= j2 < gt.val_seq()[t2].len(),
        (t1, j1) != (t2, j2),
    ensures
        gt.val_seq()[t1][j1] != gt.val_seq()[t2][j2],
{
    if t1 == t2 {
        if j1 < j2 {
            assert(gt.val_seq()[t1][j1] < gt.val_seq()[t1][j2]);
        } else {
            assert(gt.val_seq()[t1][j2] < gt.val_seq()[t1][j1]);
        }
    } else {
        if gt.val_seq()[t1][j1] == gt.val_seq()[t2][j2] {
            assert(group_key(segs[gt.val_seq()[t1][j1] as int], method) == gt.key_seq()[t1]);
            assert(group_key(segs[gt.val_seq()[t2][j2] as int], method) == gt.key_seq()[t2]);
        }
    }
}

/// Some group before `upto` holds this index.
pub open spec fn covered_upto(vals: Seq<Seq<usize>>, upto: int, idx: int) -> bool {
    exists|g: int, j: int|
        0 <= g < upto && g < vals.len() && 0 <= j < vals[g].len() && (#[trigger] vals[g][j]) == idx
}

/// Full coverage is coverage below the length.
proof fn lemma_covered_full(vals: Seq<Seq<usize>>, idx: int)
    ensures
        covered_upto(vals, vals.len() as int, idx) <==> crate::grouping::covered_in(vals, idx),
{
    if covered_upto(vals, vals.len() as int, idx) {
        let (g, j): (int, int) = choose|g: int, j: int|
            0 <= g < vals.len() && g < vals.len() && 0 <= j < vals[g].len() && (
            #[trigger] vals[g][j]) == idx;
        assert(vals[g][j] == idx);
    }
    if crate::grouping::covered_in(vals, idx) {
        let (g, j): (int, int) = choose|g: int, j: int|
            0 <= g < vals.len() && 0 <= j < vals[g].len() && (#[trigger] vals[g][j]) == idx;
        assert(0 <= g < vals.len() as int && g < vals.len() && 0 <= j < vals[g].len() && vals[g][j]
            == idx);
    }
}


/// A run of at most one member trivially meets the turn and split
/// conditions.
proof fn lemma_run_single(segs: Seq<Segment>, run: Seq<usize>)
    requires
        run.len() <= 1,
    ensures
        turns_ok_idxs(run, segs),
        splits_ok_idxs(run, segs),
{
    reveal(turns_ok_idxs);
    reveal(splits_ok_idxs);
}

/// The turn between two consecutive members of a run.
proof fn lemma_run_pair(segs: Seq<Segment>, run: Seq<usize>, i: int)
    requires
        turns_ok_idxs(run, segs),
        0 <= i < run.len() - 1,
    ensures
        seg_turn_ok(segs[run[i] as int], segs[run[i + 1] as int]),
{
    reveal(turns_ok_idxs);
}

/// The incidence bound at an interior boundary of a run.
proof fn lemma_run_boundary(segs: Seq<Segment>, run: Seq<usize>, i: int)
    requires
        splits_ok_idxs(run, segs),
        0 <= i < run.len() - 1,
    ensures
        inc_count(segs, segs[run[i] as int].end_node, segs.len() as int) < 3,
{
    reveal(splits_ok_idxs);
}

/// Extending a run by a member that turns within the margin and whose
/// boundary is no true junction keeps the run conditions.
proof fn lemma_run_extend(segs: Seq<Segment>, run: Seq<usize>, prev: usize, nxt: usize)
    requires
        turns_ok_idxs(run, segs),
        splits_ok_idxs(run, segs),
        run.len() >= 1,
        run.last() == prev,
        seg_turn_ok(segs[prev as int], segs[nxt as int]),
        inc_count(segs, segs[prev as int].end_node, segs.len() as int) < 3,
    ensures
        turns_ok_idxs(run.push(nxt), segs),
        splits_ok_idxs(run.push(nxt), segs),
{
    reveal(turns_ok_idxs);
    reveal(splits_ok_idxs);
    let r2 = run.push(nxt);
    assert forall|i: int|
        0 <= i < r2.len() - 1 implies seg_turn_ok(
        segs[(#[trigger] r2[i]) as int],
        segs[r2[i + 1] as int],
    ) by {
        if i < run.len() - 1 {
            assert(r2[i] == run[i] && r2[i + 1] == run[i + 1]);
        } else {
            assert(r2[i] == prev && r2[i + 1] == nxt);
        }
    }
    assert forall|i: int|
        0 <= i < r2.len() - 1 implies inc_count(
        segs,
        segs[(#[trigger] r2[i]) as int].end_node,
        segs.len() as int,
    ) < 3 by {
        if i < run.len() - 1 {
            assert(r2[i] == run[i]);
        } else {
            assert(r2[i] == prev);
        }
    }
}

/// Appending the next chain element to the open run advances the
/// concatenation equation by one.
proof fn lemma_append_one(
    cm: Seq<usize>,
    cur: Seq<usize>,
    base: Seq<usize>,
    chainv: Seq<usize>,
    j: int,
)
    requires
        cm + cur == base + chainv.subrange(0, j),
        0 <= j < chainv.len(),
    ensures
        cm + cur.push(chainv[j]) == base + chainv.subrange(0, j + 1),
{
    assert(chainv.subrange(0, j + 1) =~= chainv.subrange(0, j).push(chainv[j]));
    assert(cm + cur.push(chainv[j]) =~= (cm + cur).push(chainv[j]));
    assert(base + chainv.subrange(0, j + 1) =~= (base + chainv.subrange(0, j)).push(chainv[j]));
}

/// After flushing the open run into the way list, restarting the run with
/// the next chain element keeps the concatenation equation.
proof fn lemma_flush_one(
    cm_new: Seq<usize>,
    cm_old: Seq<usize>,
    cur: Seq<usize>,
    base: Seq<usize>,
    chainv: Seq<usize>,
    j: int,
)
    requires
        cm_new == cm_old + cur,
        cm_old + cur == base + chainv.subrange(0, j),
        0 <= j < chainv.len(),
    ensures
        cm_new + seq![chainv[j]] == base + chainv.subrange(0, j + 1),
{
    assert(chainv.subrange(0, j + 1) =~= chainv.subrange(0, j).push(chainv[j]));
    assert(cm_new + seq![chainv[j]] =~= cm_new.push(chainv[j]));
    assert(base + chainv.subrange(0, j + 1) =~= (base + chainv.subrange(0, j)).push(chainv[j]));
}

/// The bookkeeping of a chain under construction against its group:
/// remaining flags only clear, every member stems from a cleared position
/// (the seed or one cleared by this chain), every freshly cleared position
/// appears among the members, the seed's member is present, remaining
/// positions stay outside the chain, and members are distinct.
#[verifier::opaque]
pub open spec fn chain_pack(
    gi: Seq<usize>,
    base_rem: Seq<bool>,
    rem: Seq<bool>,
    way: Seq<usize>,
    seed_pos: int,
) -> bool {
    &&& forall|q: int| 0 <= q < gi.len() && rem[q] ==> base_rem[q]
    &&& forall|k: int|
        0 <= k < way.len() ==> exists|q: int|
            0 <= q < gi.len() && (#[trigger] way[k]) == gi[q] && !rem[q] && (q == seed_pos
                || base_rem[q])
    &&& forall|q: int|
        0 <= q < gi.len() && base_rem[q] && !rem[q] ==> exists|k: int|
            0 <= k < way.len() && (#[trigger] way[k]) == gi[q]
    &&& forall|q: int|
        0 <= q < gi.len() && rem[q] ==> forall|k: int|
            0 <= k < way.len() ==> (#[trigger] way[k]) != gi[q]
    &&& forall|k1: int, k2: int|
        #![trigger way[k1], way[k2]]
        0 <= k1 < k2 < way.len() ==> way[k1] != way[k2]
    &&& exists|k: int| 0 <= k < way.len() && (#[trigger] way[k]) == gi[seed_pos]
}

/// The singleton chain of the seed's own member carries the bookkeeping.
proof fn lemma_pack_init(gi: Seq<usize>, rem: Seq<bool>, way: Seq<usize>, seed_pos: int)
    requires
        gi.len() == rem.len(),
        forall|a: int, b: int|
            #![trigger gi[a], gi[b]]
            0 <= a < b < gi.len() ==> gi[a] < gi[b],
        0 <= seed_pos < gi.len(),
        !rem[seed_pos],
        way == seq![gi[seed_pos]],
    ensures
        chain_pack(gi, rem, rem, way, seed_pos),
{
    reveal(chain_pack);
    assert(way[0] == gi[seed_pos]);
    assert forall|q: int|
        0 <= q < gi.len() && rem[q] implies forall|k: int|
        0 <= k < way.len() ==> (#[trigger] way[k]) != gi[q] by {
        if q < seed_pos {
            assert(gi[q] < gi[seed_pos]);
        } else if q > seed_pos {
            assert(gi[seed_pos] < gi[q]);
        }
    }
    assert forall|q: int|
        0 <= q < gi.len() && rem[q] && !rem[q] implies exists|k: int|
        0 <= k < way.len() && (#[trigger] way[k]) == gi[q] by {}
}

/// The indices consumed so far characterize the concatenation: an index is
/// emitted exactly when an earlier group held it or this group's flag for
/// it has been cleared.
#[verifier::opaque]
pub open spec fn consumed_iff(
    vals: Seq<Seq<usize>>,
    g: int,
    gi: Seq<usize>,
    rem: Seq<bool>,
    cm: Seq<usize>,
) -> bool {
    forall|s: usize| #[trigger]
        cm.contains(s) <==> (covered_upto(vals, g, s as int) || exists|p: int|
            0 <= p < gi.len() && (#[trigger] gi[p]) == s && !rem[p])
}

/// The concatenation holds exactly the members of the first `g` groups.
#[verifier::opaque]
pub open spec fn covered_iff(vals: Seq<Seq<usize>>, g: int, cm: Seq<usize>) -> bool {
    forall|s: usize| #[trigger] cm.contains(s) <==> covered_upto(vals, g, s as int)
}

/// Nothing has been emitted before the first group.
proof fn lemma_cover_init(vals: Seq<Seq<usize>>, cm: Seq<usize>)
    requires
        cm == Seq::<usize>::empty(),
    ensures
        covered_iff(vals, 0, cm),
{
    reveal(covered_iff);
    assert forall|s: usize| #[trigger] cm.contains(s) <==> covered_upto(vals, 0, s as int) by {
        if cm.contains(s) {
            let t = choose|t: int| 0 <= t < cm.len() && cm[t] == s;
        }
        if covered_upto(vals, 0, s as int) {
            let (a, j): (int, int) = choose|a: int, j: int|
                0 <= a < 0 && a < vals.len() && 0 <= j < vals[a].len() && (#[trigger] vals[a][j])
                    == s as int;
        }
    }
}

/// On entering a group with every flag still set, group coverage is the
/// consumed characterization.
proof fn lemma_cover_enter(
    vals: Seq<Seq<usize>>,
    g: int,
    gi: Seq<usize>,
    rem: Seq<bool>,
    cm: Seq<usize>,
)
    requires
        covered_iff(vals, g, cm),
        gi.len() == rem.len(),
        forall|p: int| 0 <= p < rem.len() ==> rem[p],
    ensures
        consumed_iff(vals, g, gi, rem, cm),
{
    reveal(covered_iff);
    reveal(consumed_iff);
    assert forall|s: usize| #[trigger]
        cm.contains(s) <==> (covered_upto(vals, g, s as int) || exists|p: int|
            0 <= p < gi.len() && (#[trigger] gi[p]) == s && !rem[p]) by {
        if exists|p: int| 0 <= p < gi.len() && (#[trigger] gi[p]) == s && !rem[p] {
            let p = choose|p: int| 0 <= p < gi.len() && (#[trigger] gi[p]) == s && !rem[p];
        }
    }
}

/// On leaving a group with every flag cleared, the consumed
/// characterization is coverage of one more group.
proof fn lemma_cover_exit(
    vals: Seq<Seq<usize>>,
    g: int,
    gi: Seq<usize>,
    rem: Seq<bool>,
    cm: Seq<usize>,
)
    requires
        consumed_iff(vals, g, gi, rem, cm),
        0 <= g < vals.len(),
        gi == vals[g],
        gi.len() == rem.len(),
        forall|p: int| 0 <= p < rem.len() ==> !rem[p],
    ensures
        covered_iff(vals, g + 1, cm),
{
    reveal(covered_iff);
    reveal(consumed_iff);
    assert forall|s: usize| #[trigger] cm.contains(s) <==> covered_upto(vals, g + 1, s as int) by {
        lemma_covered_step(vals, g, s as int);
        if cm.contains(s) {
            if !covered_upto(vals, g, s as int) {
                let p = choose|p: int| 0 <= p < gi.len() && (#[trigger] gi[p]) == s && !rem[p];
                assert(vals[g][p] == s as int);
            }
        }
        if covered_upto(vals, g + 1, s as int) {
            if !covered_upto(vals, g, s as int) {
                let j = choose|j: int|
                    0 <= j < vals[g].len() && (#[trigger] vals[g][j]) == s as int;
                assert(gi[j] == s && !rem[j]);
            }
        }
    }
}

/// Coverage of every group is membership in the grouping.
proof fn lemma_cover_finish(vals: Seq<Seq<usize>>, cm: Seq<usize>)
    requires
        covered_iff(vals, vals.len() as int, cm),
    ensures
        forall|s: usize| #[trigger]
            cm.contains(s) <==> crate::grouping::covered_in(vals, s as int),
{
    reveal(covered_iff);
    assert forall|s: usize| #[trigger]
        cm.contains(s) <==> crate::grouping::covered_in(vals, s as int) by {
        lemma_covered_full(vals, s as int);
    }
}

/// Append one finished way.
#[verifier::rlimit(100)]
fn push_way(segments: &Vec<Segment>, ways: &mut Vec<Way>, si: Vec<usize>, tags: TagMap)
    requires
        chained_idxs(si@, segments@),
        si@.len() >= 1,
        tags.wf(),
        forall|t: int|
            0 <= t < si@.len() ==> segments@[(#[trigger] si@[t]) as int].tags@ == tags@,
        ways_wf(old(ways)@, segments@),
        ways_merged_ok(old(ways)@, segments@),
        turns_ok_idxs(si@, segments@),
        splits_ok_idxs(si@, segments@),
    ensures
        ways_wf(final(ways)@, segments@),
        ways_merged_ok(final(ways)@, segments@),
        concat_members(final(ways)@) == concat_members(old(ways)@) + si@,
{
    let ghost oldways = ways@;
    let ghost siv = si@;
    let w = Way { segment_indices: si, tags };
    ways.push(w);
    proof {
        lemma_concat_push(oldways, w);
        assert(way_ok(ways@.last(), segments@));
        assert forall|t: int| 0 <= t < ways@.len() implies way_ok(
            #[trigger] ways@[t],
            segments@,
        ) by {
            if t < oldways.len() {
                assert(way_ok(oldways[t], segments@));
            }
        }
        assert forall|t: int|
            0 <= t < ways@.len() implies turns_ok_idxs(
            (#[trigger] ways@[t]).segment_indices@,
            segments@,
        ) && splits_ok_idxs(ways@[t].segment_indices@, segments@) by {
            if t < oldways.len() {
                assert(turns_ok_idxs(oldways[t].segment_indices@, segments@));
                assert(splits_ok_idxs(oldways[t].segment_indices@, segments@));
            }
        }
    }
}

/// Emit the tag-equal runs of one chain as ways.
#[verifier::rlimit(100)]
fn emit_tag_runs(segments: &Vec<Segment>, chain: &Vec<usize>, ways: &mut Vec<Way>)
    requires
        forall|i: int| 0 <= i < segments@.len() ==> (#[trigger] segments@[i]).wf(),
        chained_idxs(chain@, segments@),
        chain@.len() >= 1,
        turns_ok_idxs(chain@, segments@),
        splits_ok_idxs(chain@, segments@),
        ways_wf(old(ways)@, segments@),
        ways_merged_ok(old(ways)@, segments@),
    ensures
        ways_wf(final(ways)@, segments@),
        ways_merged_ok(final(ways)@, segments@),
        concat_members(final(ways)@) == concat_members(old(ways)@) + chain@,
{
    let ghost base = concat_members(old(ways)@);
    let cl = chain.len();
    let mut current_way: Vec<usize> = Vec::new();
    current_way.push(chain[0]);
    proof {
        lemma_run_single(segments@, current_way@);
    }
    let mut current_tags = segments[chain[0]].tags.duplicate();
    let mut j: usize = 1;
    while j < cl
        invariant
            1 <= j <= cl,
            cl == chain@.len(),
            forall|i: int| 0 <= i < segments@.len() ==> (#[trigger] segments@[i]).wf(),
            chained_idxs(chain@, segments@),
            turns_ok_idxs(chain@, segments@),
            splits_ok_idxs(chain@, segments@),
            ways_wf(ways@, segments@),
            ways_merged_ok(ways@, segments@),
            concat_members(ways@) + current_way@ =~= base + chain@.subrange(0, j as int),
            current_way@.len() >= 1,
            current_way@.last() == chain@[j - 1],
            chained_idxs(current_way@, segments@),
            turns_ok_idxs(current_way@, segments@),
            splits_ok_idxs(current_way@, segments@),
            current_tags.wf(),
            forall|t: int|
                0 <= t < current_way@.len() ==> segments@[(#[trigger] current_way@[t]) as int].tags@
                    == current_tags@,
        decreases cl - j,
    {
        let ghost oldcur = current_way@;
        let idx = chain[j];
        if segments[idx].tags.map_eq(&current_tags) {
            current_way.push(idx);
            proof {
                lemma_run_pair(segments@, chain@, j - 1);
                lemma_run_boundary(segments@, chain@, j - 1);
                lemma_run_extend(segments@, oldcur, chain@[j - 1], chain@[j as int]);
                assert(current_way@ =~= oldcur.push(idx));
                lemma_append_one(concat_members(ways@), oldcur, base, chain@, j as int);
            }
        } else {
            let ghost oldways2 = ways@;
            push_way(segments, ways, current_way, current_tags);
            current_way = Vec::new();
            current_way.push(idx);
            current_tags = segments[idx].tags.duplicate();
            proof {
                lemma_run_single(segments@, current_way@);
                lemma_flush_one(
                    concat_members(ways@),
                    concat_members(oldways2),
                    oldcur,
                    base,
                    chain@,
                    j as int,
                );
                assert(current_way@ =~= seq![chain@[j as int]]);
            }
        }
        j = j + 1;
    }
    proof {
        assert(chain@.subrange(0, cl as int) =~= chain@);
    }
    let ghost oldways3 = ways@;
    let ghost lastcur = current_way@;
    push_way(segments, ways, current_way, current_tags);
    proof {
        assert(concat_members(ways@) =~= concat_members(oldways3) + lastcur);
        assert(concat_members(ways@) =~= base + chain@);
    }
}

/// One step of the junction split: absorb the next member into the open
/// piece, closing the piece when its boundary is a true junction.
#[verifier::rlimit(100)]
fn split_step(
    segments: &Vec<Segment>,
    junctions: &JunctionTable,
    way: &Vec<usize>,
    k: usize,
    current: &mut Vec<usize>,
    chains: &mut Vec<Vec<usize>>,
)
    requires
        junctions.wf(),
        forall|h: u64| #[trigger]
            junctions.count_of(h) == inc_count(segments@, h, segments@.len() as int),
        chained_idxs(way@, segments@),
        turns_ok_idxs(way@, segments@),
        k < way@.len(),
        chains_ok(old(chains)@, segments@),
        chained_idxs(old(current)@, segments@),
        turns_ok_idxs(old(current)@, segments@),
        splits_ok_idxs(old(current)@, segments@),
        old(current)@.len() > 0 ==> old(current)@.last() == way@[k - 1],
        old(current)@.len() > 0 ==> inc_count(
            segments@,
            segments@[way@[k - 1] as int].end_node,
            segments@.len() as int,
        ) < 3,
        concat_chains(old(chains)@) + old(current)@ == way@.subrange(0, k as int),
    ensures
        chains_ok(final(chains)@, segments@),
        chained_idxs(final(current)@, segments@),
        turns_ok_idxs(final(current)@, segments@),
        splits_ok_idxs(final(current)@, segments@),
        final(current)@.len() > 0 ==> final(current)@.last() == way@[k as int],
        final(current)@.len() > 0 && k + 1 < way@.len() ==> inc_count(
            segments@,
            segments@[way@[k as int] as int].end_node,
            segments@.len() as int,
        ) < 3,
        concat_chains(final(chains)@) + final(current)@ == way@.subrange(0, k + 1),
{
    let n = way.len();
    let ghost oldcur = current@;
    current.push(way[k]);
    proof {
        assert(current@ =~= oldcur.push(way@[k as int]));
        assert(way@.subrange(0, k + 1) =~= way@.subrange(0, k as int).push(way@[k as int]));
        if oldcur.len() > 0 {
            lemma_run_pair(segments@, way@, k - 1);
            lemma_run_extend(segments@, oldcur, way@[k - 1], way@[k as int]);
        } else {
            lemma_run_single(segments@, current@);
        }
        assert(concat_chains(chains@) + current@ =~= way@.subrange(0, k + 1));
    }
    if k < n - 1 {
        let h = segments[way[k]].end_node;
        if junctions.count(h) >= 3 {
            let ghost oldchains = chains@;
            chains.push(current_take(current));
            proof {
                lemma_chains_push(oldchains, chains@.last());
                lemma_chains_ok_push(oldchains, segments@, chains@.last());
                lemma_run_single(segments@, current@);
                assert(concat_chains(chains@) + current@ =~= way@.subrange(0, k + 1));
            }
        }
    }
}

/// Hand the open piece out, leaving an empty one behind.
fn current_take(current: &mut Vec<usize>) -> (r: Vec<usize>)
    ensures
        r@ == old(current)@,
        final(current)@ == Seq::<usize>::empty(),
{
    let mut out: Vec<usize> = Vec::new();
    core::mem::swap(current, &mut out);
    out
}

/// Cut one finished chain at every true junction: the pieces, in order,
/// concatenate back to the chain.
#[verifier::rlimit(100)]
fn build_split_chains(
    segments: &Vec<Segment>,
    junctions: &JunctionTable,
    way: &Vec<usize>,
) -> (chains: Vec<Vec<usize>>)
    requires
        junctions.wf(),
        forall|h: u64| #[trigger]
            junctions.count_of(h) == inc_count(segments@, h, segments@.len() as int),
        chained_idxs(way@, segments@),
        turns_ok_idxs(way@, segments@),
        way@.len() >= 1,
    ensures
        chains_ok(chains@, segments@),
        concat_chains(chains@) == way@,
{
    let n = way.len();
    let mut chains: Vec<Vec<usize>> = Vec::new();
    let mut current: Vec<usize> = Vec::new();
    let mut k: usize = 0;
    proof {
        lemma_chains_empty(chains@);
        lemma_chains_ok_empty(chains@, segments@);
        lemma_run_single(segments@, current@);
        assert(concat_chains(chains@) + current@ =~= way@.subrange(0, 0));
    }
    while k < n
        invariant
            k <= n,
            n == way@.len(),
            junctions.wf(),
            forall|h: u64| #[trigger]
                junctions.count_of(h) == inc_count(segments@, h, segments@.len() as int),
            chained_idxs(way@, segments@),
            turns_ok_idxs(way@, segments@),
            chains_ok(chains@, segments@),
            chained_idxs(current@, segments@),
            turns_ok_idxs(current@, segments@),
            splits_ok_idxs(current@, segments@),
            current@.len() > 0 ==> k >= 1 && current@.last() == way@[k - 1],
            current@.len() > 0 && k < n ==> inc_count(
                segments@,
                segments@[way@[k - 1] as int].end_node,
                segments@.len() as int,
            ) < 3,
            concat_chains(chains@) + current@ == way@.subrange(0, k as int),
        decreases n - k,
    {
        split_step(segments, junctions, way, k, &mut current, &mut chains);
        k = k + 1;
    }
    if current.len() > 0 {
        let ghost oldchains = chains@;
        chains.push(current);
        proof {
            lemma_chains_push(oldchains, chains@.last());
            lemma_chains_ok_push(oldchains, segments@, chains@.last());
        }
    }
    proof {
        assert(way@.subrange(0, n as int) =~= way@);
        assert(concat_chains(chains@) =~= way@);
    }
    chains
}

/// Split one finished chain at true junctions and at tag changes, and emit
/// the resulting ways.
#[verifier::rlimit(100)]
fn split_and_emit(
    segments: &Vec<Segment>,
    junctions: &JunctionTable,
    way: &Vec<usize>,
    ways: &mut Vec<Way>,
)
    requires
        forall|i: int| 0 <= i < segments@.len() ==> (#[trigger] segments@[i]).wf(),
        junctions.wf(),
        forall|h: u64| #[trigger]
            junctions.count_of(h) == inc_count(segments@, h, segments@.len() as int),
        chained_idxs(way@, segments@),
        turns_ok_idxs(way@, segments@),
        way@.len() >= 1,
        ways_wf(old(ways)@, segments@),
        ways_merged_ok(old(ways)@, segments@),
    ensures
        ways_wf(final(ways)@, segments@),
        ways_merged_ok(final(ways)@, segments@),
        concat_members(final(ways)@) == concat_members(old(ways)@) + way@,
{
    let chains = build_split_chains(segments, junctions, way);
    emit_chains(segments, &chains, ways);
}

/// Emit every chain of a finished split as tag-equal runs.
#[verifier::rlimit(100)]
fn emit_chains(segments: &Vec<Segment>, chains: &Vec<Vec<usize>>, ways: &mut Vec<Way>)
    requires
        forall|i: int| 0 <= i < segments@.len() ==> (#[trigger] segments@[i]).wf(),
        chains_ok(chains@, segments@),
        ways_wf(old(ways)@, segments@),
        ways_merged_ok(old(ways)@, segments@),
    ensures
        ways_wf(final(ways)@, segments@),
        ways_merged_ok(final(ways)@, segments@),
        concat_members(final(ways)@) == concat_members(old(ways)@) + concat_chains(chains@),
{
    let ghost base = concat_members(ways@);
    let m = chains.len();
    let mut c: usize = 0;
    proof {
        assert(concat_members(ways@) =~= base + concat_chains(chains@.subrange(0, 0))) by {
            lemma_chains_empty(chains@.subrange(0, 0));
        }
    }
    while c < m
        invariant
            c <= m,
            m == chains@.len(),
            forall|i: int| 0 <= i < segments@.len() ==> (#[trigger] segments@[i]).wf(),
            chains_ok(chains@, segments@),
            ways_wf(ways@, segments@),
            ways_merged_ok(ways@, segments@),
            concat_members(ways@) =~= base + concat_chains(chains@.subrange(0, c as int)),
        decreases m - c,
    {
        proof {
            lemma_chains_ok_at(chains@, segments@, c as int);
        }
        emit_tag_runs(segments, &chains[c], ways);
        proof {
            assert(chains@.subrange(0, c + 1) =~= chains@.subrange(0, c as int).push(
                chains@[c as int],
            ));
            lemma_chains_push(chains@.subrange(0, c as int), chains@[c as int]);
            assert(concat_members(ways@) =~= base + concat_chains(chains@.subrange(0, c + 1)));
        }
        c = c + 1;
    }
    proof {
        assert(chains@.subrange(0, m as int) =~= chains@);
    }
}


/// Consuming one remaining candidate and appending it at either end of the
/// chain preserves the chain bookkeeping.
proof fn lemma_consume(
    gi: Seq<usize>,
    base_rem: Seq<bool>,
    rem_pre: Seq<bool>,
    rem_post: Seq<bool>,
    oldway: Seq<usize>,
    newway: Seq<usize>,
    p: int,
    seed_pos: int,
    front: bool,
)
    requires
        gi.len() == base_rem.len(),
        gi.len() == rem_pre.len(),
        gi.len() == rem_post.len(),
        forall|a: int, b: int|
            #![trigger gi[a], gi[b]]
            0 <= a < b < gi.len() ==> gi[a] < gi[b],
        0 <= p < gi.len(),
        rem_pre[p],
        rem_post == rem_pre.update(p, false),
        0 <= seed_pos < gi.len(),
        newway == if front {
            seq![gi[p]] + oldway
        } else {
            oldway.push(gi[p])
        },
        chain_pack(gi, base_rem, rem_pre, oldway, seed_pos),
    ensures
        chain_pack(gi, base_rem, rem_post, newway, seed_pos),
{
    reveal(chain_pack);
    let off: int = if front {
        1
    } else {
        0
    };
    assert forall|k: int|
        0 <= k < newway.len() implies exists|q: int|
        0 <= q < gi.len() && (#[trigger] newway[k]) == gi[q] && !rem_post[q] && (q == seed_pos
            || base_rem[q]) by {
        if (front && k == 0) || (!front && k == oldway.len()) {
            assert(newway[k] == gi[p] && !rem_post[p]);
        } else {
            let ko = k - off;
            let q = choose|q: int|
                0 <= q < gi.len() && oldway[ko] == gi[q] && !rem_pre[q] && (q == seed_pos
                    || base_rem[q]);
            assert(newway[k] == gi[q] && !rem_post[q]);
        }
    }
    assert forall|q: int|
        0 <= q < gi.len() && base_rem[q] && !rem_post[q] implies exists|k: int|
        0 <= k < newway.len() && (#[trigger] newway[k]) == gi[q] by {
        if q == p {
            if front {
                assert(newway[0] == gi[q]);
            } else {
                assert(newway[newway.len() - 1] == gi[q]);
            }
        } else {
            assert(base_rem[q] && !rem_pre[q]);
            let k = choose|k: int| 0 <= k < oldway.len() && (#[trigger] oldway[k]) == gi[q];
            assert(newway[k + off] == gi[q]);
        }
    }
    assert forall|q: int|
        0 <= q < gi.len() && rem_post[q] implies forall|k: int|
        0 <= k < newway.len() ==> (#[trigger] newway[k]) != gi[q] by {
        assert forall|k: int|
            0 <= k < newway.len() implies (#[trigger] newway[k]) != gi[q] by {
            if (front && k == 0) || (!front && k == oldway.len()) {
                if q < p {
                    assert(gi[q] < gi[p]);
                } else if q > p {
                    assert(gi[p] < gi[q]);
                }
            } else {
                assert(rem_pre[q]);
                assert(oldway[k - off] != gi[q]);
            }
        }
    }
    assert forall|k1: int, k2: int|
        #![trigger newway[k1], newway[k2]]
        0 <= k1 < k2 < newway.len() implies newway[k1] != newway[k2] by {
        if front {
            if k1 == 0 {
                assert(rem_pre[p]);
                assert(oldway[k2 - 1] != gi[p]);
            } else {
                assert(oldway[k1 - 1] != oldway[k2 - 1]);
            }
        } else {
            if k2 == oldway.len() {
                assert(rem_pre[p]);
                assert(oldway[k1] != gi[p]);
            } else {
                assert(oldway[k1] != oldway[k2]);
            }
        }
    }
    let k0 = choose|k: int| 0 <= k < oldway.len() && (#[trigger] oldway[k]) == gi[seed_pos];
    assert(newway[k0 + off] == gi[seed_pos]);
}

/// Build one chain from a seed by extending forward and backward through
/// shared endpoints under the turn margin, consuming candidates. The
/// returned run holds exactly the group positions cleared by this call,
/// the seed's included, each at most once.
#[verifier::rlimit(100)]
fn build_chain(
    segments: &Vec<Segment>,
    gi: &Vec<usize>,
    remaining: &mut Vec<bool>,
    seed_pos: usize,
) -> (way: Vec<usize>)
    requires
        forall|i: int| 0 <= i < segments@.len() ==> (#[trigger] segments@[i]).wf(),
        old(remaining)@.len() == gi@.len(),
        forall|i: int| 0 <= i < gi@.len() ==> (#[trigger] gi@[i]) < segments@.len(),
        forall|a: int, b: int|
            #![trigger gi@[a], gi@[b]]
            0 <= a < b < gi@.len() ==> gi@[a] < gi@[b],
        seed_pos < gi@.len(),
        !old(remaining)@[seed_pos as int],
    ensures
        final(remaining)@.len() == gi@.len(),
        way@.len() >= 1,
        chained_idxs(way@, segments@),
        turns_ok_idxs(way@, segments@),
        chain_pack(gi@, old(remaining)@, final(remaining)@, way@, seed_pos as int),
        forall|p: int|
            0 <= p < gi@.len() && final(remaining)@[p] ==> old(remaining)@[p],
{
    let seed = gi[seed_pos];
    let mut way: Vec<usize> = Vec::new();
    way.push(seed);
    proof {
        lemma_run_single(segments@, way@);
        assert(way@ =~= seq![gi@[seed_pos as int]]);
        lemma_pack_init(gi@, remaining@, way@, seed_pos as int);
    }
    let mut first_node = segments[seed].start_node;
    let mut last_node = segments[seed].end_node;
    let mut extending: bool = true;
    while extending
        invariant
            gi@.len() == remaining@.len(),
            gi@.len() == old(remaining)@.len(),
            forall|i: int| 0 <= i < segments@.len() ==> (#[trigger] segments@[i]).wf(),
            forall|i: int| 0 <= i < gi@.len() ==> (#[trigger] gi@[i]) < segments@.len(),
            forall|a: int, b: int|
                #![trigger gi@[a], gi@[b]]
                0 <= a < b < gi@.len() ==> gi@[a] < gi@[b],
            seed_pos < gi@.len(),
            way@.len() >= 1,
            chained_idxs(way@, segments@),
            turns_ok_idxs(way@, segments@),
            way@[0] == seed,
            seed == gi@[seed_pos as int],
            last_node == segments@[way@.last() as int].end_node,
            chain_pack(gi@, old(remaining)@, remaining@, way@, seed_pos as int),
            forall|p: int|
                0 <= p < gi@.len() && remaining@[p] ==> old(remaining)@[p],
        decreases count_true(remaining@) + 1, (if extending {
            1int
        } else {
            0int
        }),
    {
        proof {
            lemma_count_true_nonneg(remaining@);
        }
        let last_in_way = way[way.len() - 1];
        match find_forward(segments, gi, remaining, last_node, last_in_way) {
            Option::Some(p) => {
                let cand = gi[p];
                proof {
                    lemma_count_true_clear(remaining@, p as int);
                }
                let ghost oldway = way@;
                let ghost oldrem = remaining@;
                remaining.set(p, false);
                last_node = segments[cand].end_node;
                way.push(cand);
                proof {
                    lemma_count_true_nonneg(remaining@);
                    assert(way@ =~= oldway.push(cand));
                    lemma_turns_push(segments@, oldway, cand);
                    lemma_consume(
                        gi@,
                        old(remaining)@,
                        oldrem,
                        remaining@,
                        oldway,
                        way@,
                        p as int,
                        seed_pos as int,
                        false,
                    );
                }
            },
            Option::None => {
                extending = false;
            },
        }
    }
    let mut first_idx = way[0];
    let mut extending2: bool = true;
    while extending2
        invariant
            gi@.len() == remaining@.len(),
            gi@.len() == old(remaining)@.len(),
            forall|i: int| 0 <= i < segments@.len() ==> (#[trigger] segments@[i]).wf(),
            forall|i: int| 0 <= i < gi@.len() ==> (#[trigger] gi@[i]) < segments@.len(),
            forall|a: int, b: int|
                #![trigger gi@[a], gi@[b]]
                0 <= a < b < gi@.len() ==> gi@[a] < gi@[b],
            seed_pos < gi@.len(),
            way@.len() >= 1,
            chained_idxs(way@, segments@),
            turns_ok_idxs(way@, segments@),
            first_idx == way@[0],
            first_node == segments@[way@[0] as int].start_node,
            chain_pack(gi@, old(remaining)@, remaining@, way@, seed_pos as int),
            forall|p: int|
                0 <= p < gi@.len() && remaining@[p] ==> old(remaining)@[p],
        decreases count_true(remaining@) + 1, (if extending2 {
            1int
        } else {
            0int
        }),
    {
        proof {
            lemma_count_true_nonneg(remaining@);
        }
        match find_backward(segments, gi, remaining, first_node, first_idx) {
            Option::Some(p) => {
                let cand = gi[p];
                proof {
                    lemma_count_true_clear(remaining@, p as int);
                }
                let ghost oldway = way@;
                let ghost oldrem = remaining@;
                remaining.set(p, false);
                first_node = segments[cand].start_node;
                way.insert(0, cand);
                first_idx = cand;
                proof {
                    lemma_count_true_nonneg(remaining@);
                    assert(way@ =~= seq![cand].add(oldway));
                    lemma_turns_front(segments@, oldway, cand);
                    lemma_consume(
                        gi@,
                        old(remaining)@,
                        oldrem,
                        remaining@,
                        oldway,
                        way@,
                        p as int,
                        seed_pos as int,
                        true,
                    );
                }
            },
            Option::None => {
                extending2 = false;
            },
        }
    }
    way
}

/// Appending a member that turns within the margin keeps the turn
/// condition of the run.
proof fn lemma_turns_push(segs: Seq<Segment>, run: Seq<usize>, nxt: usize)
    requires
        turns_ok_idxs(run, segs),
        run.len() >= 1,
        seg_turn_ok(segs[run.last() as int], segs[nxt as int]),
    ensures
        turns_ok_idxs(run.push(nxt), segs),
{
    reveal(turns_ok_idxs);
    let r2 = run.push(nxt);
    assert forall|i: int|
        0 <= i < r2.len() - 1 implies seg_turn_ok(
        segs[(#[trigger] r2[i]) as int],
        segs[r2[i + 1] as int],
    ) by {
        if i < run.len() - 1 {
            assert(r2[i] == run[i] && r2[i + 1] == run[i + 1]);
        } else {
            assert(r2[i] == run.last() && r2[i + 1] == nxt);
        }
    }
}

/// Prepending a member that turns within the margin into the old first
/// member keeps the turn condition of the run.
proof fn lemma_turns_front(segs: Seq<Segment>, run: Seq<usize>, fst: usize)
    requires
        turns_ok_idxs(run, segs),
        run.len() >= 1,
        seg_turn_ok(segs[fst as int], segs[run[0] as int]),
    ensures
        turns_ok_idxs(seq![fst].add(run), segs),
{
    reveal(turns_ok_idxs);
    let r2 = seq![fst].add(run);
    assert forall|i: int|
        0 <= i < r2.len() - 1 implies seg_turn_ok(
        segs[(#[trigger] r2[i]) as int],
        segs[r2[i + 1] as int],
    ) by {
        if i == 0 {
            assert(r2[0] == fst && r2[1] == run[0]);
        } else {
            assert(r2[i] == run[i - 1] && r2[i + 1] == run[i]);
        }
    }
}


/// One consumption round of a group: the emitted chain holds exactly the
/// freshly cleared members, so the running concatenation stays
/// duplicate-free and keeps characterizing the consumed indices.
#[verifier::rlimit(100)]
proof fn lemma_round(
    gt: &GroupTable,
    segs: Seq<Segment>,
    method: SimplifyMethod,
    g: int,
    gi: Seq<usize>,
    rem0: Seq<bool>,
    rem1: Seq<bool>,
    rem2: Seq<bool>,
    way: Seq<usize>,
    concat0: Seq<usize>,
    concat1: Seq<usize>,
    p0: int,
)
    requires
        groups_wf(*gt, segs, method),
        0 <= g < gt.val_seq().len(),
        gi == gt.val_seq()[g],
        gi.len() == rem0.len(),
        gi.len() == rem1.len(),
        gi.len() == rem2.len(),
        0 <= p0 < gi.len(),
        rem0[p0],
        rem1 == rem0.update(p0, false),
        chain_pack(gi, rem1, rem2, way, p0),
        concat1 == concat0 + way,
        concat0.no_duplicates(),
        consumed_iff(gt.val_seq(), g, gi, rem0, concat0),
    ensures
        concat1.no_duplicates(),
        consumed_iff(gt.val_seq(), g, gi, rem2, concat1),
{
    reveal(chain_pack);
    reveal(consumed_iff);
    let vals = gt.val_seq();
    assert forall|k: int| 0 <= k < way.len() implies !concat0.contains(#[trigger] way[k]) by {
        let p = choose|p: int|
            0 <= p < gi.len() && way[k] == gi[p] && !rem2[p] && (p == p0 || rem1[p]);
        assert(rem0[p]);
        if concat0.contains(way[k]) {
            if covered_upto(vals, g, way[k] as int) {
                let (t2, j2): (int, int) = choose|t2: int, j2: int|
                    0 <= t2 < g && t2 < vals.len() && 0 <= j2 < vals[t2].len() && (
                    #[trigger] vals[t2][j2]) == way[k] as int;
                lemma_groups_distinct(gt, segs, method, t2, j2, g, p);
            } else {
                let q = choose|q: int|
                    0 <= q < gi.len() && (#[trigger] gi[q]) == way[k] && !rem0[q];
                if q < p {
                    assert(gi[q] < gi[p]);
                } else if q > p {
                    assert(gi[p] < gi[q]);
                }
            }
        }
    }
    assert forall|a: int, b: int|
        0 <= a < b < concat1.len() implies concat1[a] != concat1[b] by {
        if b < concat0.len() {
            assert(concat0[a] != concat0[b]);
        } else if a >= concat0.len() {
            assert(way[a - concat0.len()] != way[b - concat0.len()]);
        } else {
            assert(concat1[b] == way[b - concat0.len()]);
            assert(concat0[a] != concat1[b]);
        }
    }
    assert(concat1.no_duplicates()) by {
        assert forall|x: int, y: int|
            0 <= x < concat1.len() && 0 <= y < concat1.len() && x != y implies concat1[x]
            != concat1[y] by {
            if x < y {
            } else {
                assert(concat1[y] != concat1[x]);
            }
        }
    }
    assert forall|s: usize| #[trigger]
        concat1.contains(s) <==> (covered_upto(vals, g, s as int) || exists|p: int|
            0 <= p < gi.len() && (#[trigger] gi[p]) == s && !rem2[p]) by {
        if concat1.contains(s) {
            let t2 = choose|t2: int| 0 <= t2 < concat1.len() && concat1[t2] == s;
            if t2 < concat0.len() {
                assert(concat0[t2] == s);
                assert(concat0.contains(s));
                if !covered_upto(vals, g, s as int) {
                    let q = choose|q: int|
                        0 <= q < gi.len() && (#[trigger] gi[q]) == s && !rem0[q];
                    assert(!rem1[q]);
                    assert(!rem2[q]);
                }
            } else {
                let k = t2 - concat0.len();
                let p = choose|p: int|
                    0 <= p < gi.len() && way[k] == gi[p] && !rem2[p] && (p == p0 || rem1[p]);
                assert(gi[p] == s && !rem2[p]);
            }
        }
        if covered_upto(vals, g, s as int) {
            assert(concat0.contains(s));
            let t2 = choose|t2: int| 0 <= t2 < concat0.len() && concat0[t2] == s;
            assert(concat1[t2] == s);
        }
        if exists|p: int| 0 <= p < gi.len() && (#[trigger] gi[p]) == s && !rem2[p] {
            let p = choose|p: int| 0 <= p < gi.len() && (#[trigger] gi[p]) == s && !rem2[p];
            if !rem0[p] {
                assert(concat0.contains(s));
                let t2 = choose|t2: int| 0 <= t2 < concat0.len() && concat0[t2] == s;
                assert(concat1[t2] == s);
            } else if p == p0 {
                let k = choose|k: int| 0 <= k < way.len() && (#[trigger] way[k]) == gi[p0];
                assert(concat1[concat0.len() + k] == s);
            } else {
                assert(rem1[p] && !rem2[p]);
                let k = choose|k: int| 0 <= k < way.len() && (#[trigger] way[k]) == gi[p];
                assert(concat1[concat0.len() + k] == s);
            }
        }
    }
}

/// Coverage below `upto + 1` splits into coverage below `upto` and
/// membership in group `upto`.
proof fn lemma_covered_step(vals: Seq<Seq<usize>>, upto: int, idx: int)
    requires
        0 <= upto < vals.len(),
    ensures
        covered_upto(vals, upto + 1, idx) <==> (covered_upto(vals, upto, idx) || exists|j: int|
            0 <= j < vals[upto].len() && (#[trigger] vals[upto][j]) == idx),
{
    if covered_upto(vals, upto + 1, idx) {
        let (g, j): (int, int) = choose|g: int, j: int|
            0 <= g < upto + 1 && g < vals.len() && 0 <= j < vals[g].len() && (
            #[trigger] vals[g][j]) == idx;
        if g < upto {
            assert(vals[g][j] == idx);
        } else {
            assert(vals[upto][j] == idx);
        }
    }
    if covered_upto(vals, upto, idx) {
        let (g, j): (int, int) = choose|g: int, j: int|
            0 <= g < upto && g < vals.len() && 0 <= j < vals[g].len() && (#[trigger] vals[g][j])
                == idx;
        assert(0 <= g < upto + 1 && g < vals.len() && 0 <= j < vals[g].len() && vals[g][j] == idx);
    }
    if exists|j: int| 0 <= j < vals[upto].len() && (#[trigger] vals[upto][j]) == idx {
        let j = choose|j: int| 0 <= j < vals[upto].len() && (#[trigger] vals[upto][j]) == idx;
        assert(0 <= upto < upto + 1 && upto < vals.len() && 0 <= j < vals[upto].len()
            && vals[upto][j] == idx);
    }
}

/// Merge the segments of each group into chains by walking shared
/// endpoints under the turn margin, then split at true junctions and tag
/// changes. The emitted ways consume every group member exactly once.
#[verifier::rlimit(100)]
fn simplify_linear(
    segments: &Vec<Segment>,
    groups: &GroupTable,
    junctions: &JunctionTable,
    method: SimplifyMethod,
) -> (ways: Vec<Way>)
    requires
        forall|i: int| 0 <= i < segments@.len() ==> (#[trigger] segments@[i]).wf(),
        groups_wf(*groups, segments@, method),
        junctions.wf(),
        forall|h: u64| #[trigger]
            junctions.count_of(h) == inc_count(segments@, h, segments@.len() as int),
    ensures
        ways_wf(ways@, segments@),
        ways_merged_ok(ways@, segments@),
        concat_members(ways@).no_duplicates(),
        forall|s: usize| #[trigger]
            concat_members(ways@).contains(s) <==> crate::grouping::covered_in(
                groups.val_seq(),
                s as int,
            ),
{
    let ghost vals = groups.val_seq();
    let mut ways: Vec<Way> = Vec::new();
    let ng = groups.len();
    let mut g: usize = 0;
    proof {
        lemma_concat_empty(ways@);
        lemma_cover_init(vals, concat_members(ways@));
    }
    while g < ng
        invariant
            g <= ng,
            ng == groups.key_seq().len(),
            vals == groups.val_seq(),
            vals.len() == ng,
            forall|i: int| 0 <= i < segments@.len() ==> (#[trigger] segments@[i]).wf(),
            groups_wf(*groups, segments@, method),
            junctions.wf(),
            forall|h: u64| #[trigger]
                junctions.count_of(h) == inc_count(segments@, h, segments@.len() as int),
            ways_wf(ways@, segments@),
            ways_merged_ok(ways@, segments@),
            concat_members(ways@).no_duplicates(),
            covered_iff(vals, g as int, concat_members(ways@)),
        decreases ng - g,
    {
        let gi = groups.indices_at(g);
        let gn = gi.len();
        let mut remaining: Vec<bool> = Vec::new();
        let mut t: usize = 0;
        while t < gn
            invariant
                t <= gn,
                remaining@.len() == t,
                forall|x: int| 0 <= x < t ==> remaining@[x],
            decreases gn - t,
        {
            remaining.push(true);
            t = t + 1;
        }
        proof {
            lemma_cover_enter(vals, g as int, gi@, remaining@, concat_members(ways@));
        }
        let mut p0: usize = 0;
        while p0 < gn
            invariant
                p0 <= gn,
                gn == gi@.len(),
                g < ng,
                ng == groups.key_seq().len(),
                vals == groups.val_seq(),
                vals.len() == ng,
                gi@ == vals[g as int],
                remaining@.len() == gn,
                forall|i: int| 0 <= i < segments@.len() ==> (#[trigger] segments@[i]).wf(),
                forall|i: int| 0 <= i < gi@.len() ==> (#[trigger] gi@[i]) < segments@.len(),
                groups_wf(*groups, segments@, method),
                junctions.wf(),
                forall|h: u64| #[trigger]
                    junctions.count_of(h) == inc_count(segments@, h, segments@.len() as int),
                ways_wf(ways@, segments@),
                ways_merged_ok(ways@, segments@),
                concat_members(ways@).no_duplicates(),
                forall|p: int| 0 <= p < p0 ==> !remaining@[p],
                consumed_iff(vals, g as int, gi@, remaining@, concat_members(ways@)),
            decreases gn - p0,
        {
            if remaining[p0] {
                let ghost rem0 = remaining@;
                let ghost concat0 = concat_members(ways@);
                remaining.set(p0, false);
                let ghost rem1 = remaining@;
                let way = build_chain(segments, gi, &mut remaining, p0);
                let ghost rem2 = remaining@;
                let ghost oldways = ways@;
                split_and_emit(segments, junctions, &way, &mut ways);
                proof {
                    lemma_round(
                        groups,
                        segments@,
                        method,
                        g as int,
                        gi@,
                        rem0,
                        rem1,
                        rem2,
                        way@,
                        concat0,
                        concat_members(ways@),
                        p0 as int,
                    );
                }
            }
            p0 = p0 + 1;
        }
        proof {
            lemma_cover_exit(vals, g as int, gi@, remaining@, concat_members(ways@));
        }
        g = g + 1;
    }
    proof {
        lemma_cover_finish(vals, concat_members(ways@));
    }
    ways
}

/// The merging entry point: simplify geometries, group, index junctions,
/// and merge according to the method. Every segment lands in exactly one
/// returned way; with method `segment` each segment is its own way, in
/// input order.
#[verifier::rlimit(100)]
pub fn simplify_network(segments: &mut Vec<Segment>, method: SimplifyMethod) -> (ways: Vec<Way>)
    requires
        forall|i: int| 0 <= i < old(segments)@.len() ==> (#[trigger] old(segments)@[i]).wf(),
    ensures
        final(segments)@.len() == old(segments)@.len(),
        forall|i: int| 0 <= i < final(segments)@.len() ==> (#[trigger] final(segments)@[i]).wf(),
        forall|i: int|
            0 <= i < final(segments)@.len() ==> (#[trigger] final(segments)@[i]).geometry@
                == simplify_spec(old(segments)@[i].geometry@, SIMPLIFY_EPS2_X2 as int),
        forall|i: int|
            0 <= i < final(segments)@.len() ==> (#[trigger] final(segments)@[i]).tags == old(
                segments,
            )@[i].tags,
        forall|i: int|
            0 <= i < final(segments)@.len() ==> (#[trigger] final(segments)@[i]).properties == old(
                segments,
            )@[i].properties,
        forall|i: int|
            0 <= i < final(segments)@.len() ==> (#[trigger] final(segments)@[i]).oneway_direction
                == old(segments)@[i].oneway_direction,
        forall|i: int|
            0 <= i < final(segments)@.len() ==> (#[trigger] final(segments)@[i]).internal_node_ids
                == old(segments)@[i].internal_node_ids,
        ways_wf(ways@, final(segments)@),
        ways_merged_ok(ways@, final(segments)@),
        concat_members(ways@).no_duplicates(),
        forall|s: usize| #[trigger]
            concat_members(ways@).contains(s) <==> (s as int) < final(segments)@.len(),
        method == SimplifyMethod::Segment ==> ways@.len() == final(segments)@.len(),
        method == SimplifyMethod::Segment ==> forall|i: int|
            0 <= i < ways@.len() ==> (#[trigger] ways@[i]).segment_indices@ =~= seq![i as usize]
                && ways@[i].tags@ == final(segments)@[i].tags@,
{
    let ghost orig = segments@;
    let mut out: Vec<Segment> = Vec::new();
    let n = segments.len();
    let mut i: usize = 0;
    while segments.len() > 0
        invariant
            i + segments@.len() == n,
            n == orig.len(),
            out@.len() == i,
            forall|k: int| 0 <= k < segments@.len() ==> segments@[k] == orig[i + k],
            forall|k: int| 0 <= k < orig.len() ==> (#[trigger] orig[k]).wf(),
            forall|k: int| 0 <= k < i ==> (#[trigger] out@[k]).wf(),
            forall|k: int|
                0 <= k < i ==> (#[trigger] out@[k]).geometry@ == simplify_spec(
                    orig[k].geometry@,
                    SIMPLIFY_EPS2_X2 as int,
                ),
            forall|k: int| 0 <= k < i ==> (#[trigger] out@[k]).tags == orig[k].tags,
            forall|k: int| 0 <= k < i ==> (#[trigger] out@[k]).properties == orig[k].properties,
            forall|k: int|
                0 <= k < i ==> (#[trigger] out@[k]).oneway_direction == orig[k].oneway_direction,
            forall|k: int|
                0 <= k < i ==> (#[trigger] out@[k]).internal_node_ids
                    == orig[k].internal_node_ids,
        decreases segments@.len(),
    {
        let mut seg = segments.remove(0);
        let simplified = simplify_polygon(&seg.geometry, SIMPLIFY_EPS2_X2);
        proof {
            if seg.geometry@.len() > 2 {
                crate::geometry::lemma_dp_spec_props(
                    seg.geometry@,
                    0,
                    seg.geometry@.len() - 1,
                    SIMPLIFY_EPS2_X2 as int,
                );
                assert forall|k: int|
                    0 <= k < simplified@.len() implies (#[trigger] simplified@[k]).wf() by {
                    let j = choose|j: int|
                        0 <= j <= seg.geometry@.len() - 1 && simplified@[k] == seg.geometry@[j];
                }
            }
        }
        if simplified.len() >= 2 {
            seg.set_geometry(simplified);
        }
        out.push(seg);
        i = i + 1;
    }
    *segments = out;
    let groups = group_segments(segments, method);
    let junctions = build_junctions(segments);
    match method {
        SimplifyMethod::Segment => {
            let mut ways: Vec<Way> = Vec::new();
            let m = segments.len();
            let mut k: usize = 0;
            proof {
                lemma_concat_empty(ways@);
            }
            while k < m
                invariant
                    k <= m,
                    m == segments@.len(),
                    forall|t: int| 0 <= t < segments@.len() ==> (#[trigger] segments@[t]).wf(),
                    ways_wf(ways@, segments@),
                    ways_merged_ok(ways@, segments@),
                    ways@.len() == k,
                    forall|t: int|
                        0 <= t < k ==> (#[trigger] ways@[t]).segment_indices@ =~= seq![t as usize]
                            && ways@[t].tags@ == segments@[t].tags@,
                    concat_members(ways@).len() == k as int,
                    forall|t: int|
                        0 <= t < k ==> (#[trigger] concat_members(ways@)[t]) == t as usize,
                decreases m - k,
            {
                let ghost oldways = ways@;
                let mut si: Vec<usize> = Vec::new();
                si.push(k);
                let w = Way { segment_indices: si, tags: segments[k].tags.duplicate() };
                ways.push(w);
                proof {
                    reveal(turns_ok_idxs);
                    reveal(splits_ok_idxs);
                    lemma_concat_push(oldways, w);
                    assert(concat_members(ways@) =~= concat_members(oldways).push(k));
                    assert(turns_ok_idxs(ways@.last().segment_indices@, segments@));
                    assert(splits_ok_idxs(ways@.last().segment_indices@, segments@));
                    assert forall|t: int|
                        0 <= t < ways@.len() implies turns_ok_idxs(
                        (#[trigger] ways@[t]).segment_indices@,
                        segments@,
                    ) && splits_ok_idxs(ways@[t].segment_indices@, segments@) by {
                        if t < oldways.len() {
                            assert(turns_ok_idxs(oldways[t].segment_indices@, segments@));
                            assert(splits_ok_idxs(oldways[t].segment_indices@, segments@));
                        }
                    }
                }
                k = k + 1;
            }
            proof {
                let cm = concat_members(ways@);
                assert forall|a: int, b: int|
                    0 <= a < b < cm.len() implies cm[a] != cm[b] by {}
                assert(cm.no_duplicates()) by {
                    assert forall|x: int, y: int|
                        0 <= x < cm.len() && 0 <= y < cm.len() && x != y implies cm[x]
                        != cm[y] by {
                        if x < y {
                        } else {
                            assert(cm[y] != cm[x]);
                        }
                    }
                }
                assert forall|s: usize| #[trigger]
                    cm.contains(s) <==> (s as int) < segments@.len() by {
                    if cm.contains(s) {
                        let t = choose|t: int| 0 <= t < cm.len() && cm[t] == s;
                    }
                    if (s as int) < segments@.len() {
                        assert(cm[s as int] == s);
                    }
                }
            }
            ways
        },
        SimplifyMethod::Recursive => {
            let ways = simplify_fallback(segments, &groups, method);
            proof {
                lemma_cover_from_groups(&groups, segments@, method, ways@);
            }
            ways
        },
        _ => {
            let ways = simplify_linear(segments, &groups, &junctions, method);
            proof {
                lemma_cover_from_groups(&groups, segments@, method, ways@);
            }
            ways
        },
    }
}

/// Group coverage of the emitted members is exactly the full index range.
proof fn lemma_cover_from_groups(
    groups: &GroupTable,
    segs: Seq<Segment>,
    method: SimplifyMethod,
    ways: Seq<Way>,
)
    requires
        groups_wf(*groups, segs, method),
        forall|s: usize| #[trigger]
            concat_members(ways).contains(s) <==> crate::grouping::covered_in(
                groups.val_seq(),
                s as int,
            ),
    ensures
        forall|s: usize| #[trigger] concat_members(ways).contains(s) <==> (s as int) < segs.len(),
{
    let vals = groups.val_seq();
    assert forall|s: usize| #[trigger]
        concat_members(ways).contains(s) <==> (s as int) < segs.len() by {
        if concat_members(ways).contains(s) {
            assert(crate::grouping::covered_in(vals, s as int));
            let (g, j): (int, int) = choose|g: int, j: int|
                0 <= g < vals.len() && 0 <= j < vals[g].len() && (#[trigger] vals[g][j])
                    == s as int;
            assert(vals[g][j] < segs.len());
        }
        if (s as int) < segs.len() {
            assert(crate::grouping::covered_in(vals, s as int));
        }
    }
}

/// The reserved recursive method: each group member becomes its own way,
/// in group order.
#[verifier::rlimit(100)]
fn simplify_fallback(segments: &Vec<Segment>, groups: &GroupTable, method: SimplifyMethod) -> (ways:
    Vec<Way>)
    requires
        forall|i: int| 0 <= i < segments@.len() ==> (#[trigger] segments@[i]).wf(),
        groups_wf(*groups, segments@, method),
    ensures
        ways_wf(ways@, segments@),
        ways_merged_ok(ways@, segments@),
        concat_members(ways@).no_duplicates(),
        forall|s: usize| #[trigger]
            concat_members(ways@).contains(s) <==> crate::grouping::covered_in(
                groups.val_seq(),
                s as int,
            ),
{
    let ghost vals = groups.val_seq();
    let mut ways: Vec<Way> = Vec::new();
    let ng = groups.len();
    let mut g: usize = 0;
    proof {
        lemma_concat_empty(ways@);
    }
    while g < ng
        invariant
            g <= ng,
            ng == groups.key_seq().len(),
            vals == groups.val_seq(),
            vals.len() == ng,
            forall|i: int| 0 <= i < segments@.len() ==> (#[trigger] segments@[i]).wf(),
            groups_wf(*groups, segments@, method),
            ways_wf(ways@, segments@),
            ways_merged_ok(ways@, segments@),
            concat_members(ways@).no_duplicates(),
            forall|s: usize| #[trigger]
                concat_members(ways@).contains(s) <==> covered_upto(vals, g as int, s as int),
        decreases ng - g,
    {
        let gi = groups.indices_at(g);
        let gn = gi.len();
        let mut j: usize = 0;
        while j < gn
            invariant
                j <= gn,
                gn == gi@.len(),
                g < ng,
                vals == groups.val_seq(),
                vals.len() == ng,
                gi@ == vals[g as int],
                forall|i: int| 0 <= i < segments@.len() ==> (#[trigger] segments@[i]).wf(),
                forall|i: int| 0 <= i < gi@.len() ==> (#[trigger] gi@[i]) < segments@.len(),
                groups_wf(*groups, segments@, method),
                ways_wf(ways@, segments@),
                ways_merged_ok(ways@, segments@),
                concat_members(ways@).no_duplicates(),
                forall|s: usize| #[trigger]
                    concat_members(ways@).contains(s) <==> (covered_upto(vals, g as int, s as int)
                        || exists|x: int| 0 <= x < j && (#[trigger] gi@[x]) == s),
            decreases gn - j,
        {
            let ghost concat0 = concat_members(ways@);
            let ghost oldways = ways@;
            let idx = gi[j];
            let mut si: Vec<usize> = Vec::new();
            si.push(idx);
            let w = Way { segment_indices: si, tags: segments[idx].tags.duplicate() };
            ways.push(w);
            proof {
                reveal(turns_ok_idxs);
                reveal(splits_ok_idxs);
                assert(turns_ok_idxs(ways@.last().segment_indices@, segments@));
                assert(splits_ok_idxs(ways@.last().segment_indices@, segments@));
                assert forall|t: int|
                    0 <= t < ways@.len() implies turns_ok_idxs(
                    (#[trigger] ways@[t]).segment_indices@,
                    segments@,
                ) && splits_ok_idxs(ways@[t].segment_indices@, segments@) by {
                    if t < oldways.len() {
                        assert(turns_ok_idxs(oldways[t].segment_indices@, segments@));
                        assert(splits_ok_idxs(oldways[t].segment_indices@, segments@));
                    }
                }
                lemma_concat_push(oldways, w);
                let concat1 = concat_members(ways@);
                assert(concat1 =~= concat0.push(idx));
                assert(!concat0.contains(idx)) by {
                    if concat0.contains(idx) {
                        if covered_upto(vals, g as int, idx as int) {
                            let (t2, j2): (int, int) = choose|t2: int, j2: int|
                                0 <= t2 < g && t2 < vals.len() && 0 <= j2 < vals[t2].len() && (
                                #[trigger] vals[t2][j2]) == idx as int;
                            lemma_groups_distinct(
                                groups,
                                segments@,
                                method,
                                t2,
                                j2,
                                g as int,
                                j as int,
                            );
                        } else {
                            let x = choose|x: int| 0 <= x < j && (#[trigger] gi@[x]) == idx;
                            lemma_groups_distinct(
                                groups,
                                segments@,
                                method,
                                g as int,
                                x,
                                g as int,
                                j as int,
                            );
                        }
                    }
                }
                assert forall|a: int, b: int|
                    0 <= a < b < concat1.len() implies concat1[a] != concat1[b] by {
                    if b < concat0.len() {
                        assert(concat0[a] != concat0[b]);
                    } else {
                        assert(concat1[b] == idx);
                        assert(concat0[a] != idx);
                    }
                }
                assert(concat1.no_duplicates()) by {
                    assert forall|x: int, y: int|
                        0 <= x < concat1.len() && 0 <= y < concat1.len() && x
                            != y implies concat1[x] != concat1[y] by {
                        if x < y {
                        } else {
                            assert(concat1[y] != concat1[x]);
                        }
                    }
                }
                assert forall|s: usize| #[trigger]
                    concat1.contains(s) <==> (covered_upto(vals, g as int, s as int) || exists|
                    x: int,
                | 0 <= x < j + 1 && (#[trigger] gi@[x]) == s) by {
                    if concat1.contains(s) {
                        let t2 = choose|t2: int| 0 <= t2 < concat1.len() && concat1[t2] == s;
                        if t2 < concat0.len() {
                            assert(concat0.contains(s));
                        } else {
                            assert(gi@[j as int] == s);
                        }
                    }
                    if covered_upto(vals, g as int, s as int) {
                        assert(concat0.contains(s));
                        let t2 = choose|t2: int| 0 <= t2 < concat0.len() && concat0[t2] == s;
                        assert(concat1[t2] == s);
                    }
                    if exists|x: int| 0 <= x < j + 1 && (#[trigger] gi@[x]) == s {
                        let x = choose|x: int| 0 <= x < j + 1 && (#[trigger] gi@[x]) == s;
                        if x < j {
                            assert(concat0.contains(s));
                            let t2 = choose|t2: int| 0 <= t2 < concat0.len() && concat0[t2] == s;
                            assert(concat1[t2] == s);
                        } else {
                            assert(concat1[concat1.len() - 1] == s);
                        }
                    }
                }
            }
            j = j + 1;
        }
        proof {
            assert forall|s: usize| #[trigger]
                concat_members(ways@).contains(s) <==> covered_upto(
                vals,
                g + 1,
                s as int,
            ) by {
                lemma_covered_step(vals, g as int, s as int);
            }
        }
        g = g + 1;
    }
    proof {
        assert forall|s: usize| #[trigger]
            concat_members(ways@).contains(s) <==> crate::grouping::covered_in(
            vals,
            s as int,
        ) by {
            lemma_covered_full(vals, s as int);
        }
    }
    ways
}

} // verus!
