//! The three-pass PBF emission plan: a bounding box, feature nodes,
//! junction nodes, interior nodes, and ways over stable node IDs.
//!
//! Shared node identity is the point: every way endpoint and every internal
//! segment boundary is assigned exactly one node ID per coordinate hash, so
//! two ways meeting at a coordinate reference the same node. The plan holds
//! plain values; writing it out is the caller's concern.

use crate::coord::{hash_coord, hash_of, Coord};
use crate::maps::{IdMap, TagMap};
use crate::segment::{NodeFeature, Segment, Way};
use crate::topology::{way_ok, ways_wf};
use vstd::prelude::*;

verus! {

/// A bounding box in nanodegrees.
pub struct BBox {
    pub left: i64,
    pub right: i64,
    pub top: i64,
    pub bottom: i64,
}

/// One node of the plan.
pub struct PlanNode {
    pub id: i64,
    pub lat7: i64,
    pub lon7: i64,
    pub tags: TagMap,
}

impl PlanNode {
    /// The coordinate hash of this node's position.
    pub open spec fn coord_hash(self) -> int {
        hash_of(Coord { lon7: self.lon7, lat7: self.lat7 })
    }
}

/// One way of the plan.
pub struct PlanWay {
    pub id: i64,
    pub node_refs: Vec<i64>,
    pub tags: TagMap,
}

/// The whole emission plan, in emission order, with the junction ID table.
pub struct PbfPlan {
    pub bbox: Option<BBox>,
    pub nodes: Vec<PlanNode>,
    pub ways: Vec<PlanWay>,
    pub junction_ids: IdMap,
}

/// The node-ID list of one plan way is nonempty and holds no two equal
/// consecutive IDs.
pub open spec fn refs_ok(w: PlanWay) -> bool {
    &&& w.node_refs@.len() >= 1
    &&& forall|k: int| 0 <= k < w.node_refs@.len() - 1 ==> (#[trigger] w.node_refs@[k])
        != w.node_refs@[k + 1]
}

/// The plan's contract over its input ways: each emitted way starts at the
/// junction node of its first segment's start hash and ends at the
/// junction node of its last segment's end hash.
pub open spec fn way_endpoints_ok(
    pw: PlanWay,
    w: Way,
    segs: Seq<Segment>,
    jm: Map<u64, i64>,
) -> bool {
    let sh = segs[w.segment_indices@[0] as int].start_node;
    let eh = segs[w.segment_indices@.last() as int].end_node;
    &&& jm.dom().contains(sh)
    &&& jm.dom().contains(eh)
    &&& pw.node_refs@[0] == jm[sh]
    &&& pw.node_refs@.last() == jm[eh]
}

/// Collapse consecutive equal IDs; the set of IDs is unchanged.
fn dedup_refs(v: &Vec<i64>) -> (r: Vec<i64>)
    requires
        v@.len() >= 1,
    ensures
        r@.len() >= 1,
        forall|k: int| 0 <= k < r@.len() - 1 ==> (#[trigger] r@[k]) != r@[k + 1],
        r@[0] == v@[0],
        r@.last() == v@.last(),
        forall|x: i64| #[trigger] r@.contains(x) <==> v@.contains(x),
{
    let n = v.len();
    let mut out: Vec<i64> = Vec::new();
    out.push(v[0]);
    proof {
        assert(out@ =~= seq![v@[0]]);
        assert forall|x: i64| #[trigger]
            out@.contains(x) <==> v@.subrange(0, 1).contains(x) by {
            if out@.contains(x) {
                assert(v@.subrange(0, 1)[0] == x);
            }
            if v@.subrange(0, 1).contains(x) {
                let t = choose|t: int| 0 <= t < 1 && v@.subrange(0, 1)[t] == x;
                assert(out@[0] == x);
            }
        }
    }
    let mut i: usize = 1;
    while i < n
        invariant
            1 <= i <= n,
            n == v@.len(),
            out@.len() >= 1,
            forall|k: int| 0 <= k < out@.len() - 1 ==> (#[trigger] out@[k]) != out@[k + 1],
            out@[0] == v@[0],
            out@.last() == v@[i - 1],
            forall|x: i64| #[trigger] out@.contains(x) <==> v@.subrange(0, i as int).contains(x),
        decreases n - i,
    {
        let ghost oldout = out@;
        let x = v[i];
        let keep = x != out[out.len() - 1];
        if keep {
            out.push(x);
        }
        proof {
            assert(v@.subrange(0, i + 1) =~= v@.subrange(0, i as int).push(v@[i as int]));
            lemma_push_contains_iff(v@.subrange(0, i as int), v@[i as int]);
            if keep {
                lemma_push_contains_iff(oldout, x);
            } else {
                assert(oldout.contains(x)) by {
                    assert(oldout[oldout.len() - 1] == x);
                }
            }
        }
        i = i + 1;
    }
    proof {
        assert(v@.subrange(0, n as int) =~= v@);
    }
    out
}

/// Emit the interior nodes of one way member, reusing junction IDs where
/// an interior coordinate sits on a junction; `None` when the ID space is
/// exhausted.
#[verifier::rlimit(100)]
fn pass2_member(
    segments: &Vec<Segment>,
    seg_idx: usize,
    nodes: &mut Vec<PlanNode>,
    jmap: &IdMap,
    node_id: &mut i64,
) -> (r: Option<Vec<i64>>)
    requires
        forall|t: int| 0 <= t < segments@.len() ==> (#[trigger] segments@[t]).geom_wf(),
        seg_idx < segments@.len(),
        jmap.wf(),
        emission_inv(old(nodes)@, jmap@, *old(node_id) as int),
    ensures
        emission_inv(final(nodes)@, jmap@, *final(node_id) as int),
        nodes_prefix(old(nodes)@, final(nodes)@),
        *old(node_id) <= *final(node_id),
        *final(node_id) <= *old(node_id) + segments@[seg_idx as int].geometry@.len(),
        *old(node_id) + segments@[seg_idx as int].geometry@.len() <= i64::MAX ==> r is Some,
        r is Some ==> (r->0)@.len() == segments@[seg_idx as int].geometry@.len() - 2,
{
    proof {
        reveal(emission_inv);
        lemma_nodes_prefix_refl(nodes@);
    }
    let inner = segments[seg_idx].internal_coords();
    let il = inner.len();
    let mut ids: Vec<i64> = Vec::new();
    let mut t: usize = 0;
    while t < il
        invariant
            t <= il,
            il == inner@.len(),
            il == segments@[seg_idx as int].geometry@.len() - 2,
            forall|x: int| 0 <= x < inner@.len() ==> (#[trigger] inner@[x]).wf(),
            jmap.wf(),
            emission_inv(nodes@, jmap@, *node_id as int),
            ids@.len() == t,
            nodes_prefix(old(nodes)@, nodes@),
            *old(node_id) <= *node_id,
            *node_id <= *old(node_id) + t,
        decreases il - t,
    {
        proof {
            reveal(emission_inv);
        }
        let c = inner[t];
        let h = hash_coord(&c);
        match jmap.get(h) {
            Option::Some(id) => {
                ids.push(id);
            },
            Option::None => {
                if *node_id == i64::MAX {
                    return Option::None;
                }
                let ghost oldnodes = nodes@;
                nodes.push(
                    PlanNode { id: *node_id, lat7: c.lat7, lon7: c.lon7, tags: TagMap::new() },
                );
                ids.push(*node_id);
                *node_id = *node_id + 1;
                proof {
                    lemma_nodes_prefix_push(oldnodes, nodes@.last());
                    assert(nodes@ =~= oldnodes.push(nodes@.last()));
                    lemma_nodes_prefix_trans(old(nodes)@, oldnodes, nodes@);
                    assert forall|h2: u64| #[trigger]
                        jmap@.dom().contains(h2) implies exists|x: int|
                        0 <= x < nodes@.len() && (#[trigger] nodes@[x]).id == jmap@[h2]
                            && nodes@[x].coord_hash() == h2 by {
                        let x = choose|x: int|
                            0 <= x < oldnodes.len() && (#[trigger] oldnodes[x]).id == jmap@[h2]
                                && oldnodes[x].coord_hash() == h2;
                        assert(nodes@[x].id == jmap@[h2] && nodes@[x].coord_hash() == h2);
                    }
                }
            },
        }
        t = t + 1;
    }
    Option::Some(ids)
}

/// Every endpoint hash of this way has a junction ID.
#[verifier::opaque]
pub open spec fn way_covered(w: Way, segs: Seq<Segment>, jm: Map<u64, i64>) -> bool {
    &&& jm.dom().contains(segs[w.segment_indices@[0] as int].start_node)
    &&& forall|k: int|
        0 <= k < w.segment_indices@.len() ==> jm.dom().contains(
            segs[(#[trigger] w.segment_indices@[k]) as int].end_node,
        )
}

/// A covered way stays covered as the junction table grows.
proof fn lemma_way_covered_mono(w: Way, segs: Seq<Segment>, jm1: Map<u64, i64>, jm2: Map<u64, i64>)
    requires
        way_covered(w, segs, jm1),
        forall|x: u64| jm1.dom().contains(x) ==> #[trigger] jm2.dom().contains(x),
    ensures
        way_covered(w, segs, jm2),
{
    reveal(way_covered);
}

/// Common bookkeeping of the node list and junction table.
#[verifier::opaque]
pub open spec fn emission_inv(nodes: Seq<PlanNode>, jm: Map<u64, i64>, node_id: int) -> bool {
    &&& forall|a: int, b: int|
        0 <= a < b < nodes.len() ==> (#[trigger] nodes[a]).id < (#[trigger] nodes[b]).id
    &&& forall|a: int| 0 <= a < nodes.len() ==> (#[trigger] nodes[a]).id < node_id
    &&& forall|a: int| 0 <= a < nodes.len() ==> (#[trigger] nodes[a]).tags.wf()
    &&& forall|h: u64| #[trigger] jm.dom().contains(h) ==> jm[h] < node_id
    &&& forall|h: u64| #[trigger]
        jm.dom().contains(h) ==> exists|k: int|
            0 <= k < nodes.len() && (#[trigger] nodes[k]).id == jm[h] && nodes[k].coord_hash() == h
    &&& forall|h1: u64, h2: u64|
        jm.dom().contains(h1) && jm.dom().contains(h2) && h1 != h2 ==> jm[h1] != jm[h2]
}

/// The plan's node list starts with the feature nodes, in creation order,
/// under their pre-assigned IDs, positions and tags.
#[verifier::opaque]
pub open spec fn features_prefix(nodes: Seq<PlanNode>, feats: Seq<NodeFeature>) -> bool {
    &&& nodes.len() >= feats.len()
    &&& forall|k: int|
        0 <= k < feats.len() ==> (#[trigger] nodes[k]).id == feats[k].id && nodes[k].lat7
            == feats[k].lat7 && nodes[k].lon7 == feats[k].lon7 && nodes[k].tags@ == feats[k].tags@
}

/// The node list only ever grows at the end.
#[verifier::opaque]
pub open spec fn nodes_prefix(a: Seq<PlanNode>, b: Seq<PlanNode>) -> bool {
    &&& b.len() >= a.len()
    &&& forall|k: int| 0 <= k < a.len() ==> #[trigger] b[k] == a[k]
}

/// Growth is reflexive.
proof fn lemma_nodes_prefix_refl(a: Seq<PlanNode>)
    ensures
        nodes_prefix(a, a),
{
    reveal(nodes_prefix);
}

/// Growth composes.
proof fn lemma_nodes_prefix_trans(a: Seq<PlanNode>, b: Seq<PlanNode>, c: Seq<PlanNode>)
    requires
        nodes_prefix(a, b),
        nodes_prefix(b, c),
    ensures
        nodes_prefix(a, c),
{
    reveal(nodes_prefix);
}

/// A push grows the list.
proof fn lemma_nodes_prefix_push(a: Seq<PlanNode>, x: PlanNode)
    ensures
        nodes_prefix(a, a.push(x)),
{
    reveal(nodes_prefix);
}

/// Appending nodes never disturbs the feature prefix.
proof fn lemma_features_prefix_grow(
    old_nodes: Seq<PlanNode>,
    new_nodes: Seq<PlanNode>,
    feats: Seq<NodeFeature>,
)
    requires
        features_prefix(old_nodes, feats),
        nodes_prefix(old_nodes, new_nodes),
    ensures
        features_prefix(new_nodes, feats),
{
    reveal(features_prefix);
    reveal(nodes_prefix);
}

/// Every member's end-hash junction ID appears among the way's node refs.
pub open spec fn way_members_ok(
    pw: PlanWay,
    w: Way,
    segs: Seq<Segment>,
    jm: Map<u64, i64>,
) -> bool {
    forall|m: int|
        0 <= m < w.segment_indices@.len() ==> jm.dom().contains(
            segs[(#[trigger] w.segment_indices@[m]) as int].end_node,
        ) && pw.node_refs@.contains(jm[segs[w.segment_indices@[m] as int].end_node])
}

/// Pushing onto a sequence keeps every member.
proof fn lemma_push_keeps<A>(s: Seq<A>, a: A)
    ensures
        forall|x: A| s.contains(x) ==> #[trigger] s.push(a).contains(x),
        s.push(a).contains(a),
{
    assert forall|x: A| s.contains(x) implies #[trigger] s.push(a).contains(x) by {
        let t = choose|t: int| 0 <= t < s.len() && s[t] == x;
        assert(s.push(a)[t] == x);
    }
    assert(s.push(a)[s.len() as int] == a);
}

/// Membership in a pushed sequence, exactly.
proof fn lemma_push_contains_iff<A>(s: Seq<A>, a: A)
    ensures
        forall|x: A| #[trigger] s.push(a).contains(x) <==> (s.contains(x) || x == a),
{
    assert forall|x: A| #[trigger] s.push(a).contains(x) <==> (s.contains(x) || x == a) by {
        if s.push(a).contains(x) {
            let t = choose|t: int| 0 <= t < s.push(a).len() && s.push(a)[t] == x;
            if t < s.len() {
                assert(s[t] == x);
            }
        }
        if s.contains(x) {
            let t = choose|t: int| 0 <= t < s.len() && s[t] == x;
            assert(s.push(a)[t] == x);
        }
        if x == a {
            assert(s.push(a)[s.len() as int] == x);
        }
    }
}

/// The sum of the geometry lengths of the first `n` segments.
#[verifier::opaque]
pub open spec fn geom_total(segs: Seq<Segment>, n: int) -> int
    decreases n,
{
    if n <= 0 {
        0
    } else {
        geom_total(segs, n - 1) + segs[n - 1].geometry@.len()
    }
}

/// The member count of the first `n` ways, one extra per way.
#[verifier::opaque]
pub open spec fn members_total(ways: Seq<Way>, n: int) -> int
    decreases n,
{
    if n <= 0 {
        0
    } else {
        members_total(ways, n - 1) + ways[n - 1].segment_indices@.len() + 1
    }
}

/// The geometry lengths of one way's members, summed over the first `m`.
#[verifier::opaque]
pub open spec fn way_geom_total(w: Way, segs: Seq<Segment>, m: int) -> int
    decreases m,
{
    if m <= 0 {
        0
    } else {
        way_geom_total(w, segs, m - 1) + segs[w.segment_indices@[m - 1] as int].geometry@.len()
    }
}

/// The geometry lengths of all members of the first `n` ways.
#[verifier::opaque]
pub open spec fn members_geom_total(ways: Seq<Way>, segs: Seq<Segment>, n: int) -> int
    decreases n,
{
    if n <= 0 {
        0
    } else {
        members_geom_total(ways, segs, n - 1) + way_geom_total(
            ways[n - 1],
            segs,
            ways[n - 1].segment_indices@.len() as int,
        )
    }
}

/// The node-ID counter value past the feature nodes.
pub open spec fn feat_base(feats: Seq<NodeFeature>, node_id_start: int) -> int {
    if feats.len() > 0 && feats.last().id + 1 > node_id_start {
        feats.last().id + 1
    } else {
        node_id_start
    }
}

/// Enough ID space for every node and way the plan can emit.
pub open spec fn plan_budget_ok(
    ways: Seq<Way>,
    segs: Seq<Segment>,
    feats: Seq<NodeFeature>,
    node_id_start: int,
    way_id_start: int,
) -> bool {
    &&& feat_base(feats, node_id_start) + members_total(ways, ways.len() as int)
        + members_geom_total(ways, segs, ways.len() as int) <= i64::MAX
    &&& way_id_start + ways.len() <= i64::MAX
    &&& ways.len() <= i64::MAX
}

/// The geometry lengths of the first `k` segments.
pub open spec fn segs_points(segs: Seq<Segment>, k: int) -> int
    decreases k,
{
    if k <= 0 {
        0
    } else {
        segs_points(segs, k - 1) + segs[k - 1].geometry@.len()
    }
}

/// Pointwise no-larger geometries give a no-larger total.
pub proof fn lemma_segs_points_le(a: Seq<Segment>, b: Seq<Segment>, k: int)
    requires
        forall|t: int| 0 <= t < k ==> (#[trigger] a[t]).geometry@.len() <= b[t].geometry@.len(),
    ensures
        segs_points(a, k) <= segs_points(b, k),
    decreases k,
{
    if k > 0 {
        lemma_segs_points_le(a, b, k - 1);
    }
}

/// The total reads only the prefix it sums.
pub proof fn lemma_segs_points_agree(a: Seq<Segment>, b: Seq<Segment>, k: int)
    requires
        forall|t: int| 0 <= t < k ==> (#[trigger] a[t]).geometry@.len() == b[t].geometry@.len(),
    ensures
        segs_points(a, k) == segs_points(b, k),
    decreases k,
{
    if k > 0 {
        lemma_segs_points_agree(a, b, k - 1);
    }
}

/// The total is never negative.
pub proof fn lemma_segs_points_nonneg(a: Seq<Segment>, k: int)
    ensures
        segs_points(a, k) >= 0,
    decreases k,
{
    if k > 0 {
        lemma_segs_points_nonneg(a, k - 1);
    }
}

/// The member count of ways that each hold one segment.
pub proof fn lemma_members_total_ones(ways: Seq<Way>, n: int)
    requires
        0 <= n <= ways.len(),
        forall|i: int| 0 <= i < ways.len() ==> (#[trigger] ways[i]).segment_indices@.len() == 1,
    ensures
        members_total(ways, n) == 2 * n,
    decreases n,
{
    reveal(members_total);
    if n > 0 {
        lemma_members_total_ones(ways, n - 1);
    }
}

/// The geometry total of ways that each hold exactly their own segment.
pub proof fn lemma_members_geom_ones(ways: Seq<Way>, segs: Seq<Segment>, n: int)
    requires
        0 <= n <= ways.len(),
        ways.len() == segs.len(),
        ways.len() <= usize::MAX,
        forall|i: int|
            0 <= i < ways.len() ==> (#[trigger] ways[i]).segment_indices@ =~= seq![i as usize],
    ensures
        members_geom_total(ways, segs, n) == segs_points(segs, n),
    decreases n,
{
    reveal(members_geom_total);
    reveal(way_geom_total);
    if n > 0 {
        lemma_members_geom_ones(ways, segs, n - 1);
        assert(ways[n - 1].segment_indices@ =~= seq![(n - 1) as usize]);
        assert(ways[n - 1].segment_indices@.len() == 1);
        assert(ways[n - 1].segment_indices@[0] == (n - 1) as usize);
        assert(way_geom_total(ways[n - 1], segs, 1) == way_geom_total(ways[n - 1], segs, 0)
            + segs[(ways[n - 1].segment_indices@[0]) as int].geometry@.len());
    }
}

/// The empty prefixes of the sums.
proof fn lemma_sums_zero(ways: Seq<Way>, segs: Seq<Segment>, w: Way)
    ensures
        members_total(ways, 0) == 0,
        members_geom_total(ways, segs, 0) == 0,
        way_geom_total(w, segs, 0) == 0,
        geom_total(segs, 0) == 0,
{
    reveal(members_total);
    reveal(members_geom_total);
    reveal(way_geom_total);
    reveal(geom_total);
}

/// One step of the member sum.
proof fn lemma_members_total_step(ways: Seq<Way>, n: int)
    requires
        0 <= n,
    ensures
        members_total(ways, n + 1) == members_total(ways, n) + ways[n].segment_indices@.len() + 1,
{
    reveal(members_total);
}

/// One step of a way's member-geometry sum.
proof fn lemma_way_geom_step(w: Way, segs: Seq<Segment>, m: int)
    requires
        0 <= m,
    ensures
        way_geom_total(w, segs, m + 1) == way_geom_total(w, segs, m)
            + segs[w.segment_indices@[m] as int].geometry@.len(),
{
    reveal(way_geom_total);
}

/// One step of the member-geometry sum.
proof fn lemma_members_geom_step(ways: Seq<Way>, segs: Seq<Segment>, n: int)
    requires
        0 <= n,
    ensures
        members_geom_total(ways, segs, n + 1) == members_geom_total(ways, segs, n)
            + way_geom_total(ways[n], segs, ways[n].segment_indices@.len() as int),
{
    reveal(members_geom_total);
}

/// The member sum is nonnegative and grows with the prefix.
#[verifier::rlimit(100)]
proof fn lemma_members_total_mono(ways: Seq<Way>, a: int, b: int)
    requires
        0 <= a <= b <= ways.len(),
    ensures
        0 <= members_total(ways, a) <= members_total(ways, b),
    decreases b,
{
    reveal(members_total);
    if b > 0 {
        if a == b {
            lemma_members_total_mono(ways, a - 1, b - 1);
        } else {
            lemma_members_total_mono(ways, a, b - 1);
        }
    }
}

/// A way's member-geometry sum is nonnegative and grows with the prefix.
#[verifier::rlimit(100)]
proof fn lemma_way_geom_mono(w: Way, segs: Seq<Segment>, a: int, b: int)
    requires
        0 <= a <= b,
        forall|k: int| 0 <= k < w.segment_indices@.len() ==> (#[trigger] w.segment_indices@[k]) < segs.len(),
        b <= w.segment_indices@.len(),
    ensures
        0 <= way_geom_total(w, segs, a) <= way_geom_total(w, segs, b),
    decreases b,
{
    reveal(way_geom_total);
    if b > 0 {
        if a == b {
            lemma_way_geom_mono(w, segs, a - 1, b - 1);
        } else {
            lemma_way_geom_mono(w, segs, a, b - 1);
        }
    }
}

/// The member-geometry sum is nonnegative and grows with the prefix.
#[verifier::rlimit(100)]
proof fn lemma_members_geom_mono(ways: Seq<Way>, segs: Seq<Segment>, a: int, b: int)
    requires
        0 <= a <= b <= ways.len(),
        ways_wf(ways, segs),
    ensures
        0 <= members_geom_total(ways, segs, a) <= members_geom_total(ways, segs, b),
    decreases b,
{
    reveal(members_geom_total);
    if b > 0 {
        assert(way_ok(ways[b - 1], segs));
        lemma_way_geom_mono(
            ways[b - 1],
            segs,
            0,
            ways[b - 1].segment_indices@.len() as int,
        );
        if a == b {
            lemma_members_geom_mono(ways, segs, a - 1, b - 1);
        } else {
            lemma_members_geom_mono(ways, segs, a, b - 1);
        }
    }
}

/// Emit the junction nodes of one way: its start, its end, and every
/// internal boundary; false when the ID space is exhausted.
#[verifier::rlimit(100)]
fn pass1_way(
    segments: &Vec<Segment>,
    way: &Way,
    nodes: &mut Vec<PlanNode>,
    jmap: &mut IdMap,
    node_id: &mut i64,
) -> (ok: bool)
    requires
        forall|t: int| 0 <= t < segments@.len() ==> (#[trigger] segments@[t]).geom_wf(),
        way_ok(*way, segments@),
        old(jmap).wf(),
        emission_inv(old(nodes)@, old(jmap)@, *old(node_id) as int),
    ensures
        final(jmap).wf(),
        emission_inv(final(nodes)@, final(jmap)@, *final(node_id) as int),
        forall|x: u64|
            old(jmap)@.dom().contains(x) ==> #[trigger] final(jmap)@.dom().contains(x),
        ok ==> way_covered(*way, segments@, final(jmap)@),
        nodes_prefix(old(nodes)@, final(nodes)@),
        *old(node_id) <= *final(node_id),
        *final(node_id) <= *old(node_id) + way.segment_indices@.len() + 1,
        *old(node_id) + way.segment_indices@.len() + 1 <= i64::MAX ==> ok,
{
    proof {
        reveal(emission_inv);
        reveal(way_covered);
        lemma_nodes_prefix_refl(nodes@);
    }
    let wl = way.segment_indices.len();
    let first_seg = way.segment_indices[0];
    let last_seg = way.segment_indices[wl - 1];
    let sh = segments[first_seg].start_node;
    let ghost n0 = nodes@;
    if !emit_junction(segments, nodes, jmap, node_id, sh, segments[first_seg].start_coord()) {
        return false;
    }
    let ghost n1 = nodes@;
    let eh = segments[last_seg].end_node;
    let ok2 = emit_junction(segments, nodes, jmap, node_id, eh, segments[last_seg].end_coord());
    proof {
        lemma_nodes_prefix_trans(n0, n1, nodes@);
    }
    if !ok2 {
        return false;
    }
    let mut k: usize = 0;
    while k + 1 < wl
        invariant
            k < wl,
            wl == way.segment_indices@.len(),
            forall|t: int| 0 <= t < segments@.len() ==> (#[trigger] segments@[t]).geom_wf(),
            way_ok(*way, segments@),
            jmap.wf(),
            emission_inv(nodes@, jmap@, *node_id as int),
            nodes_prefix(old(nodes)@, nodes@),
            *old(node_id) <= *node_id,
            *node_id <= *old(node_id) + 2 + k,
            forall|x: u64|
                old(jmap)@.dom().contains(x) ==> #[trigger] jmap@.dom().contains(x),
            jmap@.dom().contains(segments@[way.segment_indices@[0] as int].start_node),
            jmap@.dom().contains(
                segments@[way.segment_indices@.last() as int].end_node,
            ),
            forall|x: int|
                0 <= x < k ==> jmap@.dom().contains(
                    segments@[(#[trigger] way.segment_indices@[x]) as int].end_node,
                ),
        decreases wl - k,
    {
        let seg_idx = way.segment_indices[k];
        let h = segments[seg_idx].end_node;
        let ghost nk = nodes@;
        let okk = emit_junction(segments, nodes, jmap, node_id, h, segments[seg_idx].end_coord());
        proof {
            lemma_nodes_prefix_trans(old(nodes)@, nk, nodes@);
        }
        if !okk {
            return false;
        }
        k = k + 1;
    }
    proof {
        assert forall|x: int|
            0 <= x < way.segment_indices@.len() implies jmap@.dom().contains(
            segments@[(#[trigger] way.segment_indices@[x]) as int].end_node,
        ) by {
            if x == way.segment_indices@.len() - 1 {
                assert(way.segment_indices@[x] == way.segment_indices@.last());
            }
        }
    }
    true
}

/// The bounding box over every segment coordinate and every feature node
/// within the coordinate range, in nanodegrees; nothing when there is no
/// such point.
fn compute_bbox(segments: &Vec<Segment>, feature_nodes: &Vec<NodeFeature>) -> (r: Option<BBox>)
    requires
        forall|i: int| 0 <= i < segments@.len() ==> (#[trigger] segments@[i]).wf(),
{
    let mut have_bbox: bool = false;
    let mut min_lat: i64 = 0;
    let mut max_lat: i64 = 0;
    let mut min_lon: i64 = 0;
    let mut max_lon: i64 = 0;
    let ns = segments.len();
    let mut i: usize = 0;
    while i < ns
        invariant
            i <= ns,
            ns == segments@.len(),
            forall|t: int| 0 <= t < segments@.len() ==> (#[trigger] segments@[t]).wf(),
            -1_800_000_000 <= min_lat <= 1_800_000_000,
            -1_800_000_000 <= max_lat <= 1_800_000_000,
            -1_800_000_000 <= min_lon <= 1_800_000_000,
            -1_800_000_000 <= max_lon <= 1_800_000_000,
        decreases ns - i,
    {
        let g = &segments[i].geometry;
        let gl = g.len();
        let mut j: usize = 0;
        while j < gl
            invariant
                j <= gl,
                i < segments@.len(),
                gl == segments@[i as int].geometry@.len(),
                g == &segments@[i as int].geometry,
                forall|t: int| 0 <= t < segments@.len() ==> (#[trigger] segments@[t]).wf(),
                -1_800_000_000 <= min_lat <= 1_800_000_000,
                -1_800_000_000 <= max_lat <= 1_800_000_000,
                -1_800_000_000 <= min_lon <= 1_800_000_000,
                -1_800_000_000 <= max_lon <= 1_800_000_000,
            decreases gl - j,
        {
            let c = g[j];
            if !have_bbox {
                min_lat = c.lat7;
                max_lat = c.lat7;
                min_lon = c.lon7;
                max_lon = c.lon7;
                have_bbox = true;
            } else {
                if c.lat7 < min_lat {
                    min_lat = c.lat7;
                }
                if c.lat7 > max_lat {
                    max_lat = c.lat7;
                }
                if c.lon7 < min_lon {
                    min_lon = c.lon7;
                }
                if c.lon7 > max_lon {
                    max_lon = c.lon7;
                }
            }
            j = j + 1;
        }
        i = i + 1;
    }
    let nf = feature_nodes.len();
    let mut i: usize = 0;
    while i < nf
        invariant
            i <= nf,
            nf == feature_nodes@.len(),
            -1_800_000_000 <= min_lat <= 1_800_000_000,
            -1_800_000_000 <= max_lat <= 1_800_000_000,
            -1_800_000_000 <= min_lon <= 1_800_000_000,
            -1_800_000_000 <= max_lon <= 1_800_000_000,
        decreases nf - i,
    {
        let f = &feature_nodes[i];
        if -1_800_000_000 <= f.lat7 && f.lat7 <= 1_800_000_000 && -1_800_000_000 <= f.lon7
            && f.lon7 <= 1_800_000_000 {
            if !have_bbox {
                min_lat = f.lat7;
                max_lat = f.lat7;
                min_lon = f.lon7;
                max_lon = f.lon7;
                have_bbox = true;
            } else {
                if f.lat7 < min_lat {
                    min_lat = f.lat7;
                }
                if f.lat7 > max_lat {
                    max_lat = f.lat7;
                }
                if f.lon7 < min_lon {
                    min_lon = f.lon7;
                }
                if f.lon7 > max_lon {
                    max_lon = f.lon7;
                }
            }
        }
        i = i + 1;
    }
    if have_bbox {
        Option::Some(
            BBox {
                left: min_lon * 100,
                right: max_lon * 100,
                top: max_lat * 100,
                bottom: min_lat * 100,
            },
        )
    } else {
        Option::None
    }
}

/// Emit the feature nodes in creation order under their pre-assigned IDs
/// and move the counter past them; false only when the ID space cannot
/// hold them.
#[verifier::rlimit(100)]
fn pass0_features(
    feature_nodes: &Vec<NodeFeature>,
    nodes: &mut Vec<PlanNode>,
    node_id: &mut i64,
) -> (ok: bool)
    requires
        old(nodes)@.len() == 0,
        forall|a: int, b: int|
            0 <= a < b < feature_nodes@.len() ==> (#[trigger] feature_nodes@[a]).id < (
            #[trigger] feature_nodes@[b]).id,
        forall|i: int| 0 <= i < feature_nodes@.len() ==> (#[trigger] feature_nodes@[i]).tags.wf(),
    ensures
        ok ==> emission_inv(final(nodes)@, Map::<u64, i64>::empty(), *final(node_id) as int),
        ok ==> features_prefix(final(nodes)@, feature_nodes@),
        ok ==> *final(node_id) as int <= feat_base(feature_nodes@, *old(node_id) as int),
        feat_base(feature_nodes@, *old(node_id) as int) <= i64::MAX ==> ok,
{
    let nf = feature_nodes.len();
    let mut i: usize = 0;
    while i < nf
        invariant
            i <= nf,
            nf == feature_nodes@.len(),
            forall|a: int, b: int|
                0 <= a < b < feature_nodes@.len() ==> (#[trigger] feature_nodes@[a]).id < (
                #[trigger] feature_nodes@[b]).id,
            forall|t: int| 0 <= t < feature_nodes@.len() ==> (#[trigger] feature_nodes@[t]).tags.wf(),
            nodes@.len() == i,
            forall|a: int| 0 <= a < i ==> (#[trigger] nodes@[a]).id == feature_nodes@[a].id,
            forall|a: int|
                0 <= a < i ==> (#[trigger] nodes@[a]).lat7 == feature_nodes@[a].lat7
                    && nodes@[a].lon7 == feature_nodes@[a].lon7 && nodes@[a].tags@
                    == feature_nodes@[a].tags@,
            forall|a: int| 0 <= a < nodes@.len() ==> (#[trigger] nodes@[a]).tags.wf(),
            forall|a: int, b: int|
                0 <= a < b < nodes@.len() ==> (#[trigger] nodes@[a]).id < (
                #[trigger] nodes@[b]).id,
            forall|a: int| 0 <= a < nodes@.len() ==> (#[trigger] nodes@[a]).id < *node_id,
            *node_id >= *old(node_id),
            i == 0 ==> *node_id == *old(node_id),
            i > 0 ==> *node_id <= feature_nodes@[i - 1].id + 1 || *node_id == *old(node_id),
        decreases nf - i,
    {
        let f = &feature_nodes[i];
        nodes.push(PlanNode { id: f.id, lat7: f.lat7, lon7: f.lon7, tags: f.tags.duplicate() });
        if f.id >= *node_id {
            if f.id == i64::MAX {
                proof {
                    if feat_base(feature_nodes@, *old(node_id) as int) <= i64::MAX {
                        assert(feature_nodes@[i as int].id <= feature_nodes@.last().id);
                        assert(false);
                    }
                }
                return false;
            }
            *node_id = f.id + 1;
        }
        i = i + 1;
    }
    proof {
        reveal(emission_inv);
        reveal(features_prefix);
        assert forall|h: u64| #[trigger]
            Map::<u64, i64>::empty().dom().contains(h) implies false by {}
    }
    true
}

/// Lay out one plan way: the start junction ID, then per member its
/// interior IDs and its end junction ID, with consecutive duplicates
/// collapsed.
#[verifier::rlimit(100)]
fn pass3_way(
    segments: &Vec<Segment>,
    way: &Way,
    per_member: &Vec<Vec<i64>>,
    jmap: &IdMap,
    wid: i64,
) -> (pw: PlanWay)
    requires
        way_ok(*way, segments@),
        per_member@.len() == way.segment_indices@.len(),
        jmap.wf(),
        way_covered(*way, segments@, jmap@),
    ensures
        pw.id == wid,
        refs_ok(pw),
        way_endpoints_ok(pw, *way, segments@, jmap@),
        way_members_ok(pw, *way, segments@, jmap@),
        pw.tags.wf(),
        pw.tags@ == way.tags@,
{
    let wl = way.segment_indices.len();
    let first_seg = way.segment_indices[0];
    let sh = segments[first_seg].start_node;
    let start_id = match jmap.get(sh) {
        Option::Some(id) => id,
        Option::None => {
            proof {
                reveal(way_covered);
                assert(false);
            }
            0i64
        },
    };
    let mut refs: Vec<i64> = Vec::new();
    refs.push(start_id);
    let mut m: usize = 0;
    while m < wl
        invariant
            m <= wl,
            wl == way.segment_indices@.len(),
            per_member@.len() == wl,
            way_ok(*way, segments@),
            jmap.wf(),
            refs@.len() >= 1,
            refs@[0] == jmap@[segments@[way.segment_indices@[0] as int].start_node],
            m > 0 ==> refs@.last() == jmap@[segments@[way.segment_indices@[m
                - 1] as int].end_node] && jmap@.dom().contains(
                segments@[way.segment_indices@[m - 1] as int].end_node,
            ),
            forall|k: int|
                0 <= k < m ==> refs@.contains(
                    jmap@[segments@[(#[trigger] way.segment_indices@[k]) as int].end_node],
                ),
            way_covered(*way, segments@, jmap@),
        decreases wl - m,
    {
        let ids = &per_member[m];
        let idl = ids.len();
        let mut t: usize = 0;
        while t < idl
            invariant
                t <= idl,
                idl == ids@.len(),
                m < wl,
                wl == way.segment_indices@.len(),
                refs@.len() >= 1,
                refs@[0] == jmap@[segments@[way.segment_indices@[0] as int].start_node],
                forall|k: int|
                    0 <= k < m ==> refs@.contains(
                        jmap@[segments@[(#[trigger] way.segment_indices@[k]) as int].end_node],
                    ),
            decreases idl - t,
        {
            let ghost before = refs@;
            refs.push(ids[t]);
            proof {
                lemma_push_keeps(before, ids@[t as int]);
            }
            t = t + 1;
        }
        let seg_idx = way.segment_indices[m];
        let eh = segments[seg_idx].end_node;
        match jmap.get(eh) {
            Option::Some(id) => {
                let ghost before = refs@;
                refs.push(id);
                proof {
                    lemma_push_keeps(before, id);
                    if m + 1 == wl {
                        assert(way.segment_indices@[m as int]
                            == way.segment_indices@.last());
                    }
                }
            },
            Option::None => {
                proof {
                    reveal(way_covered);
                    assert(jmap@.dom().contains(
                        segments@[(way.segment_indices@[m as int]) as int].end_node,
                    ));
                    assert(false);
                }
            },
        }
        m = m + 1;
    }
    let deduped = dedup_refs(&refs);
    let pw = PlanWay { id: wid, node_refs: deduped, tags: way.tags.duplicate() };
    proof {
        reveal(way_covered);
        assert forall|k: int| 0 <= k < way.segment_indices@.len() implies jmap@.dom().contains(
            segments@[(#[trigger] way.segment_indices@[k]) as int].end_node,
        ) && pw.node_refs@.contains(
            jmap@[segments@[way.segment_indices@[k] as int].end_node],
        ) by {
            assert(refs@.contains(
                jmap@[segments@[way.segment_indices@[k] as int].end_node],
            ));
        }
    }
    pw
}

/// Assign stable node IDs and lay out the whole emission: feature nodes,
/// junction nodes at way endpoints and internal boundaries, interior
/// nodes (reusing junction IDs where an interior coordinate sits on a
/// junction), and finally the ways with consecutive duplicates collapsed.
/// `None` when the ID space runs out.
#[verifier::rlimit(100)]
pub fn build_pbf_plan(
    ways: &Vec<Way>,
    segments: &Vec<Segment>,
    feature_nodes: &Vec<NodeFeature>,
    node_id_start: i64,
    way_id_start: i64,
) -> (r: Option<PbfPlan>)
    requires
        forall|i: int| 0 <= i < segments@.len() ==> (#[trigger] segments@[i]).wf(),
        ways_wf(ways@, segments@),
        forall|a: int, b: int|
            0 <= a < b < feature_nodes@.len() ==> (#[trigger] feature_nodes@[a]).id < (
            #[trigger] feature_nodes@[b]).id,
        forall|i: int| 0 <= i < feature_nodes@.len() ==> (#[trigger] feature_nodes@[i]).tags.wf(),
    ensures
        r is Some ==> (r->0).junction_ids.wf(),
        r is Some ==> (r->0).ways@.len() == ways@.len(),
        r is Some ==> forall|w: int|
            0 <= w < (r->0).ways@.len() ==> (#[trigger] (r->0).ways@[w]).id == way_id_start + w,
        r is Some ==> forall|w: int|
            0 <= w < (r->0).ways@.len() ==> refs_ok(#[trigger] (r->0).ways@[w]),
        r is Some ==> forall|w: int|
            0 <= w < (r->0).ways@.len() ==> way_endpoints_ok(
                #[trigger] (r->0).ways@[w],
                ways@[w],
                segments@,
                (r->0).junction_ids@,
            ),
        r is Some ==> forall|h1: u64, h2: u64|
            (r->0).junction_ids@.dom().contains(h1) && (r->0).junction_ids@.dom().contains(h2)
                && h1 != h2 ==> (r->0).junction_ids@[h1] != (r->0).junction_ids@[h2],
        r is Some ==> forall|a: int, b: int|
            0 <= a < b < (r->0).nodes@.len() ==> (#[trigger] (r->0).nodes@[a]).id < (
            #[trigger] (r->0).nodes@[b]).id,
        r is Some ==> forall|h: u64| #[trigger]
            (r->0).junction_ids@.dom().contains(h) ==> exists|k: int|
                0 <= k < (r->0).nodes@.len() && (#[trigger] (r->0).nodes@[k]).id == (
                r->0).junction_ids@[h] && (r->0).nodes@[k].coord_hash() == h,
        r is Some ==> features_prefix((r->0).nodes@, feature_nodes@),
        r is Some ==> forall|w: int|
            0 <= w < (r->0).ways@.len() ==> way_members_ok(
                #[trigger] (r->0).ways@[w],
                ways@[w],
                segments@,
                (r->0).junction_ids@,
            ),
        r is Some ==> forall|w: int|
            0 <= w < (r->0).ways@.len() ==> (#[trigger] (r->0).ways@[w]).tags.wf() && (
            r->0).ways@[w].tags@ == ways@[w].tags@,
        r is Some ==> forall|k: int|
            0 <= k < (r->0).nodes@.len() ==> (#[trigger] (r->0).nodes@[k]).tags.wf(),
        plan_budget_ok(
            ways@,
            segments@,
            feature_nodes@,
            node_id_start as int,
            way_id_start as int,
        ) ==> r is Some,
{
    let mut nodes: Vec<PlanNode> = Vec::new();
    let mut node_id: i64 = node_id_start;
    let bbox = compute_bbox(segments, feature_nodes);
    // Pass 0: feature nodes, in creation order; the counter moves past them.
    if !pass0_features(feature_nodes, &mut nodes, &mut node_id) {
        proof {
            if plan_budget_ok(
                ways@,
                segments@,
                feature_nodes@,
                node_id_start as int,
                way_id_start as int,
            ) {
                lemma_members_total_mono(ways@, 0, ways@.len() as int);
                lemma_members_geom_mono(ways@, segments@, 0, ways@.len() as int);
                assert(false);
            }
        }
        return Option::None;
    }

    // Pass 1: junction nodes at way endpoints and internal boundaries.
    let ghost fb = feat_base(feature_nodes@, node_id_start as int);
    let mut jmap = IdMap::new();
    proof {
        reveal(emission_inv);
        reveal(features_prefix);
        assert(emission_inv(nodes@, jmap@, node_id as int));
        assert(features_prefix(nodes@, feature_nodes@));
        assert(node_id as int <= fb);
        if ways@.len() > 0 {
            lemma_sums_zero(ways@, segments@, ways@[0]);
        } else {
            reveal(members_total);
            reveal(members_geom_total);
        }
    }
    let ghost fsnap = feature_nodes@;
    let nw = ways.len();
    let mut w: usize = 0;
    while w < nw
        invariant
            w <= nw,
            nw == ways@.len(),
            forall|t: int| 0 <= t < segments@.len() ==> (#[trigger] segments@[t]).wf(),
            ways_wf(ways@, segments@),
            jmap.wf(),
            emission_inv(nodes@, jmap@, node_id as int),
            features_prefix(nodes@, fsnap),
            fsnap == feature_nodes@,
            fb == feat_base(feature_nodes@, node_id_start as int),
            node_id as int <= fb + members_total(ways@, w as int),
            forall|t: int| 0 <= t < w ==> way_covered(#[trigger] ways@[t], segments@, jmap@),
        decreases nw - w,
    {
        proof {
            assert(way_ok(ways@[w as int], segments@));
            lemma_members_total_mono(ways@, 0, w as int);
        }
        let ghost oldjm = jmap@;
        let ghost oldnodes = nodes@;
        let ghost oldid = node_id as int;
        if !pass1_way(segments, &ways[w], &mut nodes, &mut jmap, &mut node_id) {
            proof {
                if plan_budget_ok(
                    ways@,
                    segments@,
                    feature_nodes@,
                    node_id_start as int,
                    way_id_start as int,
                ) {
                    lemma_members_total_mono(ways@, w + 1, ways@.len() as int);
                    lemma_members_geom_mono(ways@, segments@, 0, ways@.len() as int);
                    lemma_members_total_step(ways@, w as int);
                    assert(false);
                }
            }
            return Option::None;
        }
        proof {
            lemma_features_prefix_grow(oldnodes, nodes@, fsnap);
            lemma_members_total_step(ways@, w as int);
            assert forall|t: int| 0 <= t < w + 1 implies way_covered(
                #[trigger] ways@[t],
                segments@,
                jmap@,
            ) by {
                if t < w {
                    lemma_way_covered_mono(ways@[t], segments@, oldjm, jmap@);
                }
            }
        }
        w = w + 1;
    }

    // Pass 2: interior nodes per way member, reusing junction IDs where an
    // interior coordinate sits on a junction.
    let ghost mtall = members_total(ways@, ways@.len() as int);
    proof {
        lemma_members_total_mono(ways@, ways@.len() as int, ways@.len() as int);
        if ways@.len() > 0 {
            lemma_sums_zero(ways@, segments@, ways@[0]);
        } else {
            reveal(members_geom_total);
        }
    }
    let mut interiors: Vec<Vec<Vec<i64>>> = Vec::new();
    let mut w: usize = 0;
    while w < nw
        invariant
            w <= nw,
            nw == ways@.len(),
            interiors@.len() == w,
            forall|t: int| 0 <= t < segments@.len() ==> (#[trigger] segments@[t]).wf(),
            ways_wf(ways@, segments@),
            jmap.wf(),
            emission_inv(nodes@, jmap@, node_id as int),
            features_prefix(nodes@, fsnap),
            fsnap == feature_nodes@,
            fb == feat_base(feature_nodes@, node_id_start as int),
            mtall == members_total(ways@, ways@.len() as int),
            node_id as int <= fb + mtall + members_geom_total(ways@, segments@, w as int),
            forall|t: int| 0 <= t < nw ==> way_covered(#[trigger] ways@[t], segments@, jmap@),
            forall|t: int|
                0 <= t < w ==> (#[trigger] interiors@[t])@.len()
                    == ways@[t].segment_indices@.len(),
        decreases nw - w,
    {
        proof {
            assert(way_ok(ways@[w as int], segments@));
            lemma_members_geom_mono(ways@, segments@, 0, w as int);
        }
        let way = &ways[w];
        let wl = way.segment_indices.len();
        proof {
            lemma_sums_zero(ways@, segments@, ways@[w as int]);
        }
        let mut per_member: Vec<Vec<i64>> = Vec::new();
        let mut m: usize = 0;
        while m < wl
            invariant
                m <= wl,
                wl == ways@[w as int].segment_indices@.len(),
                w < ways@.len(),
                nw == ways@.len(),
                way == &ways@[w as int],
                per_member@.len() == m,
                forall|t: int| 0 <= t < segments@.len() ==> (#[trigger] segments@[t]).wf(),
                ways_wf(ways@, segments@),
                way_ok(ways@[w as int], segments@),
                jmap.wf(),
                emission_inv(nodes@, jmap@, node_id as int),
                features_prefix(nodes@, fsnap),
                fsnap == feature_nodes@,
                fb == feat_base(feature_nodes@, node_id_start as int),
                mtall == members_total(ways@, ways@.len() as int),
                node_id as int <= fb + mtall + members_geom_total(ways@, segments@, w as int)
                    + way_geom_total(ways@[w as int], segments@, m as int),
            decreases wl - m,
        {
            proof {
                assert(way_ok(ways@[w as int], segments@));
                lemma_way_geom_mono(ways@[w as int], segments@, 0, m as int);
            }
            let seg_idx = way.segment_indices[m];
            let ghost oldnodes2 = nodes@;
            let ids = match pass2_member(segments, seg_idx, &mut nodes, &jmap, &mut node_id) {
                Option::Some(v) => v,
                Option::None => {
                    proof {
                        if plan_budget_ok(
                            ways@,
                            segments@,
                            feature_nodes@,
                            node_id_start as int,
                            way_id_start as int,
                        ) {
                            lemma_way_geom_mono(
                                ways@[w as int],
                                segments@,
                                m + 1,
                                ways@[w as int].segment_indices@.len() as int,
                            );
                            lemma_members_geom_mono(ways@, segments@, w + 1, ways@.len() as int);
                            lemma_members_total_mono(ways@, 0, ways@.len() as int);
                            lemma_way_geom_step(ways@[w as int], segments@, m as int);
                            lemma_members_geom_step(ways@, segments@, w as int);
                            assert(false);
                        }
                    }
                    return Option::None;
                },
            };
            proof {
                lemma_features_prefix_grow(oldnodes2, nodes@, fsnap);
                lemma_way_geom_step(ways@[w as int], segments@, m as int);
            }
            per_member.push(ids);
            m = m + 1;
        }
        proof {
            lemma_members_geom_step(ways@, segments@, w as int);
            lemma_way_geom_mono(
                ways@[w as int],
                segments@,
                ways@[w as int].segment_indices@.len() as int,
                ways@[w as int].segment_indices@.len() as int,
            );
        }
        interiors.push(per_member);
        w = w + 1;
    }

    // Pass 3: the ways, with consecutive duplicate IDs collapsed.
    if (nw as u128) > (i64::MAX as u128) || (nw as i128) > (i64::MAX as i128) - (
    way_id_start as i128) {
        return Option::None;
    }
    let mut plan_ways: Vec<PlanWay> = Vec::new();
    let mut w: usize = 0;
    while w < nw
        invariant
            w <= nw,
            nw == ways@.len(),
            interiors@.len() == nw,
            plan_ways@.len() == w,
            way_id_start + nw <= i64::MAX,
            (nw as int) <= i64::MAX,
            forall|t: int| 0 <= t < segments@.len() ==> (#[trigger] segments@[t]).wf(),
            ways_wf(ways@, segments@),
            jmap.wf(),
            emission_inv(nodes@, jmap@, node_id as int),
            forall|t: int| 0 <= t < nw ==> way_covered(#[trigger] ways@[t], segments@, jmap@),
            forall|t: int|
                0 <= t < w ==> (#[trigger] plan_ways@[t]).id == way_id_start + t,
            forall|t: int| 0 <= t < w ==> refs_ok(#[trigger] plan_ways@[t]),
            forall|t: int|
                0 <= t < w ==> way_endpoints_ok(
                    #[trigger] plan_ways@[t],
                    ways@[t],
                    segments@,
                    jmap@,
                ),
            forall|t: int|
                0 <= t < w ==> way_members_ok(
                    #[trigger] plan_ways@[t],
                    ways@[t],
                    segments@,
                    jmap@,
                ),
            forall|t: int|
                0 <= t < w ==> (#[trigger] plan_ways@[t]).tags.wf() && plan_ways@[t].tags@
                    == ways@[t].tags@,
            forall|t: int|
                0 <= t < nw ==> (#[trigger] interiors@[t])@.len()
                    == ways@[t].segment_indices@.len(),
        decreases nw - w,
    {
        proof {
            assert(way_ok(ways@[w as int], segments@));
        }
        let pw = pass3_way(segments, &ways[w], &interiors[w], &jmap, way_id_start + (w as i64));
        plan_ways.push(pw);
        w = w + 1;
    }
    let plan = PbfPlan { bbox, nodes, ways: plan_ways, junction_ids: jmap };
    proof {
        reveal(emission_inv);
        reveal(way_covered);
        assert(emission_inv(plan.nodes@, plan.junction_ids@, node_id as int));
        assert forall|h: u64| #[trigger] plan.junction_ids@.dom().contains(h) implies exists|
            k: int,
        |
            0 <= k < plan.nodes@.len() && (#[trigger] plan.nodes@[k]).id == plan.junction_ids@[h]
                && plan.nodes@[k].coord_hash() == h by {}
    }
    Option::Some(plan)
}

/// Emit one junction node for a hash, unless it has an ID already; false
/// when the ID space is exhausted.
#[verifier::rlimit(100)]
fn emit_junction(
    segments: &Vec<Segment>,
    nodes: &mut Vec<PlanNode>,
    jmap: &mut IdMap,
    node_id: &mut i64,
    h: u64,
    c: &Coord,
) -> (ok: bool)
    requires
        old(jmap).wf(),
        hash_of(*c) == h,
        emission_inv(old(nodes)@, old(jmap)@, *old(node_id) as int),
    ensures
        final(jmap).wf(),
        emission_inv(final(nodes)@, final(jmap)@, *final(node_id) as int),
        ok ==> final(jmap)@.dom().contains(h),
        forall|x: u64|
            old(jmap)@.dom().contains(x) ==> #[trigger] final(jmap)@.dom().contains(x)
                && final(jmap)@[x] == old(jmap)@[x],
        nodes_prefix(old(nodes)@, final(nodes)@),
        *old(node_id) <= *final(node_id),
        *final(node_id) <= *old(node_id) + 1,
        *old(node_id) < i64::MAX ==> ok,
{
    proof {
        reveal(emission_inv);
        lemma_nodes_prefix_refl(nodes@);
    }
    if jmap.contains_key(h) {
        return true;
    }
    if *node_id == i64::MAX {
        return false;
    }
    let id = *node_id;
    let ghost oldnodes = nodes@;
    nodes.push(PlanNode { id, lat7: c.lat7, lon7: c.lon7, tags: TagMap::new() });
    proof {
        lemma_nodes_prefix_push(oldnodes, nodes@.last());
        assert(nodes@ =~= oldnodes.push(nodes@.last()));
    }
    jmap.insert_new(h, id);
    *node_id = id + 1;
    proof {
        assert(nodes@.last().coord_hash() == h);
        assert forall|x: u64| #[trigger]
            jmap@.dom().contains(x) implies exists|k: int|
            0 <= k < nodes@.len() && (#[trigger] nodes@[k]).id == jmap@[x] && nodes@[k].coord_hash()
                == x by {
            if x == h {
                assert(nodes@[nodes@.len() - 1].id == jmap@[x] && nodes@[nodes@.len()
                    - 1].coord_hash() == x);
            } else {
                let k = choose|k: int|
                    0 <= k < oldnodes.len() && (#[trigger] oldnodes[k]).id == old(jmap)@[x]
                        && oldnodes[k].coord_hash() == x;
                assert(nodes@[k].id == jmap@[x] && nodes@[k].coord_hash() == x);
            }
        }
    }
    true
}

} // verus!
