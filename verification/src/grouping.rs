//! Grouping of segments ahead of merging: by route identity, by
//! reference/name/highway, or one group for everything.

use crate::mapper::p_str;
use crate::props::PropView;
use crate::segment::{Segment, SimplifyMethod};
use crate::strutil::str_eq;
use vstd::prelude::*;
use vstd::string::StringExecFns;

verus! {

/// The group key of a segment under a method: the route identity, the
/// reference (or the state-subsidy road number) with name and highway
/// class appended, or the empty key for no grouping.
pub open spec fn group_key(seg: Segment, method: SimplifyMethod) -> Seq<char> {
    match method {
        SimplifyMethod::Route => match p_str(seg.properties@, "ROUTE_ID"@) {
            Option::Some(s) => s,
            Option::None => Seq::empty(),
        },
        SimplifyMethod::Segment => Seq::empty(),
        _ => {
            let part1: Seq<char> = if seg.tags@.dom().contains("ref"@) {
                seg.tags@["ref"@]
            } else {
                match p_str(seg.properties@, "Driftbidrag statligt/V\u{e4}gnr"@) {
                    Option::Some(s) => s,
                    Option::None => Seq::empty(),
                }
            };
            let part2: Seq<char> = if seg.tags@.dom().contains("name"@) {
                seg.tags@["name"@]
            } else {
                Seq::empty()
            };
            let part3: Seq<char> = if seg.tags@.dom().contains("highway"@) {
                seg.tags@["highway"@]
            } else {
                Seq::empty()
            };
            part1 + part2 + part3
        },
    }
}

/// Compute the group key of a segment.
pub fn group_key_exec(seg: &Segment, method: SimplifyMethod) -> (r: String)
    requires
        seg.wf(),
    ensures
        r@ == group_key(*seg, method),
{
    match method {
        SimplifyMethod::Route => {
            match crate::mapper::get_p_str(&seg.properties, "ROUTE_ID") {
                Option::Some(s) => s,
                Option::None => {
                    let r = String::new();
                    proof {
                        assert(r@ =~= Seq::<char>::empty());
                    }
                    r
                },
            }
        },
        SimplifyMethod::Segment => {
            let r = String::new();
            proof {
                assert(r@ =~= Seq::<char>::empty());
            }
            r
        },
        _ => {
            let mut out = String::new();
            proof {
                assert(out@ =~= Seq::<char>::empty());
            }
            match seg.tags.get("ref") {
                Option::Some(v) => {
                    out.append(v.as_str());
                },
                Option::None => {
                    match crate::mapper::get_p_str(&seg.properties, "Driftbidrag statligt/V\u{e4}gnr") {
                        Option::Some(s) => {
                            out.append(s.as_str());
                        },
                        Option::None => {},
                    }
                },
            }
            match seg.tags.get("name") {
                Option::Some(v) => {
                    out.append(v.as_str());
                },
                Option::None => {},
            }
            match seg.tags.get("highway") {
                Option::Some(v) => {
                    out.append(v.as_str());
                },
                Option::None => {},
            }
            out
        },
    }
}

/// The groups of a network: keys in first-appearance order, each holding
/// the ascending indices of its segments.
pub struct GroupTable {
    keys: Vec<String>,
    vals: Vec<Vec<usize>>,
}

impl GroupTable {
    /// The group keys, in first-appearance order.
    pub closed spec fn key_seq(self) -> Seq<Seq<char>> {
        self.keys@.map_values(|k: String| k@)
    }

    /// The index lists, in the same order.
    pub closed spec fn val_seq(self) -> Seq<Seq<usize>> {
        self.vals@.map_values(|v: Vec<usize>| v@)
    }

    /// Keys are distinct and parallel to the index lists.
    pub open spec fn wf(self) -> bool {
        &&& self.key_seq().len() == self.val_seq().len()
        &&& forall|a: int, b: int|
            0 <= a < b < self.key_seq().len() ==> self.key_seq()[a] != self.key_seq()[b]
    }

    /// The number of groups.
    pub fn len(&self) -> (r: usize)
        ensures
            r == self.key_seq().len(),
    {
        self.keys.len()
    }

    /// The index list of one group.
    pub fn indices_at(&self, g: usize) -> (r: &Vec<usize>)
        requires
            g < self.val_seq().len(),
            self.key_seq().len() == self.val_seq().len(),
        ensures
            r@ == self.val_seq()[g as int],
    {
        &self.vals[g]
    }
}

/// Some group holds this index.
pub open spec fn covered_in(vals: Seq<Seq<usize>>, idx: int) -> bool {
    exists|g: int, j: int|
        0 <= g < vals.len() && 0 <= j < vals[g].len() && (#[trigger] vals[g][j]) == idx
}

/// Some group of a vector table holds this index.
pub open spec fn covered_vecs(vals: Seq<Vec<usize>>, idx: int) -> bool {
    exists|g: int, j: int|
        0 <= g < vals.len() && 0 <= j < vals[g]@.len() && (#[trigger] vals[g]@[j]) == idx
}

/// Every group member is a valid segment index whose key is the group's
/// key, members ascend within a group, and every index is in some group.
pub open spec fn groups_wf(gt: GroupTable, segs: Seq<Segment>, method: SimplifyMethod) -> bool {
    &&& gt.wf()
    &&& forall|g: int, j: int|
        0 <= g < gt.val_seq().len() && 0 <= j < gt.val_seq()[g].len() ==> (
        #[trigger] gt.val_seq()[g][j]) < segs.len() && group_key(segs[gt.val_seq()[g][j] as int], method)
            == gt.key_seq()[g]
    &&& forall|g: int, a: int, b: int|
        #![trigger gt.val_seq()[g][a], gt.val_seq()[g][b]]
        0 <= g < gt.val_seq().len() && 0 <= a < b < gt.val_seq()[g].len() ==> gt.val_seq()[g][a]
            < gt.val_seq()[g][b]
    &&& forall|idx: int| 0 <= idx < segs.len() ==> #[trigger] covered_in(gt.val_seq(), idx)
}

/// Group the segments of a network under a method.
pub fn group_segments(segments: &Vec<Segment>, method: SimplifyMethod) -> (r: GroupTable)
    requires
        forall|i: int| 0 <= i < segments@.len() ==> (#[trigger] segments@[i]).wf(),
    ensures
        groups_wf(r, segments@, method),
{
    let n = segments.len();
    let mut keys: Vec<String> = Vec::new();
    let mut vals: Vec<Vec<usize>> = Vec::new();
    let mut idx: usize = 0;
    while idx < n
        invariant
            idx <= n,
            n == segments@.len(),
            forall|i: int| 0 <= i < segments@.len() ==> (#[trigger] segments@[i]).wf(),
            keys@.len() == vals@.len(),
            forall|a: int, b: int|
                0 <= a < b < keys@.len() ==> (#[trigger] keys@[a])@ != (#[trigger] keys@[b])@,
            forall|g: int, j: int|
                0 <= g < vals@.len() && 0 <= j < vals@[g]@.len() ==> (#[trigger] vals@[g]@[j]) < idx
                    && group_key(segments@[vals@[g]@[j] as int], method) == keys@[g]@,
            forall|g: int, a: int, b: int|
                #![trigger vals@[g]@[a], vals@[g]@[b]]
                0 <= g < vals@.len() && 0 <= a < b < vals@[g]@.len() ==> vals@[g]@[a]
                    < vals@[g]@[b],
            forall|t: int| 0 <= t < idx ==> #[trigger] covered_vecs(vals@, t),
        decreases n - idx,
    {
        let key = group_key_exec(&segments[idx], method);
        let m = keys.len();
        let mut g: usize = 0;
        let mut found: bool = false;
        while g < m && !found
            invariant
                g <= m,
                m == keys@.len(),
                !found ==> forall|t: int| 0 <= t < g ==> (#[trigger] keys@[t])@ != key@,
                found ==> g < m && keys@[g as int]@ == key@,
            decreases
                    m - g,
                    (if found {
                        0int
                    } else {
                        1int
                    }),
        {
            if str_eq(keys[g].as_str(), key.as_str()) {
                found = true;
            } else {
                g = g + 1;
            }
        }
        if found {
            let ghost oldvals = vals@;
            let mut inner = vals.remove(g);
            inner.push(idx);
            vals.insert(g, inner);
            proof {
                assert(vals@ =~= oldvals.update(g as int, inner));
                assert(vals@[g as int]@ =~= oldvals[g as int]@.push(idx));
                assert forall|t: int| 0 <= t < idx + 1 implies #[trigger] covered_vecs(vals@, t) by {
                    if t < idx {
                        assert(covered_vecs(oldvals, t));
                        let (gg, j): (int, int) = choose|gg: int, j: int|
                            0 <= gg < oldvals.len() && 0 <= j < oldvals[gg]@.len() && (
                            #[trigger] oldvals[gg]@[j]) == t;
                        assert(vals@[gg]@[j] == t);
                    } else {
                        assert(vals@[g as int]@[oldvals[g as int]@.len() as int] == idx);
                    }
                }
            }
        } else {
            let ghost oldvals = vals@;
            keys.push(key);
            let mut inner: Vec<usize> = Vec::new();
            inner.push(idx);
            vals.push(inner);
            proof {
                assert(vals@.len() == oldvals.len() + 1);
                assert forall|t: int| 0 <= t < idx + 1 implies #[trigger] covered_vecs(vals@, t) by {
                    if t < idx {
                        assert(covered_vecs(oldvals, t));
                        let (gg, j): (int, int) = choose|gg: int, j: int|
                            0 <= gg < oldvals.len() && 0 <= j < oldvals[gg]@.len() && (
                            #[trigger] oldvals[gg]@[j]) == t;
                        assert(vals@[gg]@[j] == t);
                    } else {
                        assert(vals@[oldvals.len() as int]@[0] == idx);
                    }
                }
            }
        }
        idx = idx + 1;
    }
    let r = GroupTable { keys, vals };
    proof {
        assert(r.key_seq().len() == r.val_seq().len());
        assert forall|a: int, b: int|
            0 <= a < b < r.key_seq().len() implies r.key_seq()[a] != r.key_seq()[b] by {
            assert(keys@[a]@ != keys@[b]@);
        }
        assert forall|t: int| 0 <= t < segments@.len() implies #[trigger] covered_in(
            r.val_seq(),
            t,
        ) by {
            assert(covered_vecs(r.vals@, t));
            let (gg, j): (int, int) = choose|gg: int, j: int|
                0 <= gg < r.vals@.len() && 0 <= j < r.vals@[gg]@.len() && (
                #[trigger] r.vals@[gg]@[j]) == t;
            assert(r.val_seq()[gg][j] == t);
        }
    }
    r
}

} // verus!
