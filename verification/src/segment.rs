//! The segment model and its companions: ways, bridges, point features,
//! junctions, and the simplification method selector.

use crate::coord::{hash_coord, hash_of, Coord};
use crate::geometry::{geometry_length, length_of};
use crate::maps::TagMap;
use crate::props::PropMap;
use crate::strutil::{eq_ignore_case, lower_of};
use vstd::prelude::*;
use vstd::string::StrSliceExecFns;

verus! {

/// The direction state a segment is left in once oneway mapping has run:
/// open both ways, one way along the stored geometry, or one way along a
/// geometry that has been reversed in place.
#[derive(Clone, Copy, PartialEq, Eq, Structural, Debug)]
pub enum OnewayDirection {
    TwoWay,
    Forward,
    Backward,
}

/// A road segment: canonical geometry, endpoint hashes, attributes, OSM
/// tags, and emission state.
pub struct Segment {
    pub geometry: Vec<Coord>,
    pub start_node: u64,
    pub end_node: u64,
    pub shape_length: u64,
    pub properties: PropMap,
    pub tags: TagMap,
    pub oneway_direction: OnewayDirection,
    pub internal_node_ids: Vec<i64>,
}

impl Segment {
    /// The geometry has at least two canonical points and the endpoint
    /// hashes match it.
    pub open spec fn geom_wf(self) -> bool {
        &&& self.geometry@.len() >= 2
        &&& forall|i: int| 0 <= i < self.geometry@.len() ==> (#[trigger] self.geometry@[i]).wf()
        &&& self.start_node as int == hash_of(self.geometry@[0])
        &&& self.end_node as int == hash_of(self.geometry@.last())
    }

    /// The whole record is well formed.
    pub open spec fn wf(self) -> bool {
        &&& self.geom_wf()
        &&& self.properties.wf()
        &&& self.tags.wf()
    }

    /// Build a segment over a canonical geometry: endpoint hashes and the
    /// capped polyline length are computed, everything else starts empty.
    pub fn new(_id: String, geometry: Vec<Coord>) -> (r: Segment)
        requires
            geometry@.len() >= 2,
            forall|i: int| 0 <= i < geometry@.len() ==> (#[trigger] geometry@[i]).wf(),
        ensures
            r.wf(),
            r.geometry@ == geometry@,
            r.start_node as int == hash_of(geometry@[0]),
            r.end_node as int == hash_of(geometry@.last()),
            r.shape_length as int == if length_of(geometry@) > u64::MAX {
                u64::MAX as int
            } else {
                length_of(geometry@)
            },
            r.properties@ == Map::<Seq<char>, crate::props::PropView>::empty(),
            r.tags@ == Map::<Seq<char>, Seq<char>>::empty(),
            r.tags.key_seq() == Seq::<Seq<char>>::empty(),
            r.oneway_direction == OnewayDirection::TwoWay,
            r.internal_node_ids@ == Seq::<i64>::empty(),
    {
        let shape_length = geometry_length(&geometry);
        let start_node = hash_coord(&geometry[0]);
        let end_node = hash_coord(&geometry[geometry.len() - 1]);
        Segment {
            start_node,
            end_node,
            geometry,
            tags: TagMap::new(),
            properties: PropMap::new(),
            shape_length,
            internal_node_ids: Vec::new(),
            oneway_direction: OnewayDirection::TwoWay,
        }
    }

    /// The first coordinate.
    pub fn start_coord(&self) -> (r: &Coord)
        requires
            self.geometry@.len() >= 1,
        ensures
            *r == self.geometry@[0],
    {
        &self.geometry[0]
    }

    /// The last coordinate.
    pub fn end_coord(&self) -> (r: &Coord)
        requires
            self.geometry@.len() >= 1,
        ensures
            *r == self.geometry@.last(),
    {
        &self.geometry[self.geometry.len() - 1]
    }

    /// The coordinates strictly between the endpoints.
    pub fn internal_coords(&self) -> (r: Vec<Coord>)
        requires
            self.geometry@.len() >= 2,
        ensures
            r@ == self.geometry@.subrange(1, self.geometry@.len() - 1),
    {
        let mut out: Vec<Coord> = Vec::new();
        let n = self.geometry.len();
        let mut i: usize = 1;
        while i + 1 < n
            invariant
                1 <= i < n,
                n == self.geometry@.len(),
                out@ =~= self.geometry@.subrange(1, i as int),
            decreases n - i,
        {
            out.push(self.geometry[i]);
            proof {
                assert(out@ =~= self.geometry@.subrange(1, i + 1));
            }
            i = i + 1;
        }
        out
    }

    /// Reverse the stored geometry in place and refresh the endpoint
    /// hashes.
    pub fn reverse_geometry(&mut self)
        requires
            old(self).geom_wf(),
        ensures
            final(self).geometry@ == old(self).geometry@.reverse(),
            final(self).geom_wf(),
            final(self).properties == old(self).properties,
            final(self).tags == old(self).tags,
            final(self).oneway_direction == old(self).oneway_direction,
            final(self).shape_length == old(self).shape_length,
            final(self).internal_node_ids == old(self).internal_node_ids,
    {
        let n = self.geometry.len();
        let mut rev: Vec<Coord> = Vec::new();
        let mut i: usize = 0;
        while i < n
            invariant
                i <= n,
                n == old(self).geometry@.len(),
                self.geometry@ == old(self).geometry@,
                rev@.len() == i,
                forall|k: int| 0 <= k < i ==> rev@[k] == old(self).geometry@[n - 1 - k],
            decreases n - i,
        {
            rev.push(self.geometry[n - 1 - i]);
            i = i + 1;
        }
        proof {
            assert(rev@ =~= old(self).geometry@.reverse());
        }
        self.geometry = rev;
        let s = hash_coord(&self.geometry[0]);
        let e = hash_coord(&self.geometry[self.geometry.len() - 1]);
        self.start_node = s;
        self.end_node = e;
    }

    /// Replace the geometry and refresh the endpoint hashes; the recorded
    /// length is left as it was, as the simplification step keeps it.
    pub fn set_geometry(&mut self, geometry: Vec<Coord>)
        requires
            old(self).wf(),
            geometry@.len() >= 2,
            forall|i: int| 0 <= i < geometry@.len() ==> (#[trigger] geometry@[i]).wf(),
        ensures
            final(self).geometry@ == geometry@,
            final(self).geom_wf(),
            final(self).wf(),
            final(self).properties == old(self).properties,
            final(self).tags == old(self).tags,
            final(self).oneway_direction == old(self).oneway_direction,
            final(self).shape_length == old(self).shape_length,
            final(self).internal_node_ids == old(self).internal_node_ids,
    {
        self.geometry = geometry;
        let s = hash_coord(&self.geometry[0]);
        let e = hash_coord(&self.geometry[self.geometry.len() - 1]);
        self.start_node = s;
        self.end_node = e;
    }
}

/// A junction record: the segments incident at one coordinate hash.
pub struct Junction {
    pub segment_indices: Vec<usize>,
}

/// A merged way: ordered segment indices and the shared tag map.
pub struct Way {
    pub segment_indices: Vec<usize>,
    pub tags: TagMap,
}

impl Way {
    /// The way points into the segment list and its segments are chained
    /// end to start.
    pub open spec fn chained(self, segments: Seq<Segment>) -> bool {
        &&& self.segment_indices@.len() >= 1
        &&& forall|i: int|
            0 <= i < self.segment_indices@.len() ==> (#[trigger] self.segment_indices@[i]) < segments.len()
        &&& forall|i: int|
            0 <= i < self.segment_indices@.len() - 1 ==> segments[(
            #[trigger] self.segment_indices@[i]) as int].end_node == segments[self.segment_indices@[
                i + 1] as int].start_node
    }
}

/// A bridge group aggregated over the segments sharing a bridge identity.
pub struct Bridge {
    pub car_count: i32,
    pub cycle_count: i32,
    pub length: u64,
    pub layer: String,
    pub tag: String,
}

/// An independent OSM point feature.
pub struct NodeFeature {
    pub id: i64,
    pub lat7: i64,
    pub lon7: i64,
    pub tags: TagMap,
}

impl NodeFeature {
    /// A feature at a canonical position with no tags yet.
    pub fn new(id: i64, lat7: i64, lon7: i64) -> (r: NodeFeature)
        ensures
            r.id == id,
            r.lat7 == lat7,
            r.lon7 == lon7,
            r.tags.wf(),
            r.tags@ == Map::<Seq<char>, Seq<char>>::empty(),
    {
        NodeFeature { id, lat7, lon7, tags: TagMap::new() }
    }

    /// Add a tag, unless its value is empty.
    pub fn add_tag(&mut self, key: &str, value: &str)
        requires
            old(self).tags.wf(),
        ensures
            final(self).tags.wf(),
            value@.len() == 0 ==> final(self).tags@ == old(self).tags@,
            value@.len() > 0 ==> final(self).tags@ == old(self).tags@.insert(key@, value@),
            final(self).id == old(self).id,
            final(self).lat7 == old(self).lat7,
            final(self).lon7 == old(self).lon7,
    {
        if value.unicode_len() > 0 {
            let v = value.to_owned();
            self.tags.insert(key, v);
        }
    }
}

/// How segments are grouped and merged into ways.
#[derive(Clone, Copy, PartialEq, Eq, Structural, Debug)]
pub enum SimplifyMethod {
    Recursive,
    Route,
    Refname,
    Linear,
    Segment,
}

/// The method a selector string names, compared case-insensitively;
/// anything unknown falls back to grouping by reference and name.
pub open spec fn method_of(s: Seq<char>) -> SimplifyMethod {
    if lower_of(s) == lower_of("recursive"@) {
        SimplifyMethod::Recursive
    } else if lower_of(s) == lower_of("route"@) {
        SimplifyMethod::Route
    } else if lower_of(s) == lower_of("refname"@) {
        SimplifyMethod::Refname
    } else if lower_of(s) == lower_of("linear"@) {
        SimplifyMethod::Linear
    } else if lower_of(s) == lower_of("segment"@) {
        SimplifyMethod::Segment
    } else {
        SimplifyMethod::Refname
    }
}

impl SimplifyMethod {
    /// Parse a method selector.
    pub fn from_name(s: &str) -> (r: SimplifyMethod)
        ensures
            r == method_of(s@),
    {
        if eq_ignore_case(s, "recursive") {
            SimplifyMethod::Recursive
        } else if eq_ignore_case(s, "route") {
            SimplifyMethod::Route
        } else if eq_ignore_case(s, "refname") {
            SimplifyMethod::Refname
        } else if eq_ignore_case(s, "linear") {
            SimplifyMethod::Linear
        } else if eq_ignore_case(s, "segment") {
            SimplifyMethod::Segment
        } else {
            SimplifyMethod::Refname
        }
    }
}

} // verus!
