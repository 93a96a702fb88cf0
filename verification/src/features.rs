//! Point features read off segment attributes: crossings, railway
//! crossings, traffic calming, barriers, speed cameras, rest areas and
//! parking pockets. Each feature becomes an independent OSM node at the
//! segment's first coordinate, with IDs assigned in order.

use crate::maps::TagMap;
use crate::mapper::{p_i64, p_i64_or, p_str, p_truthy};
use crate::props::{PropMap, PropView};
use crate::segment::{NodeFeature, Segment};
use crate::strutil::{dec_str_i, i64_to_string, tenths_str, tenths_to_string, trim, trim_of};
use vstd::prelude::*;
use vstd::string::StrSliceExecFns;

verus! {

/// The pedestrian or cycle crossing tags of a segment, if any.
pub open spec fn crossing_tags(props: Map<Seq<char>, PropView>) -> Option<
    Map<Seq<char>, Seq<char>>,
> {
    let p = p_i64(props, "Passa_85"@);
    if p == Option::Some(3int) || p == Option::Some(5int) {
        Option::Some(Map::empty().insert("highway"@, "crossing"@))
    } else if p == Option::Some(4int) {
        Option::Some(
            Map::empty().insert("highway"@, "crossing"@).insert("crossing"@, "traffic_signals"@),
        )
    } else {
        Option::None
    }
}

/// The railway crossing tags of a segment, if any: the protection code
/// adds barrier, bell, light, saltire or uncontrolled detail.
pub open spec fn railway_tags(props: Map<Seq<char>, PropView>) -> Option<
    Map<Seq<char>, Seq<char>>,
> {
    match p_i64(props, "Vagsk_100"@) {
        Option::Some(skydd) => {
            let base: Map<Seq<char>, Seq<char>> = if p_i64_or(props, "Vagtr_474"@, 0) == 1 {
                Map::empty().insert("railway"@, "level_crossing"@)
            } else {
                Map::empty().insert("railway"@, "crossing"@)
            };
            let t = if skydd == 1 {
                base.insert("crossing:barrier"@, "full"@)
            } else if skydd == 2 {
                base.insert("crossing:barrier"@, "half"@)
            } else if skydd == 3 {
                base.insert("crossing:bell"@, "yes"@).insert("crossing:light"@, "yes"@)
            } else if skydd == 4 {
                base.insert("crossing:light"@, "yes"@)
            } else if skydd == 5 {
                base.insert("crossing:bell"@, "yes"@)
            } else if skydd == 6 {
                base.insert("crossing:saltire"@, "yes"@)
            } else if skydd == 7 {
                base.insert("crossing"@, "uncontrolled"@)
            } else {
                base
            };
            Option::Some(t)
        },
        Option::None => Option::None,
    }
}

/// The traffic calming value of a calming type code.
pub open spec fn calming_value(t: int) -> Option<Seq<char>> {
    if t == 1 {
        Option::Some("choker"@)
    } else if t == 2 {
        Option::Some("hump"@)
    } else if t == 3 {
        Option::Some("chicane"@)
    } else if t == 4 {
        Option::Some("island"@)
    } else if t == 5 {
        Option::Some("dip"@)
    } else if t == 6 {
        Option::Some("cushion"@)
    } else if t == 7 || t == 8 {
        Option::Some("table"@)
    } else if t == 9 {
        Option::Some("yes"@)
    } else {
        Option::None
    }
}

/// The traffic calming tags of a segment, if any.
pub open spec fn calming_tags(props: Map<Seq<char>, PropView>) -> Option<
    Map<Seq<char>, Seq<char>>,
> {
    match p_i64(props, "TypAv_82"@) {
        Option::Some(t) => match calming_value(t) {
            Option::Some(v) => Option::Some(Map::empty().insert("traffic_calming"@, v)),
            Option::None => Option::None,
        },
        Option::None => Option::None,
    }
}

/// The barrier value of a barrier type code.
pub open spec fn barrier_value(t: int) -> Option<Seq<char>> {
    if t == 1 {
        Option::Some("bollard"@)
    } else if t == 2 {
        Option::Some("swing_gate"@)
    } else if t == 3 {
        Option::Some("cycle_barrier"@)
    } else if t == 4 {
        Option::Some("lift_gate"@)
    } else if t == 5 {
        Option::Some("jersey_barrier"@)
    } else if t == 6 {
        Option::Some("bus_trap"@)
    } else if t == 99 {
        Option::Some("yes"@)
    } else {
        Option::None
    }
}

/// The barrier tags of a segment, if any, with the physical passage width.
pub open spec fn barrier_tags(props: Map<Seq<char>, PropView>) -> Option<
    Map<Seq<char>, Seq<char>>,
> {
    match p_i64(props, "Hinde_72"@) {
        Option::Some(t) => match barrier_value(t) {
            Option::Some(v) => {
                let base = Map::<Seq<char>, Seq<char>>::empty().insert("barrier"@, v);
                match crate::mapper::p_tenths(props, "Passe_73"@) {
                    Option::Some(w) => if w > 0 {
                        Option::Some(base.insert("maxwidth:physical"@, tenths_str(w, true)))
                    } else {
                        Option::Some(base)
                    },
                    Option::None => Option::Some(base),
                }
            },
            Option::None => Option::None,
        },
        Option::None => Option::None,
    }
}

/// Is the camera attribute truthy, taking the first of the two spellings
/// that is present?
pub open spec fn atk_truthy(props: Map<Seq<char>, PropView>, k1: Seq<char>, k2: Seq<char>) -> bool {
    if props.dom().contains(k1) {
        p_truthy(props, k1)
    } else {
        p_truthy(props, k2)
    }
}

/// The speed camera tags of a segment, if any; the posted speed comes from
/// the triggering direction.
pub open spec fn camera_tags(props: Map<Seq<char>, PropView>) -> Option<
    Map<Seq<char>, Seq<char>>,
> {
    let f = atk_truthy(props, "F_ATK_Matplats"@, "F_ATK_Matplats_117"@);
    let b = atk_truthy(props, "B_ATK_Matplats"@, "B_ATK_Matplats_117"@);
    if f || b {
        let base = Map::<Seq<char>, Seq<char>>::empty().insert("highway"@, "speed_camera"@);
        let key: Seq<char> = if f {
            "F_Hogst_225"@
        } else {
            "B_Hogst_225"@
        };
        match p_i64(props, key) {
            Option::Some(v) => if 0 < v <= 120 {
                Option::Some(base.insert("maxspeed"@, dec_str_i(v)))
            } else {
                Option::Some(base)
            },
            Option::None => Option::Some(base),
        }
    } else {
        Option::None
    }
}

/// The rest area tags of a segment, if any: optional name and capacities.
pub open spec fn rest_area_tags(props: Map<Seq<char>, PropView>) -> Option<
    Map<Seq<char>, Seq<char>>,
> {
    if p_truthy(props, "Rastplats"@) {
        let base = Map::<Seq<char>, Seq<char>>::empty().insert("highway"@, "rest_area"@);
        let t1 = match p_str(props, "Rastp_118"@) {
            Option::Some(s) => {
                let t = trim_of(s);
                if t.len() > 0 && t != "NA"@ {
                    base.insert("name"@, t)
                } else {
                    base
                }
            },
            Option::None => base,
        };
        let t2 = match p_i64(props, "Antal_119"@) {
            Option::Some(c) => if c > 0 {
                t1.insert("capacity"@, dec_str_i(c))
            } else {
                t1
            },
            Option::None => t1,
        };
        let t3 = match p_i64(props, "Antal_122"@) {
            Option::Some(c) => if c > 0 {
                t2.insert("capacity:hgv"@, dec_str_i(c))
            } else {
                t2
            },
            Option::None => t2,
        };
        Option::Some(t3)
    } else {
        Option::None
    }
}

/// The parking pocket tags of a segment, if any, side-aware.
pub open spec fn parking_tags(props: Map<Seq<char>, PropView>) -> Option<
    Map<Seq<char>, Seq<char>>,
> {
    let l = p_truthy(props, "L_Rastficka_2"@);
    let r = p_truthy(props, "R_Rastficka_2"@);
    if l || r {
        let base = Map::<Seq<char>, Seq<char>>::empty().insert("amenity"@, "parking"@);
        if l && !r {
            Option::Some(base.insert("parking:lane:left"@, "yes"@))
        } else if r && !l {
            Option::Some(base.insert("parking:lane:right"@, "yes"@))
        } else {
            Option::Some(base)
        }
    } else {
        Option::None
    }
}

/// One optional tag set as a sequence.
pub open spec fn opt_seq(o: Option<Map<Seq<char>, Seq<char>>>) -> Seq<Map<Seq<char>, Seq<char>>> {
    match o {
        Option::Some(t) => seq![t],
        Option::None => Seq::empty(),
    }
}

/// The tag sets of all features a segment produces, in order.
pub open spec fn feature_tag_list(props: Map<Seq<char>, PropView>) -> Seq<
    Map<Seq<char>, Seq<char>>,
> {
    opt_seq(crossing_tags(props)) + opt_seq(railway_tags(props)) + opt_seq(calming_tags(props))
        + opt_seq(barrier_tags(props)) + opt_seq(camera_tags(props)) + opt_seq(
        rest_area_tags(props),
    ) + opt_seq(parking_tags(props))
}



/// Build the crossing tags.
fn crossing_exec(props: &PropMap) -> (r: Option<TagMap>)
    requires
        props.wf(),
    ensures
        match r {
            Option::Some(t) => t.wf() && crossing_tags(props@) == Option::Some(t@),
            Option::None => crossing_tags(props@) is None,
        },
{
    let p = crate::mapper::get_p_i64(props, "Passa_85");
    if p == Option::Some(3i64) || p == Option::Some(5i64) {
        let mut t = TagMap::new();
        t.insert("highway", String::from_str("crossing"));
        Option::Some(t)
    } else if p == Option::Some(4i64) {
        let mut t = TagMap::new();
        t.insert("highway", String::from_str("crossing"));
        t.insert("crossing", String::from_str("traffic_signals"));
        Option::Some(t)
    } else {
        Option::None
    }
}

/// Build the railway crossing tags.
fn railway_exec(props: &PropMap) -> (r: Option<TagMap>)
    requires
        props.wf(),
    ensures
        match r {
            Option::Some(t) => t.wf() && railway_tags(props@) == Option::Some(t@),
            Option::None => railway_tags(props@) is None,
        },
{
    match crate::mapper::get_p_i64(props, "Vagsk_100") {
        Option::Some(skydd) => {
            let mut t = TagMap::new();
            if crate::mapper::get_p_i64_or(props, "Vagtr_474", 0) == 1 {
                t.insert("railway", String::from_str("level_crossing"));
            } else {
                t.insert("railway", String::from_str("crossing"));
            }
            if skydd == 1 {
                t.insert("crossing:barrier", String::from_str("full"));
            } else if skydd == 2 {
                t.insert("crossing:barrier", String::from_str("half"));
            } else if skydd == 3 {
                t.insert("crossing:bell", String::from_str("yes"));
                t.insert("crossing:light", String::from_str("yes"));
            } else if skydd == 4 {
                t.insert("crossing:light", String::from_str("yes"));
            } else if skydd == 5 {
                t.insert("crossing:bell", String::from_str("yes"));
            } else if skydd == 6 {
                t.insert("crossing:saltire", String::from_str("yes"));
            } else if skydd == 7 {
                t.insert("crossing", String::from_str("uncontrolled"));
            }
            Option::Some(t)
        },
        Option::None => Option::None,
    }
}

/// Build the traffic calming tags.
fn calming_exec(props: &PropMap) -> (r: Option<TagMap>)
    requires
        props.wf(),
    ensures
        match r {
            Option::Some(t) => t.wf() && calming_tags(props@) == Option::Some(t@),
            Option::None => calming_tags(props@) is None,
        },
{
    match crate::mapper::get_p_i64(props, "TypAv_82") {
        Option::Some(c) => {
            let v: Option<&'static str> = if c == 1 {
                Option::Some("choker")
            } else if c == 2 {
                Option::Some("hump")
            } else if c == 3 {
                Option::Some("chicane")
            } else if c == 4 {
                Option::Some("island")
            } else if c == 5 {
                Option::Some("dip")
            } else if c == 6 {
                Option::Some("cushion")
            } else if c == 7 || c == 8 {
                Option::Some("table")
            } else if c == 9 {
                Option::Some("yes")
            } else {
                Option::None
            };
            match v {
                Option::Some(val) => {
                    let mut t = TagMap::new();
                    t.insert("traffic_calming", String::from_str(val));
                    proof {
                        assert(calming_value(c as int) == Option::Some(val@));
                    }
                    Option::Some(t)
                },
                Option::None => Option::None,
            }
        },
        Option::None => Option::None,
    }
}

/// Build the barrier tags.
fn barrier_exec(props: &PropMap) -> (r: Option<TagMap>)
    requires
        props.wf(),
    ensures
        match r {
            Option::Some(t) => t.wf() && barrier_tags(props@) == Option::Some(t@),
            Option::None => barrier_tags(props@) is None,
        },
{
    match crate::mapper::get_p_i64(props, "Hinde_72") {
        Option::Some(c) => {
            let v: Option<&'static str> = if c == 1 {
                Option::Some("bollard")
            } else if c == 2 {
                Option::Some("swing_gate")
            } else if c == 3 {
                Option::Some("cycle_barrier")
            } else if c == 4 {
                Option::Some("lift_gate")
            } else if c == 5 {
                Option::Some("jersey_barrier")
            } else if c == 6 {
                Option::Some("bus_trap")
            } else if c == 99 {
                Option::Some("yes")
            } else {
                Option::None
            };
            match v {
                Option::Some(val) => {
                    let mut t = TagMap::new();
                    t.insert("barrier", String::from_str(val));
                    proof {
                        assert(barrier_value(c as int) == Option::Some(val@));
                    }
                    match crate::mapper::get_p_tenths(props, "Passe_73") {
                        Option::Some(w) => {
                            if w > 0 {
                                t.insert("maxwidth:physical", tenths_to_string(w, true));
                            }
                        },
                        Option::None => {},
                    }
                    Option::Some(t)
                },
                Option::None => Option::None,
            }
        },
        Option::None => Option::None,
    }
}

/// Is the camera attribute truthy under either spelling?
fn atk_exec(props: &PropMap, k1: &str, k2: &str) -> (r: bool)
    requires
        props.wf(),
    ensures
        r == atk_truthy(props@, k1@, k2@),
{
    match props.get(k1) {
        Option::Some(_) => crate::mapper::get_p_truthy(props, k1),
        Option::None => crate::mapper::get_p_truthy(props, k2),
    }
}

/// Build the speed camera tags.
fn camera_exec(props: &PropMap) -> (r: Option<TagMap>)
    requires
        props.wf(),
    ensures
        match r {
            Option::Some(t) => t.wf() && camera_tags(props@) == Option::Some(t@),
            Option::None => camera_tags(props@) is None,
        },
{
    let f = atk_exec(props, "F_ATK_Matplats", "F_ATK_Matplats_117");
    let b = atk_exec(props, "B_ATK_Matplats", "B_ATK_Matplats_117");
    if f || b {
        let mut t = TagMap::new();
        t.insert("highway", String::from_str("speed_camera"));
        let key: &str = if f {
            "F_Hogst_225"
        } else {
            "B_Hogst_225"
        };
        match crate::mapper::get_p_i64(props, key) {
            Option::Some(v) => {
                if 0 < v && v <= 120 {
                    t.insert("maxspeed", i64_to_string(v));
                }
            },
            Option::None => {},
        }
        Option::Some(t)
    } else {
        Option::None
    }
}

/// Build the rest area tags.
fn rest_area_exec(props: &PropMap) -> (r: Option<TagMap>)
    requires
        props.wf(),
    ensures
        match r {
            Option::Some(t) => t.wf() && rest_area_tags(props@) == Option::Some(t@),
            Option::None => rest_area_tags(props@) is None,
        },
{
    if crate::mapper::get_p_truthy(props, "Rastplats") {
        let mut t = TagMap::new();
        t.insert("highway", String::from_str("rest_area"));
        match crate::mapper::get_p_str(props, "Rastp_118") {
            Option::Some(s) => {
                let tr = trim(s.as_str());
                if tr.as_str().unicode_len() > 0 && !crate::strutil::str_eq(tr.as_str(), "NA") {
                    t.insert("name", tr);
                }
            },
            Option::None => {},
        }
        match crate::mapper::get_p_i64(props, "Antal_119") {
            Option::Some(c) => {
                if c > 0 {
                    t.insert("capacity", i64_to_string(c));
                }
            },
            Option::None => {},
        }
        match crate::mapper::get_p_i64(props, "Antal_122") {
            Option::Some(c) => {
                if c > 0 {
                    t.insert("capacity:hgv", i64_to_string(c));
                }
            },
            Option::None => {},
        }
        Option::Some(t)
    } else {
        Option::None
    }
}

/// Build the parking pocket tags.
fn parking_exec(props: &PropMap) -> (r: Option<TagMap>)
    requires
        props.wf(),
    ensures
        match r {
            Option::Some(t) => t.wf() && parking_tags(props@) == Option::Some(t@),
            Option::None => parking_tags(props@) is None,
        },
{
    let l = crate::mapper::get_p_truthy(props, "L_Rastficka_2");
    let r2 = crate::mapper::get_p_truthy(props, "R_Rastficka_2");
    if l || r2 {
        let mut t = TagMap::new();
        t.insert("amenity", String::from_str("parking"));
        if l && !r2 {
            t.insert("parking:lane:left", String::from_str("yes"));
        } else if r2 && !l {
            t.insert("parking:lane:right", String::from_str("yes"));
        }
        Option::Some(t)
    } else {
        Option::None
    }
}

/// Generate the point features of one segment; IDs are assigned from
/// `next_id` upward and the next free ID is returned.
#[verifier::rlimit(100)]
pub fn generate_nodes_for_segment(segment: &Segment, next_id: i64) -> (r: (Vec<NodeFeature>, i64))
    requires
        segment.wf(),
        next_id <= i64::MAX - 8,
    ensures
        r.0@.len() == feature_tag_list(segment.properties@).len(),
        r.1 == next_id + feature_tag_list(segment.properties@).len(),
        forall|k: int|
            0 <= k < r.0@.len() ==> (#[trigger] r.0@[k]).tags@ == feature_tag_list(
                segment.properties@,
            )[k] && r.0@[k].tags.wf() && r.0@[k].id == next_id + k && r.0@[k].lat7
                == segment.geometry@[0].lat7 && r.0@[k].lon7 == segment.geometry@[0].lon7,
{
    let props = &segment.properties;
    let c0 = segment.start_coord();
    let lat7 = c0.lat7;
    let lon7 = c0.lon7;
    let mut nodes: Vec<NodeFeature> = Vec::new();
    let mut id: i64 = next_id;
    let ghost mut done: Seq<Map<Seq<char>, Seq<char>>> = Seq::empty();

    match crossing_exec(props) {
        Option::Some(t) => {
            nodes.push(NodeFeature { id, lat7, lon7, tags: t });
            id = id + 1;
            proof {
                done = done + opt_seq(crossing_tags(props@));
            }
        },
        Option::None => {
            proof {
                done = done + opt_seq(crossing_tags(props@));
            }
        },
    }
    match railway_exec(props) {
        Option::Some(t) => {
            nodes.push(NodeFeature { id, lat7, lon7, tags: t });
            id = id + 1;
            proof {
                done = done + opt_seq(railway_tags(props@));
            }
        },
        Option::None => {
            proof {
                done = done + opt_seq(railway_tags(props@));
            }
        },
    }
    match calming_exec(props) {
        Option::Some(t) => {
            nodes.push(NodeFeature { id, lat7, lon7, tags: t });
            id = id + 1;
            proof {
                done = done + opt_seq(calming_tags(props@));
            }
        },
        Option::None => {
            proof {
                done = done + opt_seq(calming_tags(props@));
            }
        },
    }
    match barrier_exec(props) {
        Option::Some(t) => {
            nodes.push(NodeFeature { id, lat7, lon7, tags: t });
            id = id + 1;
            proof {
                done = done + opt_seq(barrier_tags(props@));
            }
        },
        Option::None => {
            proof {
                done = done + opt_seq(barrier_tags(props@));
            }
        },
    }
    match camera_exec(props) {
        Option::Some(t) => {
            nodes.push(NodeFeature { id, lat7, lon7, tags: t });
            id = id + 1;
            proof {
                done = done + opt_seq(camera_tags(props@));
            }
        },
        Option::None => {
            proof {
                done = done + opt_seq(camera_tags(props@));
            }
        },
    }
    match rest_area_exec(props) {
        Option::Some(t) => {
            nodes.push(NodeFeature { id, lat7, lon7, tags: t });
            id = id + 1;
            proof {
                done = done + opt_seq(rest_area_tags(props@));
            }
        },
        Option::None => {
            proof {
                done = done + opt_seq(rest_area_tags(props@));
            }
        },
    }
    match parking_exec(props) {
        Option::Some(t) => {
            nodes.push(NodeFeature { id, lat7, lon7, tags: t });
            id = id + 1;
            proof {
                done = done + opt_seq(parking_tags(props@));
            }
        },
        Option::None => {
            proof {
                done = done + opt_seq(parking_tags(props@));
            }
        },
    }
    proof {
        assert(done =~= feature_tag_list(props@));
    }
    (nodes, id)
}

/// The running collection of generated feature nodes.
pub struct NodeCollection {
    nodes: Vec<NodeFeature>,
    next_id: i64,
}

impl NodeCollection {
    /// The collected nodes.
    pub closed spec fn node_seq(self) -> Seq<NodeFeature> {
        self.nodes@
    }

    /// The next ID that will be assigned.
    pub closed spec fn next(self) -> int {
        self.next_id as int
    }

    /// An empty collection starting at the given ID.
    pub fn new(starting_id: i64) -> (r: NodeCollection)
        ensures
            r.node_seq() == Seq::<NodeFeature>::empty(),
            r.next() == starting_id,
    {
        NodeCollection { nodes: Vec::new(), next_id: starting_id }
    }

    /// Add a node at a position with a tag set; its assigned ID is
    /// returned.
    pub fn add_node(&mut self, lat7: i64, lon7: i64, tags: TagMap) -> (r: i64)
        requires
            old(self).next() < i64::MAX,
        ensures
            r == old(self).next(),
            final(self).next() == old(self).next() + 1,
            final(self).node_seq() == old(self).node_seq().push(
                NodeFeature { id: r, lat7, lon7, tags },
            ),
    {
        let id = self.next_id;
        self.nodes.push(NodeFeature { id, lat7, lon7, tags });
        self.next_id = self.next_id + 1;
        id
    }

    /// Hand the collected nodes out.
    pub fn into_nodes(self) -> (r: Vec<NodeFeature>)
        ensures
            r@ == self.node_seq(),
    {
        self.nodes
    }

    /// Borrow the collected nodes.
    pub fn nodes(&self) -> (r: &Vec<NodeFeature>)
        ensures
            r@ == self.node_seq(),
    {
        &self.nodes
    }
}

/// A segment yields at most seven point features.
pub proof fn lemma_feature_tag_list_len(props: Map<Seq<char>, PropView>)
    ensures
        feature_tag_list(props).len() <= 7,
{
    assert(opt_seq(crossing_tags(props)).len() <= 1);
    assert(opt_seq(railway_tags(props)).len() <= 1);
    assert(opt_seq(calming_tags(props)).len() <= 1);
    assert(opt_seq(barrier_tags(props)).len() <= 1);
    assert(opt_seq(camera_tags(props)).len() <= 1);
    assert(opt_seq(rest_area_tags(props)).len() <= 1);
    assert(opt_seq(parking_tags(props)).len() <= 1);
}

} // verus!
