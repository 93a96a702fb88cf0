//! The ordered attribute-to-tag rule pipeline.
//!
//! Rules run per segment in a fixed order: bridge/tunnel, oneway (which may
//! reverse the geometry), highway classification, overrides, links,
//! references, and then the directional and single-value rules. Each rule
//! is specified as a transformer of the tag map.

use crate::maps::TagMap;
use crate::props::{as_i64_view, as_string_view, as_tenths_view, PropMap, PropView};
use crate::segment::{OnewayDirection, Segment};
use crate::strutil::{dec_str_i, i64_to_string, str_eq, tenths_str, tenths_to_string, trim, trim_of};
use vstd::prelude::*;
use vstd::string::StrSliceExecFns;
use vstd::string::StringExecFns;

verus! {

/// The whole number a property reads as, if present and numeric.
pub open spec fn p_i64(props: Map<Seq<char>, PropView>, k: Seq<char>) -> Option<int> {
    if props.dom().contains(k) {
        as_i64_view(props[k])
    } else {
        Option::None
    }
}

/// The whole number a property reads as, with a default.
pub open spec fn p_i64_or(props: Map<Seq<char>, PropView>, k: Seq<char>, d: int) -> int {
    match p_i64(props, k) {
        Option::Some(v) => v,
        Option::None => d,
    }
}

/// Is the property present, numeric and positive?
pub open spec fn p_truthy(props: Map<Seq<char>, PropView>, k: Seq<char>) -> bool {
    p_i64_or(props, k, 0) > 0
}

/// The measure a property reads as in tenths, if present and numeric.
pub open spec fn p_tenths(props: Map<Seq<char>, PropView>, k: Seq<char>) -> Option<int> {
    if props.dom().contains(k) {
        as_tenths_view(props[k])
    } else {
        Option::None
    }
}

/// The text a property reads as, if present.
pub open spec fn p_str(props: Map<Seq<char>, PropView>, k: Seq<char>) -> Option<Seq<char>> {
    if props.dom().contains(k) {
        Option::Some(as_string_view(props[k]))
    } else {
        Option::None
    }
}

/// Read a whole-number property.
pub fn get_p_i64(props: &PropMap, k: &str) -> (r: Option<i64>)
    requires
        props.wf(),
    ensures
        match r {
            Option::Some(v) => p_i64(props@, k@) == Option::Some(v as int),
            Option::None => p_i64(props@, k@) is None,
        },
{
    props.get_i64(k)
}

/// Read a whole-number property with a default.
pub fn get_p_i64_or(props: &PropMap, k: &str, d: i64) -> (r: i64)
    requires
        props.wf(),
    ensures
        r as int == p_i64_or(props@, k@, d as int),
{
    match props.get_i64(k) {
        Option::Some(v) => v,
        Option::None => d,
    }
}

/// Is the property present, numeric and positive?
pub fn get_p_truthy(props: &PropMap, k: &str) -> (r: bool)
    requires
        props.wf(),
    ensures
        r == p_truthy(props@, k@),
{
    get_p_i64_or(props, k, 0) > 0
}

/// Read a measure property in tenths.
pub fn get_p_tenths(props: &PropMap, k: &str) -> (r: Option<i64>)
    requires
        props.wf(),
    ensures
        match r {
            Option::Some(v) => p_tenths(props@, k@) == Option::Some(v as int),
            Option::None => p_tenths(props@, k@) is None,
        },
{
    props.get_tenths(k)
}

/// Read a text property.
pub fn get_p_str(props: &PropMap, k: &str) -> (r: Option<String>)
    requires
        props.wf(),
    ensures
        match r {
            Option::Some(v) => p_str(props@, k@) == Option::Some(v@),
            Option::None => p_str(props@, k@) is None,
        },
{
    match props.get(k) {
        Option::Some(v) => Option::Some(v.as_string()),
        Option::None => Option::None,
    }
}

/// The segment sits on the walking or cycling network: the network type
/// reads two or four. The directional motor-vehicle rules skip such
/// segments, so cycleways and footways never carry motor directional tags.
pub open spec fn on_gcm_net(props: Map<Seq<char>, PropView>) -> bool {
    p_i64_or(props, "Vagtr_474"@, 1) == 2 || p_i64_or(props, "Vagtr_474"@, 1) == 4
}

/// Is the segment on the walking or cycling network?
pub fn on_gcm_net_exec(props: &PropMap) -> (r: bool)
    requires
        props.wf(),
    ensures
        r == on_gcm_net(props@),
{
    let net = get_p_i64_or(props, "Vagtr_474", 1);
    net == 2 || net == 4
}

/// The value string a directional property turns into: a property equal to
/// one takes the fixed value when one is given, anything else is written in
/// decimal.
pub open spec fn dir_value(v: int, fixed: Option<Seq<char>>) -> Seq<char> {
    match fixed {
        Option::Some(f) => if v == 1 {
            f
        } else {
            dec_str_i(v)
        },
        Option::None => dec_str_i(v),
    }
}

/// The directional-tag rule: nothing when both properties are absent or
/// zero; a single collapsed tag when both read the same; else per
/// direction, obeying the oneway state.
pub open spec fn tag_direction_spec(
    tags: Map<Seq<char>, Seq<char>>,
    oneway: OnewayDirection,
    tag: Seq<char>,
    fixed: Option<Seq<char>>,
    pf: Option<int>,
    pb: Option<int>,
) -> Map<Seq<char>, Seq<char>> {
    let f = match pf {
        Option::Some(v) => if v != 0 {
            Option::Some(v)
        } else {
            Option::None
        },
        Option::None => Option::None,
    };
    let b = match pb {
        Option::Some(v) => if v != 0 {
            Option::Some(v)
        } else {
            Option::None
        },
        Option::None => Option::None,
    };
    if f is None && b is None {
        tags
    } else if f is Some && b is Some && dir_value(f->0, fixed) == dir_value(b->0, fixed) {
        tags.insert(tag, dir_value(f->0, fixed))
    } else {
        let t1 = if f is Some {
            match oneway {
                OnewayDirection::Backward => tags,
                OnewayDirection::Forward => tags.insert(tag, dir_value(f->0, fixed)),
                OnewayDirection::TwoWay => tags.insert(tag + ":forward"@, dir_value(f->0, fixed)),
            }
        } else {
            tags
        };
        if b is Some {
            match oneway {
                OnewayDirection::Forward => t1,
                OnewayDirection::Backward => t1.insert(tag, dir_value(b->0, fixed)),
                OnewayDirection::TwoWay => t1.insert(tag + ":backward"@, dir_value(b->0, fixed)),
            }
        } else {
            t1
        }
    }
}

/// Render the value string of a directional property.
fn dir_value_exec(v: i64, fixed: Option<&str>) -> (r: String)
    ensures
        r@ == dir_value(v as int, match fixed {
            Option::Some(f) => Option::Some(f@),
            Option::None => Option::None,
        }),
{
    match fixed {
        Option::Some(f) => {
            if v == 1 {
                let r = String::from_str(f);
                r
            } else {
                i64_to_string(v)
            }
        },
        Option::None => i64_to_string(v),
    }
}

/// Apply the directional-tag rule.
pub fn tag_direction(
    tags: &mut TagMap,
    oneway: OnewayDirection,
    tag: &str,
    fixed: Option<&str>,
    prop_forward: Option<i64>,
    prop_backward: Option<i64>,
)
    requires
        old(tags).wf(),
    ensures
        final(tags).wf(),
        final(tags)@ == tag_direction_spec(
            old(tags)@,
            oneway,
            tag@,
            match fixed {
                Option::Some(f) => Option::Some(f@),
                Option::None => Option::None,
            },
            match prop_forward {
                Option::Some(v) => Option::Some(v as int),
                Option::None => Option::None,
            },
            match prop_backward {
                Option::Some(v) => Option::Some(v as int),
                Option::None => Option::None,
            },
        ),
{
    let f: Option<i64> = match prop_forward {
        Option::Some(v) => if v != 0 {
            Option::Some(v)
        } else {
            Option::None
        },
        Option::None => Option::None,
    };
    let b: Option<i64> = match prop_backward {
        Option::Some(v) => if v != 0 {
            Option::Some(v)
        } else {
            Option::None
        },
        Option::None => Option::None,
    };
    match (f, b) {
        (Option::None, Option::None) => {},
        (Option::Some(fv), Option::Some(bv)) => {
            let vf = dir_value_exec(fv, fixed);
            let vb = dir_value_exec(bv, fixed);
            if str_eq(vf.as_str(), vb.as_str()) {
                tags.insert(tag, vf);
            } else {
                apply_one_direction(tags, oneway, tag, vf, true);
                apply_one_direction(tags, oneway, tag, vb, false);
            }
        },
        (Option::Some(fv), Option::None) => {
            let vf = dir_value_exec(fv, fixed);
            apply_one_direction(tags, oneway, tag, vf, true);
        },
        (Option::None, Option::Some(bv)) => {
            let vb = dir_value_exec(bv, fixed);
            apply_one_direction(tags, oneway, tag, vb, false);
        },
    }
}

/// Write one direction of a directional tag, obeying the oneway state.
fn apply_one_direction(
    tags: &mut TagMap,
    oneway: OnewayDirection,
    tag: &str,
    value: String,
    forward: bool,
)
    requires
        old(tags).wf(),
    ensures
        final(tags).wf(),
        forward ==> final(tags)@ == match oneway {
            OnewayDirection::Backward => old(tags)@,
            OnewayDirection::Forward => old(tags)@.insert(tag@, value@),
            OnewayDirection::TwoWay => old(tags)@.insert(tag@ + ":forward"@, value@),
        },
        !forward ==> final(tags)@ == match oneway {
            OnewayDirection::Forward => old(tags)@,
            OnewayDirection::Backward => old(tags)@.insert(tag@, value@),
            OnewayDirection::TwoWay => old(tags)@.insert(tag@ + ":backward"@, value@),
        },
{
    if forward {
        match oneway {
            OnewayDirection::Backward => {},
            OnewayDirection::Forward => {
                tags.insert(tag, value);
            },
            OnewayDirection::TwoWay => {
                let mut key = String::from_str(tag);
                key.append(":forward");
                tags.insert(key.as_str(), value);
            },
        }
    } else {
        match oneway {
            OnewayDirection::Forward => {},
            OnewayDirection::Backward => {
                tags.insert(tag, value);
            },
            OnewayDirection::TwoWay => {
                let mut key = String::from_str(tag);
                key.append(":backward");
                tags.insert(key.as_str(), value);
            },
        }
    }
}

/// What the oneway rule decides from the two forbidden-direction flags and
/// the lane-use attribute: the resulting direction state.
pub open spec fn oneway_decision(props: Map<Seq<char>, PropView>) -> OnewayDirection {
    let f = p_truthy(props, "F_ForbjudenFardriktning"@);
    let b = p_truthy(props, "B_ForbjudenFardriktning"@);
    if b && !f {
        OnewayDirection::Forward
    } else if f && !b {
        OnewayDirection::Backward
    } else if p_i64(props, "Korfa_524"@) == Option::Some(1int) {
        OnewayDirection::Forward
    } else {
        OnewayDirection::TwoWay
    }
}

/// Apply the oneway rule: it must run before every directional tag. A
/// forbidden forward direction reverses the geometry in place, so a oneway
/// tag always means travel along the stored direction.
pub fn map_oneway(seg: &mut Segment)
    requires
        old(seg).wf(),
        old(seg).oneway_direction == OnewayDirection::TwoWay,
    ensures
        final(seg).wf(),
        final(seg).oneway_direction == oneway_decision(old(seg).properties@),
        final(seg).properties == old(seg).properties,
        final(seg).shape_length == old(seg).shape_length,
        final(seg).internal_node_ids == old(seg).internal_node_ids,
        oneway_decision(old(seg).properties@) == OnewayDirection::Backward ==> final(seg).geometry@
            == old(seg).geometry@.reverse(),
        oneway_decision(old(seg).properties@) != OnewayDirection::Backward ==> final(seg).geometry@
            == old(seg).geometry@,
        oneway_decision(old(seg).properties@) == OnewayDirection::TwoWay ==> final(seg).tags@
            == old(seg).tags@,
        oneway_decision(old(seg).properties@) != OnewayDirection::TwoWay ==> final(seg).tags@
            == old(seg).tags@.insert("oneway"@, "yes"@),
{
    let f = get_p_truthy(&seg.properties, "F_ForbjudenFardriktning");
    let b = get_p_truthy(&seg.properties, "B_ForbjudenFardriktning");
    if b && !f {
        let v = String::from_str("yes");
        seg.tags.insert("oneway", v);
        seg.oneway_direction = OnewayDirection::Forward;
    } else if f && !b {
        seg.reverse_geometry();
        let v = String::from_str("yes");
        seg.tags.insert("oneway", v);
        seg.oneway_direction = OnewayDirection::Backward;
    } else {
        let korfa = get_p_i64(&seg.properties, "Korfa_524");
        if korfa == Option::Some(1i64) {
            let v = String::from_str("yes");
            seg.tags.insert("oneway", v);
            seg.oneway_direction = OnewayDirection::Forward;
        }
    }
}

/// A text value trimmed, when it is a usable name: nonempty and not "NA".
pub open spec fn name_ok(s: Seq<char>) -> Option<Seq<char>> {
    let t = trim_of(s);
    if t.len() > 0 && t != "NA"@ {
        Option::Some(t)
    } else {
        Option::None
    }
}

/// A text value trimmed, when it is a usable name: nonempty, not "NA" and
/// not "-1".
pub open spec fn name_ok_strict(s: Seq<char>) -> Option<Seq<char>> {
    let t = trim_of(s);
    if t.len() > 0 && t != "NA"@ && t != "-1"@ {
        Option::Some(t)
    } else {
        Option::None
    }
}

/// Trim a text value and keep it when it is a usable name.
fn name_ok_exec(s: &String) -> (r: Option<String>)
    ensures
        match r {
            Option::Some(v) => name_ok(s@) == Option::Some(v@),
            Option::None => name_ok(s@) is None,
        },
{
    let t = trim(s.as_str());
    if t.as_str().unicode_len() > 0 && !str_eq(t.as_str(), "NA") {
        Option::Some(t)
    } else {
        Option::None
    }
}

/// Trim a text value and keep it when it is a usable strict name.
fn name_ok_strict_exec(s: &String) -> (r: Option<String>)
    ensures
        match r {
            Option::Some(v) => name_ok_strict(s@) == Option::Some(v@),
            Option::None => name_ok_strict(s@) is None,
        },
{
    let t = trim(s.as_str());
    if t.as_str().unicode_len() > 0 && !str_eq(t.as_str(), "NA") && !str_eq(t.as_str(), "-1") {
        Option::Some(t)
    } else {
        Option::None
    }
}

/// The motorway override: a motorway attribute forces `highway=motorway`;
/// else a motorroad attribute adds `motorroad=yes`.
pub open spec fn motorway_override_spec(
    props: Map<Seq<char>, PropView>,
    tags: Map<Seq<char>, Seq<char>>,
) -> Map<Seq<char>, Seq<char>> {
    if p_truthy(props, "Motorvag"@) {
        tags.insert("highway"@, "motorway"@)
    } else if p_truthy(props, "Motortrafikled"@) {
        tags.insert("motorroad"@, "yes"@)
    } else {
        tags
    }
}

/// Apply the motorway override; must run after the highway classification.
pub fn map_motorway_override(props: &PropMap, tags: &mut TagMap)
    requires
        props.wf(),
        old(tags).wf(),
    ensures
        final(tags).wf(),
        final(tags)@ == motorway_override_spec(props@, old(tags)@),
{
    if get_p_truthy(props, "Motorvag") {
        let v = String::from_str("motorway");
        tags.insert("highway", v);
    } else if get_p_truthy(props, "Motortrafikled") {
        let v = String::from_str("yes");
        tags.insert("motorroad", v);
    }
}

/// The recommended-cycle-road rule: on motor-vehicle networks only, a
/// recommendation adds `bicycle=designated`.
pub open spec fn bicycle_designated_spec(
    props: Map<Seq<char>, PropView>,
    tags: Map<Seq<char>, Seq<char>>,
) -> Map<Seq<char>, Seq<char>> {
    if p_i64_or(props, "Vagtr_474"@, 1) == 2 || p_i64_or(props, "Vagtr_474"@, 1) == 4 {
        tags
    } else if p_i64(props, "C_Rekbilvagcykeltrafik"@) == Option::Some(1int) {
        tags.insert("bicycle"@, "designated"@)
    } else {
        tags
    }
}

/// Apply the recommended-cycle-road rule.
pub fn map_bicycle_designated(props: &PropMap, tags: &mut TagMap)
    requires
        props.wf(),
        old(tags).wf(),
    ensures
        final(tags).wf(),
        final(tags)@ == bicycle_designated_spec(props@, old(tags)@),
{
    let net = get_p_i64_or(props, "Vagtr_474", 1);
    if net == 2 || net == 4 {
        return ;
    }
    if get_p_i64(props, "C_Rekbilvagcykeltrafik") == Option::Some(1i64) {
        let v = String::from_str("designated");
        tags.insert("bicycle", v);
    }
}

/// The roundabout rule, through the directional helper.
pub open spec fn roundabout_spec(
    props: Map<Seq<char>, PropView>,
    tags: Map<Seq<char>, Seq<char>>,
    oneway: OnewayDirection,
) -> Map<Seq<char>, Seq<char>> {
    if on_gcm_net(props) {
        tags
    } else {
        tag_direction_spec(
        tags,
        oneway,
        "junction"@,
        Option::Some("roundabout"@),
            p_i64(props, "F_Cirkulationsplats"@),
            p_i64(props, "B_Cirkulationsplats"@),
        )
    }
}

/// Apply the roundabout rule.
pub fn map_roundabout(props: &PropMap, tags: &mut TagMap, oneway: OnewayDirection)
    requires
        props.wf(),
        old(tags).wf(),
    ensures
        final(tags).wf(),
        final(tags)@ == roundabout_spec(props@, old(tags)@, oneway),
{
    if on_gcm_net_exec(props) {
        return ;
    }
    let f = get_p_i64(props, "F_Cirkulationsplats");
    let b = get_p_i64(props, "B_Cirkulationsplats");
    tag_direction(tags, oneway, "junction", Option::Some("roundabout"), f, b);
}

/// The link rule: a motorway, trunk or primary road off the priority
/// network with a low delivery-quality class, not a roundabout, becomes a
/// link.
pub open spec fn highway_links_spec(
    props: Map<Seq<char>, PropView>,
    tags: Map<Seq<char>, Seq<char>>,
) -> Map<Seq<char>, Seq<char>> {
    if !tags.dom().contains("highway"@) {
        tags
    } else {
        let hw = tags["highway"@];
        if hw != "motorway"@ && hw != "trunk"@ && hw != "primary"@ {
            tags
        } else if p_i64(props, "FPV_k_309"@) is Some {
            tags
        } else if !(p_i64(props, "Lever_292"@) is Some && p_i64(props, "Lever_292"@)->0 < 4) {
            tags
        } else if p_truthy(props, "F_Cirkulationsplats"@) || p_truthy(
            props,
            "B_Cirkulationsplats"@,
        ) {
            tags
        } else {
            tags.insert("highway"@, hw + "_link"@)
        }
    }
}

/// Apply the link rule.
pub fn map_highway_links(props: &PropMap, tags: &mut TagMap)
    requires
        props.wf(),
        old(tags).wf(),
    ensures
        final(tags).wf(),
        final(tags)@ == highway_links_spec(props@, old(tags)@),
{
    let hw: String = match tags.get("highway") {
        Option::Some(h) => h.clone(),
        Option::None => {
            return ;
        },
    };
    if !(str_eq(hw.as_str(), "motorway") || str_eq(hw.as_str(), "trunk") || str_eq(
        hw.as_str(),
        "primary",
    )) {
        return ;
    }
    if get_p_i64(props, "FPV_k_309").is_some() {
        return ;
    }
    match get_p_i64(props, "Lever_292") {
        Option::Some(dc) => {
            if dc >= 4 {
                return ;
            }
        },
        Option::None => {
            return ;
        },
    }
    if get_p_truthy(props, "F_Cirkulationsplats") || get_p_truthy(props, "B_Cirkulationsplats") {
        return ;
    }
    let mut v = hw;
    v.append("_link");
    tags.insert("highway", v);
}

/// The surface rule: wear-layer code 1 is paved, 2 unpaved; ferry routes
/// and the walking and cycling networks are left alone.
pub open spec fn surface_spec(
    props: Map<Seq<char>, PropView>,
    tags: Map<Seq<char>, Seq<char>>,
) -> Map<Seq<char>, Seq<char>> {
    let net = p_i64_or(props, "Vagtr_474"@, 1);
    if net == 2 || net == 4 {
        tags
    } else if tags.dom().contains("route"@) {
        tags
    } else if p_i64(props, "Slitl_152"@) == Option::Some(1int) {
        tags.insert("surface"@, "paved"@)
    } else if p_i64(props, "Slitl_152"@) == Option::Some(2int) {
        tags.insert("surface"@, "unpaved"@)
    } else {
        tags
    }
}

/// Apply the surface rule.
pub fn map_surface(props: &PropMap, tags: &mut TagMap)
    requires
        props.wf(),
        old(tags).wf(),
    ensures
        final(tags).wf(),
        final(tags)@ == surface_spec(props@, old(tags)@),
{
    let net = get_p_i64_or(props, "Vagtr_474", 1);
    if net == 2 || net == 4 {
        return ;
    }
    if tags.contains_key("route") {
        return ;
    }
    match get_p_i64(props, "Slitl_152") {
        Option::Some(1i64) => {
            let v = String::from_str("paved");
            tags.insert("surface", v);
        },
        Option::Some(2i64) => {
            let v = String::from_str("unpaved");
            tags.insert("surface", v);
        },
        _ => {},
    }
}

/// A speed read for one direction: kept when it is positive and at most
/// 120.
pub open spec fn speed_of(props: Map<Seq<char>, PropView>, k: Seq<char>) -> Option<int> {
    match p_i64(props, k) {
        Option::Some(v) => if 0 < v <= 120 {
            Option::Some(v)
        } else {
            Option::None
        },
        Option::None => Option::None,
    }
}

/// The maxspeed rule: both speeds through the directional helper, except
/// that a track at 70/70 is left untagged.
pub open spec fn maxspeed_spec(
    props: Map<Seq<char>, PropView>,
    tags: Map<Seq<char>, Seq<char>>,
    oneway: OnewayDirection,
) -> Map<Seq<char>, Seq<char>> {
    if on_gcm_net(props) {
        tags
    } else {
        maxspeed_road_spec(props, tags, oneway)
    }
}

/// The maxspeed rule on the motor network.
pub open spec fn maxspeed_road_spec(
    props: Map<Seq<char>, PropView>,
    tags: Map<Seq<char>, Seq<char>>,
    oneway: OnewayDirection,
) -> Map<Seq<char>, Seq<char>> {
    let sf = p_i64(props, "F_Hogst_225"@);
    let sb = p_i64(props, "B_Hogst_225"@);
    if tags.dom().contains("highway"@) && tags["highway"@] == "track"@ && sf == Option::Some(70int)
        && sb == Option::Some(70int) {
        tags
    } else {
        tag_direction_spec(
            tags,
            oneway,
            "maxspeed"@,
            Option::None,
            speed_of(props, "F_Hogst_225"@),
            speed_of(props, "B_Hogst_225"@),
        )
    }
}

/// Apply the maxspeed rule.
pub fn map_maxspeed(props: &PropMap, tags: &mut TagMap, oneway: OnewayDirection)
    requires
        props.wf(),
        old(tags).wf(),
    ensures
        final(tags).wf(),
        final(tags)@ == maxspeed_spec(props@, old(tags)@, oneway),
{
    if on_gcm_net_exec(props) {
        return ;
    }
    let sf = get_p_i64(props, "F_Hogst_225");
    let sb = get_p_i64(props, "B_Hogst_225");
    let is_track: bool = match tags.get("highway") {
        Option::Some(h) => str_eq(h.as_str(), "track"),
        Option::None => false,
    };
    if is_track && sf == Option::Some(70i64) && sb == Option::Some(70i64) {
        return ;
    }
    let ff: Option<i64> = match sf {
        Option::Some(v) => if 0 < v && v <= 120 {
            Option::Some(v)
        } else {
            Option::None
        },
        Option::None => Option::None,
    };
    let fb: Option<i64> = match sb {
        Option::Some(v) => if 0 < v && v <= 120 {
            Option::Some(v)
        } else {
            Option::None
        },
        Option::None => Option::None,
    };
    tag_direction(tags, oneway, "maxspeed", Option::None, ff, fb);
}

/// The lanes rule: a lane count above two (or above one on a oneway) is
/// tagged, and bus-lane attributes add PSV tags through the directional
/// helper.
pub open spec fn lanes_spec(
    props: Map<Seq<char>, PropView>,
    tags: Map<Seq<char>, Seq<char>>,
    oneway: OnewayDirection,
) -> Map<Seq<char>, Seq<char>> {
    if on_gcm_net(props) {
        tags
    } else {
        lanes_road_spec(props, tags, oneway)
    }
}

/// The lanes rule on the motor network.
pub open spec fn lanes_road_spec(
    props: Map<Seq<char>, PropView>,
    tags: Map<Seq<char>, Seq<char>>,
    oneway: OnewayDirection,
) -> Map<Seq<char>, Seq<char>> {
    let t0 = match p_i64(props, "Korfa_497"@) {
        Option::Some(c) => if c > 2 || (oneway != OnewayDirection::TwoWay && c > 1) {
            tags.insert("lanes"@, dec_str_i(c))
        } else {
            tags
        },
        Option::None => tags,
    };
    let f_psv = p_i64_or(props, "F_Korfa_517"@, 0);
    let b_psv = p_i64_or(props, "B_Korfa_517"@, 0);
    let f_bus: Option<int> = if f_psv == 2 {
        Option::Some(1int)
    } else {
        Option::None
    };
    let b_bus: Option<int> = if b_psv == 2 {
        Option::Some(1int)
    } else {
        Option::None
    };
    let t1 = tag_direction_spec(t0, oneway, "psv"@, Option::Some("yes"@), f_bus, b_bus);
    let t2 = tag_direction_spec(t1, oneway, "motor_vehicle"@, Option::Some("no"@), f_bus, b_bus);
    let f_lane: Option<int> = if f_psv == 1 {
        Option::Some(1int)
    } else {
        Option::None
    };
    let b_lane: Option<int> = if b_psv == 1 {
        Option::Some(1int)
    } else {
        Option::None
    };
    tag_direction_spec(t2, oneway, "lanes:psv"@, Option::Some("1"@), f_lane, b_lane)
}

/// Apply the lanes rule.
pub fn map_lanes(props: &PropMap, tags: &mut TagMap, oneway: OnewayDirection)
    requires
        props.wf(),
        old(tags).wf(),
    ensures
        final(tags).wf(),
        final(tags)@ == lanes_spec(props@, old(tags)@, oneway),
{
    if on_gcm_net_exec(props) {
        return ;
    }
    match get_p_i64(props, "Korfa_497") {
        Option::Some(c) => {
            let is_oneway = !matches!(oneway, OnewayDirection::TwoWay);
            if c > 2 || (is_oneway && c > 1) {
                tags.insert("lanes", i64_to_string(c));
            }
        },
        Option::None => {},
    }
    let f_psv = get_p_i64_or(props, "F_Korfa_517", 0);
    let b_psv = get_p_i64_or(props, "B_Korfa_517", 0);
    let f_bus: Option<i64> = if f_psv == 2 {
        Option::Some(1i64)
    } else {
        Option::None
    };
    let b_bus: Option<i64> = if b_psv == 2 {
        Option::Some(1i64)
    } else {
        Option::None
    };
    tag_direction(tags, oneway, "psv", Option::Some("yes"), f_bus, b_bus);
    tag_direction(tags, oneway, "motor_vehicle", Option::Some("no"), f_bus, b_bus);
    let f_lane: Option<i64> = if f_psv == 1 {
        Option::Some(1i64)
    } else {
        Option::None
    };
    let b_lane: Option<i64> = if b_psv == 1 {
        Option::Some(1i64)
    } else {
        Option::None
    };
    tag_direction(tags, oneway, "lanes:psv", Option::Some("1"), f_lane, b_lane);
}

/// The width rule: a width strictly between zero and fifty metres is
/// written with one decimal; ferry routes and the walking and cycling
/// networks are left alone.
pub open spec fn width_spec(
    props: Map<Seq<char>, PropView>,
    tags: Map<Seq<char>, Seq<char>>,
) -> Map<Seq<char>, Seq<char>> {
    let net = p_i64_or(props, "Vagtr_474"@, 1);
    if net == 2 || net == 4 {
        tags
    } else if tags.dom().contains("route"@) {
        tags
    } else {
        match p_tenths(props, "Bredd_156"@) {
            Option::Some(t) => if 0 < t < 500 {
                tags.insert("width"@, tenths_str(t, true))
            } else {
                tags
            },
            Option::None => tags,
        }
    }
}

/// Apply the width rule.
pub fn map_width(props: &PropMap, tags: &mut TagMap)
    requires
        props.wf(),
        old(tags).wf(),
    ensures
        final(tags).wf(),
        final(tags)@ == width_spec(props@, old(tags)@),
{
    let net = get_p_i64_or(props, "Vagtr_474", 1);
    if net == 2 || net == 4 {
        return ;
    }
    if tags.contains_key("route") {
        return ;
    }
    match get_p_tenths(props, "Bredd_156") {
        Option::Some(t) => {
            if 0 < t && t < 500 {
                tags.insert("width", tenths_to_string(t, true));
            }
        },
        Option::None => {},
    }
}

/// The layer fallback: a bridge without a layer sits on layer one.
pub open spec fn layer_spec(tags: Map<Seq<char>, Seq<char>>) -> Map<Seq<char>, Seq<char>> {
    if tags.dom().contains("bridge"@) && !tags.dom().contains("layer"@) {
        tags.insert("layer"@, "1"@)
    } else {
        tags
    }
}

/// Apply the layer fallback.
pub fn map_layer(tags: &mut TagMap)
    requires
        old(tags).wf(),
    ensures
        final(tags).wf(),
        final(tags)@ == layer_spec(old(tags)@),
{
    if tags.contains_key("bridge") && !tags.contains_key("layer") {
        let v = String::from_str("1");
        tags.insert("layer", v);
    }
}

/// The lighting rule: a lighting attribute equal to one adds `lit=yes`.
pub open spec fn lit_spec(
    props: Map<Seq<char>, PropView>,
    tags: Map<Seq<char>, Seq<char>>,
) -> Map<Seq<char>, Seq<char>> {
    if p_i64(props, "GCM_belyst"@) == Option::Some(1int) {
        tags.insert("lit"@, "yes"@)
    } else {
        tags
    }
}

/// Apply the lighting rule.
pub fn map_lit(props: &PropMap, tags: &mut TagMap)
    requires
        props.wf(),
        old(tags).wf(),
    ensures
        final(tags).wf(),
        final(tags)@ == lit_spec(props@, old(tags)@),
{
    if get_p_i64(props, "GCM_belyst") == Option::Some(1i64) {
        let v = String::from_str("yes");
        tags.insert("lit", v);
    }
}

/// The environmental-zone rule: class one is `yes`, higher classes are
/// written by number.
pub open spec fn low_emission_zone_spec(
    props: Map<Seq<char>, PropView>,
    tags: Map<Seq<char>, Seq<char>>,
) -> Map<Seq<char>, Seq<char>> {
    match p_i64(props, "Miljozon"@) {
        Option::Some(m) => if m == 1 {
            tags.insert("low_emission_zone"@, "yes"@)
        } else if m > 1 {
            tags.insert("low_emission_zone"@, dec_str_i(m))
        } else {
            tags
        },
        Option::None => tags,
    }
}

/// Apply the environmental-zone rule.
pub fn map_low_emission_zone(props: &PropMap, tags: &mut TagMap)
    requires
        props.wf(),
        old(tags).wf(),
    ensures
        final(tags).wf(),
        final(tags)@ == low_emission_zone_spec(props@, old(tags)@),
{
    match get_p_i64(props, "Miljozon") {
        Option::Some(m) => {
            if m == 1 {
                let v = String::from_str("yes");
                tags.insert("low_emission_zone", v);
            } else if m > 1 {
                tags.insert("low_emission_zone", i64_to_string(m));
            }
        },
        Option::None => {},
    }
}

/// The priority-road rule: a road with an official number is designated.
pub open spec fn priority_road_spec(
    props: Map<Seq<char>, PropView>,
    tags: Map<Seq<char>, Seq<char>>,
) -> Map<Seq<char>, Seq<char>> {
    match p_str(props, "Huvnr_556_1"@) {
        Option::Some(s) => if s.len() > 0 && s != "0"@ {
            tags.insert("priority_road"@, "designated"@)
        } else {
            tags
        },
        Option::None => tags,
    }
}

/// Apply the priority-road rule.
pub fn map_priority_road(props: &PropMap, tags: &mut TagMap)
    requires
        props.wf(),
        old(tags).wf(),
    ensures
        final(tags).wf(),
        final(tags)@ == priority_road_spec(props@, old(tags)@),
{
    match get_p_str(props, "Huvnr_556_1") {
        Option::Some(s) => {
            if s.as_str().unicode_len() > 0 && !str_eq(s.as_str(), "0") {
                let v = String::from_str("designated");
                tags.insert("priority_road", v);
            }
        },
        Option::None => {},
    }
}

/// The motor-vehicle access rule, through the directional helper.
pub open spec fn motor_vehicle_access_spec(
    props: Map<Seq<char>, PropView>,
    tags: Map<Seq<char>, Seq<char>>,
    oneway: OnewayDirection,
) -> Map<Seq<char>, Seq<char>> {
    if on_gcm_net(props) {
        tags
    } else {
        tag_direction_spec(
            tags,
            oneway,
            "motor_vehicle"@,
            Option::Some("no"@),
            p_i64(props, "F_ForbudTrafik"@),
            p_i64(props, "B_ForbudTrafik"@),
        )
    }
}

/// Apply the motor-vehicle access rule.
pub fn map_motor_vehicle_access(props: &PropMap, tags: &mut TagMap, oneway: OnewayDirection)
    requires
        props.wf(),
        old(tags).wf(),
    ensures
        final(tags).wf(),
        final(tags)@ == motor_vehicle_access_spec(props@, old(tags)@, oneway),
{
    if on_gcm_net_exec(props) {
        return ;
    }
    let f = get_p_i64(props, "F_ForbudTrafik");
    let b = get_p_i64(props, "B_ForbudTrafik");
    tag_direction(tags, oneway, "motor_vehicle", Option::Some("no"), f, b);
}

/// The hazardous-goods rule: a recommendation designates, directional
/// restriction attributes forbid through the directional helper.
pub open spec fn hazmat_spec(
    props: Map<Seq<char>, PropView>,
    tags: Map<Seq<char>, Seq<char>>,
    oneway: OnewayDirection,
) -> Map<Seq<char>, Seq<char>> {
    if on_gcm_net(props) {
        tags
    } else {
        hazmat_road_spec(props, tags, oneway)
    }
}

/// The hazardous-goods rule on the motor network.
pub open spec fn hazmat_road_spec(
    props: Map<Seq<char>, PropView>,
    tags: Map<Seq<char>, Seq<char>>,
    oneway: OnewayDirection,
) -> Map<Seq<char>, Seq<char>> {
    let t0 = if p_truthy(props, "Rekom_185"@) {
        tags.insert("hazmat"@, "designated"@)
    } else {
        tags
    };
    let hf: Option<int> = if p_i64_or(props, "F_Beskr_124"@, 0) > 0 {
        Option::Some(1int)
    } else {
        Option::None
    };
    let hb: Option<int> = if p_i64_or(props, "B_Beskr_124"@, 0) > 0 {
        Option::Some(1int)
    } else {
        Option::None
    };
    tag_direction_spec(t0, oneway, "hazmat"@, Option::Some("no"@), hf, hb)
}

/// Apply the hazardous-goods rule.
pub fn map_hazmat(props: &PropMap, tags: &mut TagMap, oneway: OnewayDirection)
    requires
        props.wf(),
        old(tags).wf(),
    ensures
        final(tags).wf(),
        final(tags)@ == hazmat_spec(props@, old(tags)@, oneway),
{
    if on_gcm_net_exec(props) {
        return ;
    }
    if get_p_truthy(props, "Rekom_185") {
        let v = String::from_str("designated");
        tags.insert("hazmat", v);
    }
    let hf: Option<i64> = if get_p_i64_or(props, "F_Beskr_124", 0) > 0 {
        Option::Some(1i64)
    } else {
        Option::None
    };
    let hb: Option<i64> = if get_p_i64_or(props, "B_Beskr_124", 0) > 0 {
        Option::Some(1i64)
    } else {
        Option::None
    };
    tag_direction(tags, oneway, "hazmat", Option::Some("no"), hf, hb);
}

/// The overtaking rule, through the directional helper.
pub open spec fn overtaking_spec(
    props: Map<Seq<char>, PropView>,
    tags: Map<Seq<char>, Seq<char>>,
    oneway: OnewayDirection,
) -> Map<Seq<char>, Seq<char>> {
    if on_gcm_net(props) {
        tags
    } else {
        tag_direction_spec(
            tags,
            oneway,
            "overtaking"@,
            Option::Some("no"@),
            p_i64(props, "F_Omkorningsforbud"@),
            p_i64(props, "B_Omkorningsforbud"@),
        )
    }
}

/// Apply the overtaking rule.
pub fn map_overtaking_restrictions(props: &PropMap, tags: &mut TagMap, oneway: OnewayDirection)
    requires
        props.wf(),
        old(tags).wf(),
    ensures
        final(tags).wf(),
        final(tags)@ == overtaking_spec(props@, old(tags)@, oneway),
{
    if on_gcm_net_exec(props) {
        return ;
    }
    let f = get_p_i64(props, "F_Omkorningsforbud");
    let b = get_p_i64(props, "B_Omkorningsforbud");
    tag_direction(tags, oneway, "overtaking", Option::Some("no"), f, b);
}

/// The street-name rule for motor roads: names never land on the walking
/// and cycling networks, ferries, or roundabouts; the street-name
/// attribute wins over the other-name attribute.
pub open spec fn name_spec(
    props: Map<Seq<char>, PropView>,
    tags: Map<Seq<char>, Seq<char>>,
) -> Map<Seq<char>, Seq<char>> {
    let net = p_i64_or(props, "Vagtr_474"@, 1);
    if net == 2 || net == 4 {
        tags
    } else if tags.dom().contains("route"@) {
        tags
    } else if p_truthy(props, "F_Cirkulationsplats"@) || p_truthy(props, "B_Cirkulationsplats"@) {
        tags
    } else {
        let n1 = match p_str(props, "Namn_130"@) {
            Option::Some(s) => name_ok_strict(s),
            Option::None => Option::None,
        };
        let n2 = match p_str(props, "Namn_132"@) {
            Option::Some(s) => name_ok_strict(s),
            Option::None => Option::None,
        };
        match n1 {
            Option::Some(nm) => tags.insert("name"@, nm),
            Option::None => match n2 {
                Option::Some(nm) => tags.insert("name"@, nm),
                Option::None => tags,
            },
        }
    }
}

/// Apply the street-name rule.
pub fn map_name(props: &PropMap, tags: &mut TagMap)
    requires
        props.wf(),
        old(tags).wf(),
    ensures
        final(tags).wf(),
        final(tags)@ == name_spec(props@, old(tags)@),
{
    let net = get_p_i64_or(props, "Vagtr_474", 1);
    if net == 2 || net == 4 {
        return ;
    }
    if tags.contains_key("route") {
        return ;
    }
    if get_p_truthy(props, "F_Cirkulationsplats") || get_p_truthy(props, "B_Cirkulationsplats") {
        return ;
    }
    let n1: Option<String> = match get_p_str(props, "Namn_130") {
        Option::Some(s) => name_ok_strict_exec(&s),
        Option::None => Option::None,
    };
    match n1 {
        Option::Some(nm) => {
            tags.insert("name", nm);
        },
        Option::None => {
            let n2: Option<String> = match get_p_str(props, "Namn_132") {
                Option::Some(s) => name_ok_strict_exec(&s),
                Option::None => Option::None,
            };
            match n2 {
                Option::Some(nm) => {
                    tags.insert("name", nm);
                },
                Option::None => {},
            }
        },
    }
}

/// The bridge and tunnel naming rule: an other-name containing the Swedish
/// definite for tunnel or bridge names the structure, and the structure
/// description attribute is copied to `description`.
pub open spec fn bridge_tunnel_names_spec(
    props: Map<Seq<char>, PropView>,
    tags: Map<Seq<char>, Seq<char>>,
) -> Map<Seq<char>, Seq<char>> {
    let is_bridge = tags.dom().contains("bridge"@);
    let is_tunnel = tags.dom().contains("tunnel"@);
    let t0 = match p_str(props, "Namn_132"@) {
        Option::Some(s) => {
            let t = trim_of(s);
            if t.len() > 0 && is_tunnel && crate::strutil::contains_seq(
                crate::strutil::lower_of(t),
                "tunneln"@,
            ) {
                tags.insert("tunnel:name"@, t)
            } else if t.len() > 0 && is_bridge && !(is_tunnel && crate::strutil::contains_seq(
                crate::strutil::lower_of(t),
                "tunneln"@,
            )) && crate::strutil::contains_seq(crate::strutil::lower_of(t), "bron"@) {
                tags.insert("bridge:name"@, t)
            } else {
                tags
            }
        },
        Option::None => tags,
    };
    if !is_bridge && !is_tunnel {
        t0
    } else {
        match p_str(props, "Namn_193"@) {
            Option::Some(s) => {
                let t = trim_of(s);
                if t.len() > 0 {
                    t0.insert("description"@, t)
                } else {
                    t0
                }
            },
            Option::None => t0,
        }
    }
}

/// Apply the bridge and tunnel naming rule.
pub fn map_bridge_tunnel_names(props: &PropMap, tags: &mut TagMap)
    requires
        props.wf(),
        old(tags).wf(),
    ensures
        final(tags).wf(),
        final(tags)@ == bridge_tunnel_names_spec(props@, old(tags)@),
{
    let is_bridge = tags.contains_key("bridge");
    let is_tunnel = tags.contains_key("tunnel");
    match get_p_str(props, "Namn_132") {
        Option::Some(s) => {
            let t = trim(s.as_str());
            if t.as_str().unicode_len() > 0 {
                if is_tunnel && crate::strutil::contains_sub_lower(t.as_str(), "tunneln") {
                    tags.insert("tunnel:name", t);
                } else if is_bridge && crate::strutil::contains_sub_lower(t.as_str(), "bron") {
                    tags.insert("bridge:name", t);
                }
            }
        },
        Option::None => {},
    }
    if !is_bridge && !is_tunnel {
        return ;
    }
    match get_p_str(props, "Namn_193") {
        Option::Some(s) => {
            let t = trim(s.as_str());
            if t.as_str().unicode_len() > 0 {
                tags.insert("description", t);
            }
        },
        Option::None => {},
    }
}



/// Truncating division toward zero by one hundred.
pub open spec fn trunc_div100(k: int) -> int {
    if k >= 0 {
        k / 100
    } else {
        -((-k) / 100)
    }
}

/// The county letter code for a county number.
pub open spec fn county_code(n: int) -> Option<Seq<char>> {
    if n == 1 {
        Option::Some("AB"@)
    } else if n == 3 {
        Option::Some("C"@)
    } else if n == 4 {
        Option::Some("D"@)
    } else if n == 5 {
        Option::Some("E"@)
    } else if n == 6 {
        Option::Some("F"@)
    } else if n == 7 {
        Option::Some("G"@)
    } else if n == 8 {
        Option::Some("H"@)
    } else if n == 9 {
        Option::Some("I"@)
    } else if n == 10 {
        Option::Some("K"@)
    } else if n == 11 {
        Option::Some("L"@)
    } else if n == 12 {
        Option::Some("M"@)
    } else if n == 13 {
        Option::Some("N"@)
    } else if n == 14 {
        Option::Some("O"@)
    } else if n == 15 {
        Option::Some("P"@)
    } else if n == 16 {
        Option::Some("R"@)
    } else if n == 17 {
        Option::Some("S"@)
    } else if n == 18 {
        Option::Some("T"@)
    } else if n == 19 {
        Option::Some("U"@)
    } else if n == 20 {
        Option::Some("W"@)
    } else if n == 21 {
        Option::Some("X"@)
    } else if n == 22 {
        Option::Some("Y"@)
    } else if n == 23 {
        Option::Some("Z"@)
    } else if n == 24 {
        Option::Some("AC"@)
    } else if n == 25 {
        Option::Some("BD"@)
    } else {
        Option::None
    }
}

/// Look up the county letter code.
pub fn county_code_exec(n: i64) -> (r: Option<&'static str>)
    ensures
        match r {
            Option::Some(v) => county_code(n as int) == Option::Some(v@),
            Option::None => county_code(n as int) is None,
        },
{
    if n == 1 {
        Option::Some("AB")
    } else if n == 3 {
        Option::Some("C")
    } else if n == 4 {
        Option::Some("D")
    } else if n == 5 {
        Option::Some("E")
    } else if n == 6 {
        Option::Some("F")
    } else if n == 7 {
        Option::Some("G")
    } else if n == 8 {
        Option::Some("H")
    } else if n == 9 {
        Option::Some("I")
    } else if n == 10 {
        Option::Some("K")
    } else if n == 11 {
        Option::Some("L")
    } else if n == 12 {
        Option::Some("M")
    } else if n == 13 {
        Option::Some("N")
    } else if n == 14 {
        Option::Some("O")
    } else if n == 15 {
        Option::Some("P")
    } else if n == 16 {
        Option::Some("R")
    } else if n == 17 {
        Option::Some("S")
    } else if n == 18 {
        Option::Some("T")
    } else if n == 19 {
        Option::Some("U")
    } else if n == 20 {
        Option::Some("W")
    } else if n == 21 {
        Option::Some("X")
    } else if n == 22 {
        Option::Some("Y")
    } else if n == 23 {
        Option::Some("Z")
    } else if n == 24 {
        Option::Some("AC")
    } else if n == 25 {
        Option::Some("BD")
    } else {
        Option::None
    }
}

/// The OSM access key a vehicle-type code restricts.
pub open spec fn vehicle_tag(c: int) -> Option<Seq<char>> {
    if c == 10 || c == 210 {
        Option::Some("motorcar"@)
    } else if c == 20 {
        Option::Some("bus"@)
    } else if c == 30 {
        Option::Some("bicycle"@)
    } else if c == 40 {
        Option::Some("vehicle"@)
    } else if c == 90 || c == 280 {
        Option::Some("hgv"@)
    } else if c == 100 {
        Option::Some("goods"@)
    } else if c == 120 || c == 130 || c == 140 {
        Option::Some("moped"@)
    } else if c == 150 {
        Option::Some("motorcycle"@)
    } else if c == 170 || c == 180 {
        Option::Some("motor_vehicle"@)
    } else if c == 230 {
        Option::Some("atv"@)
    } else if c == 270 {
        Option::Some("tractor"@)
    } else {
        Option::None
    }
}

/// Look up the OSM access key of a vehicle-type code.
pub fn vehicle_tag_exec(c: i64) -> (r: Option<&'static str>)
    ensures
        match r {
            Option::Some(v) => vehicle_tag(c as int) == Option::Some(v@),
            Option::None => vehicle_tag(c as int) is None,
        },
{
    if c == 10 || c == 210 {
        Option::Some("motorcar")
    } else if c == 20 {
        Option::Some("bus")
    } else if c == 30 {
        Option::Some("bicycle")
    } else if c == 40 {
        Option::Some("vehicle")
    } else if c == 90 || c == 280 {
        Option::Some("hgv")
    } else if c == 100 {
        Option::Some("goods")
    } else if c == 120 || c == 130 || c == 140 {
        Option::Some("moped")
    } else if c == 150 {
        Option::Some("motorcycle")
    } else if c == 170 || c == 180 {
        Option::Some("motor_vehicle")
    } else if c == 230 {
        Option::Some("atv")
    } else if c == 270 {
        Option::Some("tractor")
    } else {
        Option::None
    }
}

/// The road-reference rule: E-roads get an "E " prefix, national and
/// primary county roads the bare number, and other county roads a county
/// letter from the municipality number.
pub open spec fn ref_spec(
    props: Map<Seq<char>, PropView>,
    tags: Map<Seq<char>, Seq<char>>,
) -> Map<Seq<char>, Seq<char>> {
    match (p_i64(props, "Kateg_380"@), p_str(props, "Huvnr_556_1"@)) {
        (Option::Some(kat), Option::Some(s)) => {
            if s.len() == 0 || s == "0"@ || s == "-1"@ {
                tags
            } else if kat == 1 {
                tags.insert("ref"@, "E "@ + s)
            } else if kat == 2 || kat == 3 {
                tags.insert("ref"@, s)
            } else if kat == 4 {
                match p_i64(props, "Kommu_141"@) {
                    Option::Some(kommun) => match county_code(trunc_div100(kommun)) {
                        Option::Some(letter) => tags.insert("ref"@, letter + " "@ + s),
                        Option::None => tags,
                    },
                    Option::None => tags,
                }
            } else {
                tags
            }
        },
        _ => tags,
    }
}

/// Apply the road-reference rule.
pub fn map_ref(props: &PropMap, tags: &mut TagMap)
    requires
        props.wf(),
        old(tags).wf(),
    ensures
        final(tags).wf(),
        final(tags)@ == ref_spec(props@, old(tags)@),
{
    let kateg = get_p_i64(props, "Kateg_380");
    let huvnr = get_p_str(props, "Huvnr_556_1");
    match (kateg, huvnr) {
        (Option::Some(kat), Option::Some(s)) => {
            if s.as_str().unicode_len() == 0 || str_eq(s.as_str(), "0") || str_eq(
                s.as_str(),
                "-1",
            ) {
                return ;
            }
            if kat == 1 {
                let mut v = String::from_str("E ");
                proof {
                    reveal_strlit("E ");
                }
                v.append(s.as_str());
                tags.insert("ref", v);
            } else if kat == 2 || kat == 3 {
                tags.insert("ref", s);
            } else if kat == 4 {
                match get_p_i64(props, "Kommu_141") {
                    Option::Some(kommun) => {
                        let county: i64 = if kommun >= 0 {
                            kommun / 100
                        } else {
                            let mag: u64 = ((-(kommun + 1)) as u64) + 1;
                            -((mag / 100) as i64)
                        };
                        assert(county as int == trunc_div100(kommun as int));
                        match county_code_exec(county) {
                            Option::Some(letter) => {
                                let mut v = String::from_str(letter);
                                v.append(" ");
                                proof {
                                    reveal_strlit(" ");
                                }
                                v.append(s.as_str());
                                proof {
                                    assert(v@ =~= letter@ + " "@ + s@);
                                }
                                tags.insert("ref", v);
                            },
                            Option::None => {},
                        }
                    },
                    Option::None => {},
                }
            }
        },
        _ => {},
    }
}

/// A measure kept when strictly between the given bounds, in tenths.
pub open spec fn measure_between(
    props: Map<Seq<char>, PropView>,
    k: Seq<char>,
    lo: int,
    hi: int,
) -> Option<int> {
    match p_tenths(props, k) {
        Option::Some(t) => if lo < t < hi {
            Option::Some(t)
        } else {
            Option::None
        },
        Option::None => Option::None,
    }
}

/// Read a measure kept when strictly between the given bounds, in tenths.
fn get_measure_between(props: &PropMap, k: &str, lo: i64, hi: i64) -> (r: Option<i64>)
    requires
        props.wf(),
    ensures
        match r {
            Option::Some(v) => measure_between(props@, k@, lo as int, hi as int) == Option::Some(
                v as int,
            ),
            Option::None => measure_between(props@, k@, lo as int, hi as int) is None,
        },
{
    match get_p_tenths(props, k) {
        Option::Some(t) => if lo < t && t < hi {
            Option::Some(t)
        } else {
            Option::None
        },
        Option::None => Option::None,
    }
}

/// One direction of the vehicle-type restriction: the conditional or plain
/// prohibition, obeying the oneway state.
pub open spec fn vehicle_restriction_dir_spec(
    tags: Map<Seq<char>, Seq<char>>,
    oneway: OnewayDirection,
    osm_tag: Seq<char>,
    weight: Option<int>,
    forward: bool,
) -> Map<Seq<char>, Seq<char>> {
    match weight {
        Option::Some(w) => {
            if osm_tag == "hgv"@ {
                if forward {
                    tags.insert("maxweight:forward"@, tenths_str(w, false))
                } else {
                    tags.insert("maxweight:backward"@, tenths_str(w, false))
                }
            } else {
                let v = "no @ (weight>"@ + tenths_str(w, false) + ")"@;
                if forward {
                    if oneway != OnewayDirection::Backward {
                        if oneway == OnewayDirection::Forward {
                            tags.insert(osm_tag + ":conditional"@, v)
                        } else {
                            tags.insert(osm_tag + ":forward:conditional"@, v)
                        }
                    } else {
                        tags
                    }
                } else {
                    if oneway != OnewayDirection::Forward {
                        if oneway == OnewayDirection::Backward {
                            tags.insert(osm_tag + ":conditional"@, v)
                        } else {
                            tags.insert(osm_tag + ":backward:conditional"@, v)
                        }
                    } else {
                        tags
                    }
                }
            }
        },
        Option::None => {
            if forward {
                if oneway != OnewayDirection::Backward {
                    if oneway == OnewayDirection::Forward {
                        tags.insert(osm_tag, "no"@)
                    } else {
                        tags.insert(osm_tag + ":forward"@, "no"@)
                    }
                } else {
                    tags
                }
            } else {
                if oneway != OnewayDirection::Forward {
                    if oneway == OnewayDirection::Backward {
                        tags.insert(osm_tag, "no"@)
                    } else {
                        tags.insert(osm_tag + ":backward"@, "no"@)
                    }
                } else {
                    tags
                }
            }
        },
    }
}

/// Apply one direction of the vehicle-type restriction.
fn apply_vehicle_restriction_dir(
    tags: &mut TagMap,
    oneway: OnewayDirection,
    osm_tag: &str,
    weight: Option<i64>,
    forward: bool,
)
    requires
        old(tags).wf(),
    ensures
        final(tags).wf(),
        final(tags)@ == vehicle_restriction_dir_spec(old(tags)@, oneway, osm_tag@, match weight {
            Option::Some(w) => Option::Some(w as int),
            Option::None => Option::None,
        }, forward),
{
    match weight {
        Option::Some(w) => {
            if str_eq(osm_tag, "hgv") {
                let v = tenths_to_string(w, false);
                if forward {
                    tags.insert("maxweight:forward", v);
                } else {
                    tags.insert("maxweight:backward", v);
                }
            } else {
                let mut v = String::from_str("no @ (weight>");
                proof {
                    reveal_strlit("no @ (weight>");
                }
                let ws = tenths_to_string(w, false);
                v.append(ws.as_str());
                v.append(")");
                proof {
                    reveal_strlit(")");
                    assert(v@ =~= "no @ (weight>"@ + tenths_str(w as int, false) + ")"@);
                }
                if forward {
                    if !matches!(oneway, OnewayDirection::Backward) {
                        if matches!(oneway, OnewayDirection::Forward) {
                            let mut k = String::from_str(osm_tag);
                            k.append(":conditional");
                            tags.insert(k.as_str(), v);
                        } else {
                            let mut k = String::from_str(osm_tag);
                            k.append(":forward:conditional");
                            tags.insert(k.as_str(), v);
                        }
                    }
                } else {
                    if !matches!(oneway, OnewayDirection::Forward) {
                        if matches!(oneway, OnewayDirection::Backward) {
                            let mut k = String::from_str(osm_tag);
                            k.append(":conditional");
                            tags.insert(k.as_str(), v);
                        } else {
                            let mut k = String::from_str(osm_tag);
                            k.append(":backward:conditional");
                            tags.insert(k.as_str(), v);
                        }
                    }
                }
            }
        },
        Option::None => {
            let v = String::from_str("no");
            if forward {
                if !matches!(oneway, OnewayDirection::Backward) {
                    if matches!(oneway, OnewayDirection::Forward) {
                        tags.insert(osm_tag, v);
                    } else {
                        let mut k = String::from_str(osm_tag);
                        k.append(":forward");
                        tags.insert(k.as_str(), v);
                    }
                }
            } else {
                if !matches!(oneway, OnewayDirection::Forward) {
                    if matches!(oneway, OnewayDirection::Backward) {
                        tags.insert(osm_tag, v);
                    } else {
                        let mut k = String::from_str(osm_tag);
                        k.append(":backward");
                        tags.insert(k.as_str(), v);
                    }
                }
            }
        },
    }
}

/// The vehicle-type restriction of one direction, read from the attribute
/// pair: the mapped access key and the optional weight limit in tenths.
pub open spec fn vehicle_restriction_of(
    props: Map<Seq<char>, PropView>,
    gallar: Seq<char>,
    total: Seq<char>,
) -> Option<(Seq<char>, Option<int>)> {
    match p_i64(props, gallar) {
        Option::Some(c) => match vehicle_tag(c) {
            Option::Some(t) => {
                let w = match p_tenths(props, total) {
                    Option::Some(tw) => if tw > 0 {
                        Option::Some(tw)
                    } else {
                        Option::None
                    },
                    Option::None => Option::None,
                };
                Option::Some((t, w))
            },
            Option::None => Option::None,
        },
        Option::None => Option::None,
    }
}

/// The size, weight and vehicle-type restriction rules, in order: height,
/// length, width, axle load, the directional gross-weight pair, the
/// poor-accessibility lorry ban, the bridge weight-class fallback, then
/// the per-direction vehicle-type restrictions.
pub open spec fn vehicle_restrictions_spec(
    props: Map<Seq<char>, PropView>,
    tags: Map<Seq<char>, Seq<char>>,
    oneway: OnewayDirection,
) -> Map<Seq<char>, Seq<char>> {
    if on_gcm_net(props) {
        tags
    } else {
        vehicle_restrictions_road_spec(props, tags, oneway)
    }
}

/// The size, weight and vehicle-type restriction rules on the motor
/// network.
pub open spec fn vehicle_restrictions_road_spec(
    props: Map<Seq<char>, PropView>,
    tags: Map<Seq<char>, Seq<char>>,
    oneway: OnewayDirection,
) -> Map<Seq<char>, Seq<char>> {
    let t0 = match measure_between(props, "Fri_h_143"@, 0, 100) {
        Option::Some(t) => tags.insert("maxheight"@, tenths_str(t, true)),
        Option::None => tags,
    };
    let t1 = match measure_between(props, "Hogst_46"@, 0, 500) {
        Option::Some(t) => t0.insert("maxlength"@, tenths_str(t, true)),
        Option::None => t0,
    };
    let t2 = match measure_between(props, "Hogst_36"@, 0, 100) {
        Option::Some(t) => t1.insert("maxwidth"@, tenths_str(t, true)),
        Option::None => t1,
    };
    let t3 = match measure_between(props, "Hogst_55_30"@, 0, 1000) {
        Option::Some(t) => t2.insert("maxaxleload"@, tenths_str(t, true)),
        Option::None => t2,
    };
    let wf2 = measure_between(props, "F_Hogst_24"@, 0, 1000);
    let wb2 = measure_between(props, "B_Hogst_24"@, 0, 1000);
    let t4 = match (wf2, wb2) {
        (Option::Some(a), Option::Some(b)) => {
            if a == b {
                t3.insert("maxweight"@, tenths_str(a, true))
            } else {
                t3.insert("maxweight:forward"@, tenths_str(a, true)).insert(
                    "maxweight:backward"@,
                    tenths_str(b, true),
                )
            }
        },
        (Option::Some(a), Option::None) => t3.insert("maxweight:forward"@, tenths_str(a, true)),
        (Option::None, Option::Some(b)) => t3.insert("maxweight:backward"@, tenths_str(b, true)),
        (Option::None, Option::None) => t3,
    };
    let t5 = if p_i64(props, "Framk_161"@) == Option::Some(4int) {
        t4.insert("hgv"@, "no"@)
    } else {
        t4
    };
    let t6 = if t5.dom().contains("bridge"@) && !t5.dom().contains("maxweight"@) {
        let bar = p_i64(props, "Barig_64"@);
        if bar == Option::Some(1int) {
            t5.insert("maxweight"@, "64.0"@)
        } else if bar == Option::Some(2int) {
            t5.insert("maxweight"@, "51.4"@)
        } else if bar == Option::Some(3int) {
            t5.insert("maxweight"@, "37.5"@)
        } else if bar == Option::Some(4int) {
            t5.insert("maxweight"@, "74.0"@)
        } else if bar == Option::Some(5int) {
            t5.insert("maxweight"@, "74.0"@)
        } else {
            t5
        }
    } else {
        t5
    };
    let t7 = match vehicle_restriction_of(props, "F_Gallar_135"@, "F_Total_136"@) {
        Option::Some(r) => vehicle_restriction_dir_spec(t6, oneway, r.0, r.1, true),
        Option::None => t6,
    };
    match vehicle_restriction_of(props, "B_Gallar_135"@, "B_Total_136"@) {
        Option::Some(r) => vehicle_restriction_dir_spec(t7, oneway, r.0, r.1, false),
        Option::None => t7,
    }
}

/// Apply the size, weight and vehicle-type restriction rules.
#[verifier::rlimit(80)]
pub fn map_vehicle_restrictions(props: &PropMap, tags: &mut TagMap, oneway: OnewayDirection)
    requires
        props.wf(),
        old(tags).wf(),
    ensures
        final(tags).wf(),
        final(tags)@ == vehicle_restrictions_spec(props@, old(tags)@, oneway),
{
    if on_gcm_net_exec(props) {
        return ;
    }
    match get_measure_between(props, "Fri_h_143", 0, 100) {
        Option::Some(t) => {
            tags.insert("maxheight", tenths_to_string(t, true));
        },
        Option::None => {},
    }
    match get_measure_between(props, "Hogst_46", 0, 500) {
        Option::Some(t) => {
            tags.insert("maxlength", tenths_to_string(t, true));
        },
        Option::None => {},
    }
    match get_measure_between(props, "Hogst_36", 0, 100) {
        Option::Some(t) => {
            tags.insert("maxwidth", tenths_to_string(t, true));
        },
        Option::None => {},
    }
    match get_measure_between(props, "Hogst_55_30", 0, 1000) {
        Option::Some(t) => {
            tags.insert("maxaxleload", tenths_to_string(t, true));
        },
        Option::None => {},
    }
    let wf2 = get_measure_between(props, "F_Hogst_24", 0, 1000);
    let wb2 = get_measure_between(props, "B_Hogst_24", 0, 1000);
    match (wf2, wb2) {
        (Option::Some(a), Option::Some(b)) => {
            if a == b {
                tags.insert("maxweight", tenths_to_string(a, true));
            } else {
                tags.insert("maxweight:forward", tenths_to_string(a, true));
                tags.insert("maxweight:backward", tenths_to_string(b, true));
            }
        },
        (Option::Some(a), Option::None) => {
            tags.insert("maxweight:forward", tenths_to_string(a, true));
        },
        (Option::None, Option::Some(b)) => {
            tags.insert("maxweight:backward", tenths_to_string(b, true));
        },
        (Option::None, Option::None) => {},
    }
    if get_p_i64(props, "Framk_161") == Option::Some(4i64) {
        let v = String::from_str("no");
        tags.insert("hgv", v);
    }
    if tags.contains_key("bridge") && !tags.contains_key("maxweight") {
        match get_p_i64(props, "Barig_64") {
            Option::Some(1i64) => {
                let v = String::from_str("64.0");
                tags.insert("maxweight", v);
            },
            Option::Some(2i64) => {
                let v = String::from_str("51.4");
                tags.insert("maxweight", v);
            },
            Option::Some(3i64) => {
                let v = String::from_str("37.5");
                tags.insert("maxweight", v);
            },
            Option::Some(4i64) => {
                let v = String::from_str("74.0");
                tags.insert("maxweight", v);
            },
            Option::Some(5i64) => {
                let v = String::from_str("74.0");
                tags.insert("maxweight", v);
            },
            _ => {},
        }
    }
    apply_vehicle_direction(props, tags, oneway, true);
    apply_vehicle_direction(props, tags, oneway, false);
}

/// Apply the vehicle-type restriction of one direction.
fn apply_vehicle_direction(
    props: &PropMap,
    tags: &mut TagMap,
    oneway: OnewayDirection,
    forward: bool,
)
    requires
        props.wf(),
        old(tags).wf(),
    ensures
        final(tags).wf(),
        forward ==> final(tags)@ == match vehicle_restriction_of(
            props@,
            "F_Gallar_135"@,
            "F_Total_136"@,
        ) {
            Option::Some(r) => vehicle_restriction_dir_spec(old(tags)@, oneway, r.0, r.1, true),
            Option::None => old(tags)@,
        },
        !forward ==> final(tags)@ == match vehicle_restriction_of(
            props@,
            "B_Gallar_135"@,
            "B_Total_136"@,
        ) {
            Option::Some(r) => vehicle_restriction_dir_spec(old(tags)@, oneway, r.0, r.1, false),
            Option::None => old(tags)@,
        },
{
    let gallar_key: &str = if forward {
        "F_Gallar_135"
    } else {
        "B_Gallar_135"
    };
    let total_key: &str = if forward {
        "F_Total_136"
    } else {
        "B_Total_136"
    };
    match get_p_i64(props, gallar_key) {
        Option::Some(c) => {
            match vehicle_tag_exec(c) {
                Option::Some(osm_tag) => {
                    let w: Option<i64> = match get_p_tenths(props, total_key) {
                        Option::Some(tw) => if tw > 0 {
                            Option::Some(tw)
                        } else {
                            Option::None
                        },
                        Option::None => Option::None,
                    };
                    apply_vehicle_restriction_dir(tags, oneway, osm_tag, w, forward);
                },
                Option::None => {},
            }
        },
        Option::None => {},
    }
}



/// A way length that counts as long for the bridge rules: 50 m in grid
/// units (one unit is about 11.1 mm).
pub const BRIDGE_LONG_U: u64 = 4497;

/// The mathematical value of a bridge record.
pub struct BridgeView {
    pub car_count: int,
    pub cycle_count: int,
    pub length: int,
    pub layer: Seq<char>,
    pub tag: Seq<char>,
}

impl View for crate::segment::Bridge {
    type V = BridgeView;

    open spec fn view(&self) -> BridgeView {
        BridgeView {
            car_count: self.car_count as int,
            cycle_count: self.cycle_count as int,
            length: self.length as int,
            layer: self.layer@,
            tag: self.tag@,
        }
    }
}

/// The bridge groups, keyed by bridge identity, insertion ordered.
pub struct BridgeMap {
    keys: Vec<String>,
    vals: Vec<crate::segment::Bridge>,
}

impl BridgeMap {
    /// The bridge identities, in insertion order.
    pub closed spec fn key_seq(self) -> Seq<Seq<char>> {
        self.keys@.map_values(|k: String| k@)
    }

    /// The records, in insertion order.
    pub closed spec fn val_seq(self) -> Seq<BridgeView> {
        self.vals@.map_values(|v: crate::segment::Bridge| v@)
    }

    /// Keys and values are parallel and keys are distinct.
    pub open spec fn wf(self) -> bool {
        &&& self.key_seq().len() == self.val_seq().len()
        &&& forall|a: int, b: int|
            0 <= a < b < self.key_seq().len() ==> self.key_seq()[a] != self.key_seq()[b]
    }

    /// The map this list holds.
    pub open spec fn view(self) -> Map<Seq<char>, BridgeView> {
        crate::maps::map_of(self.key_seq(), self.val_seq())
    }

    /// An empty bridge map.
    pub fn new() -> (r: BridgeMap)
        ensures
            r.wf(),
            r@ == Map::<Seq<char>, BridgeView>::empty(),
            r.key_seq() == Seq::<Seq<char>>::empty(),
    {
        let r = BridgeMap { keys: Vec::new(), vals: Vec::new() };
        proof {
            assert(r.key_seq() =~= Seq::<Seq<char>>::empty());
            assert(r.val_seq() =~= Seq::<BridgeView>::empty());
        }
        r
    }

    /// The number of groups.
    pub fn len(&self) -> (r: usize)
        ensures
            r == self.key_seq().len(),
    {
        self.keys.len()
    }

    /// The identity at a position of the insertion order.
    pub fn key_at(&self, i: usize) -> (r: &String)
        requires
            i < self.key_seq().len(),
        ensures
            r@ == self.key_seq()[i as int],
    {
        &self.keys[i]
    }

    /// The record at a position of the insertion order.
    pub fn val_at(&self, i: usize) -> (r: &crate::segment::Bridge)
        requires
            self.wf(),
            i < self.key_seq().len(),
        ensures
            r@ == self.val_seq()[i as int],
            self@.dom().contains(self.key_seq()[i as int]),
            self@[self.key_seq()[i as int]] == self.val_seq()[i as int],
    {
        proof {
            crate::maps::lemma_map_of_get(self.key_seq(), self.val_seq(), i as int);
        }
        &self.vals[i]
    }

    /// Where `key` sits in the list, if anywhere.
    fn find(&self, key: &str) -> (r: Option<usize>)
        requires
            self.key_seq().len() == self.val_seq().len(),
        ensures
            match r {
                Option::Some(i) => i < self.key_seq().len() && self.key_seq()[i as int] == key@,
                Option::None => forall|i: int|
                    0 <= i < self.key_seq().len() ==> self.key_seq()[i] != key@,
            },
    {
        let n = self.keys.len();
        let mut i: usize = 0;
        while i < n
            invariant
                i <= n,
                n == self.key_seq().len(),
                forall|k: int| 0 <= k < i ==> self.key_seq()[k] != key@,
            decreases n - i,
        {
            if str_eq(self.keys[i].as_str(), key) {
                return Option::Some(i);
            }
            i = i + 1;
        }
        Option::None
    }

    /// The record under `key`, if any.
    pub fn get(&self, key: &str) -> (r: Option<&crate::segment::Bridge>)
        requires
            self.wf(),
        ensures
            match r {
                Option::Some(v) => self@.dom().contains(key@) && self@[key@] == v@,
                Option::None => !self@.dom().contains(key@),
            },
    {
        proof {
            crate::maps::lemma_map_of_dom(self.key_seq(), self.val_seq());
        }
        match self.find(key) {
            Option::Some(i) => {
                proof {
                    crate::maps::lemma_map_of_get(self.key_seq(), self.val_seq(), i as int);
                    assert(self.key_seq().contains(key@));
                }
                Option::Some(&self.vals[i])
            },
            Option::None => {
                proof {
                    if self.key_seq().contains(key@) {
                        let i = choose|i: int|
                            0 <= i < self.key_seq().len() && self.key_seq()[i] == key@;
                    }
                }
                Option::None
            },
        }
    }

    /// Set `key` to `val`.
    pub fn insert(&mut self, key: &str, val: crate::segment::Bridge)
        requires
            old(self).wf(),
        ensures
            final(self).wf(),
            final(self)@ == old(self)@.insert(key@, val@),
            final(self).key_seq() == if old(self)@.dom().contains(key@) {
                old(self).key_seq()
            } else {
                old(self).key_seq().push(key@)
            },
    {
        proof {
            crate::maps::lemma_map_of_dom(old(self).key_seq(), old(self).val_seq());
        }
        match self.find(key) {
            Option::Some(i) => {
                proof {
                    assert(self.key_seq().contains(key@));
                }
                let ghost oldks = self.key_seq();
                let ghost oldvs = self.val_seq();
                let ghost vv = val@;
                self.vals.set(i, val);
                proof {
                    assert(self.key_seq() =~= oldks);
                    assert(self.val_seq() =~= oldvs.update(i as int, vv));
                    crate::maps::lemma_map_of_update(oldks, oldvs, i as int, vv);
                }
            },
            Option::None => {
                proof {
                    if old(self).key_seq().contains(key@) {
                        let i = choose|i: int|
                            0 <= i < old(self).key_seq().len() && old(self).key_seq()[i] == key@;
                    }
                }
                let ghost oldks = self.key_seq();
                let ghost oldvs = self.val_seq();
                let ghost vv = val@;
                let kown = key.to_owned();
                self.keys.push(kown);
                self.vals.push(val);
                proof {
                    assert(self.key_seq() =~= oldks.push(key@));
                    assert(self.val_seq() =~= oldvs.push(vv));
                    assert(self.key_seq().drop_last() =~= oldks);
                    assert(self.val_seq().drop_last() =~= oldvs);
                }
            },
        }
    }
}

/// The bridge record a segment folds into the accumulation: under-bridge
/// segments with a numeric network type count as car or cycle, over-bridge
/// segments raise the recorded length.
pub open spec fn bridge_upd(
    m: Map<Seq<char>, BridgeView>,
    props: Map<Seq<char>, PropView>,
    shape: int,
) -> Map<Seq<char>, BridgeView> {
    if props.dom().contains("Ident_191"@) && props.dom().contains("Konst_190"@) {
        let id = as_string_view(props["Ident_191"@]);
        let c = match as_i64_view(props["Konst_190"@]) {
            Option::Some(v) => v,
            Option::None => 0,
        };
        let cur = if m.dom().contains(id) {
            m[id]
        } else {
            BridgeView { car_count: 0, cycle_count: 0, length: 0, layer: "1"@, tag: "bridge"@ }
        };
        let upd = if c == 2 || c == 4 {
            match p_i64(props, "Vagtr_474"@) {
                Option::Some(net) => if net == 1 {
                    BridgeView {
                        car_count: if cur.car_count < 0x7FFF_FFFF {
                            cur.car_count + 1
                        } else {
                            cur.car_count
                        },
                        ..cur
                    }
                } else {
                    BridgeView {
                        cycle_count: if cur.cycle_count < 0x7FFF_FFFF {
                            cur.cycle_count + 1
                        } else {
                            cur.cycle_count
                        },
                        ..cur
                    }
                },
                Option::None => cur,
            }
        } else if c == 1 {
            if shape > cur.length {
                BridgeView { length: shape, ..cur }
            } else {
                cur
            }
        } else {
            cur
        };
        m.insert(id, upd)
    } else {
        m
    }
}

/// The accumulated bridge records over the first `n` segments.
pub open spec fn bridges_acc(segs: Seq<Segment>, n: int) -> Map<Seq<char>, BridgeView>
    decreases n,
{
    if n <= 0 {
        Map::empty()
    } else {
        bridge_upd(bridges_acc(segs, n - 1), segs[n - 1].properties@, segs[n - 1].shape_length as int)
    }
}

/// The tag a finished bridge group carries: a bridge when cars pass under
/// it or the deck is long, else a tunnel when only the walking and cycling
/// network passes under, else a bridge.
pub open spec fn decide_bridge(v: BridgeView) -> BridgeView {
    let t: Seq<char> = if v.car_count > 0 || v.length > BRIDGE_LONG_U as int {
        "bridge"@
    } else if v.cycle_count > 0 {
        "tunnel"@
    } else {
        "bridge"@
    };
    BridgeView { tag: t, ..v }
}

/// Collect the bridge groups of the network and decide each group's tag.
pub fn detect_bridges(segments: &Vec<Segment>) -> (r: BridgeMap)
    requires
        forall|i: int| 0 <= i < segments@.len() ==> (#[trigger] segments@[i]).wf(),
    ensures
        r.wf(),
        forall|k: Seq<char>| #[trigger]
            r@.dom().contains(k) <==> bridges_acc(segments@, segments@.len() as int).dom().contains(
                k,
            ),
        forall|k: Seq<char>| #[trigger]
            r@.dom().contains(k) ==> r@[k] == decide_bridge(
                bridges_acc(segments@, segments@.len() as int)[k],
            ),
{
    let n = segments.len();
    let mut acc = BridgeMap::new();
    let mut i: usize = 0;
    while i < n
        invariant
            i <= n,
            n == segments@.len(),
            forall|k: int| 0 <= k < segments@.len() ==> (#[trigger] segments@[k]).wf(),
            acc.wf(),
            acc@ == bridges_acc(segments@, i as int),
            forall|k: Seq<char>| #[trigger]
                acc@.dom().contains(k) ==> acc@[k].layer == "1"@ && acc@[k].tag == "bridge"@,
        decreases n - i,
    {
        let seg = &segments[i];
        let ident = seg.properties.get("Ident_191");
        let konst = seg.properties.get("Konst_190");
        match (ident, konst) {
            (Option::Some(idp), Option::Some(kp)) => {
                let id = idp.as_string();
                let c = match kp.as_i64() {
                    Option::Some(v) => v,
                    Option::None => 0,
                };
                let cur: crate::segment::Bridge = match acc.get(id.as_str()) {
                    Option::Some(b) => crate::segment::Bridge {
                        car_count: b.car_count,
                        cycle_count: b.cycle_count,
                        length: b.length,
                        layer: String::from_str("1"),
                        tag: String::from_str("bridge"),
                    },
                    Option::None => crate::segment::Bridge {
                        car_count: 0,
                        cycle_count: 0,
                        length: 0,
                        layer: String::from_str("1"),
                        tag: String::from_str("bridge"),
                    },
                };
                let upd: crate::segment::Bridge = if c == 2 || c == 4 {
                    match get_p_i64(&seg.properties, "Vagtr_474") {
                        Option::Some(net) => {
                            if net == 1 {
                                crate::segment::Bridge {
                                    car_count: if cur.car_count < 0x7FFF_FFFF {
                                        cur.car_count + 1
                                    } else {
                                        cur.car_count
                                    },
                                    ..cur
                                }
                            } else {
                                crate::segment::Bridge {
                                    cycle_count: if cur.cycle_count < 0x7FFF_FFFF {
                                        cur.cycle_count + 1
                                    } else {
                                        cur.cycle_count
                                    },
                                    ..cur
                                }
                            }
                        },
                        Option::None => cur,
                    }
                } else if c == 1 {
                    if seg.shape_length > cur.length {
                        crate::segment::Bridge { length: seg.shape_length, ..cur }
                    } else {
                        cur
                    }
                } else {
                    cur
                };
                acc.insert(id.as_str(), upd);
                proof {
                    reveal_strlit("1");
                    reveal_strlit("bridge");
                }
            },
            _ => {},
        }
        i = i + 1;
    }
    let m = acc.len();
    let mut out = BridgeMap::new();
    let mut j: usize = 0;
    while j < m
        invariant
            j <= m,
            m == acc.key_seq().len(),
            acc.wf(),
            out.wf(),
            out.key_seq() =~= acc.key_seq().subrange(0, j as int),
            forall|k: Seq<char>| #[trigger]
                out@.dom().contains(k) <==> acc.key_seq().subrange(0, j as int).contains(k),
            forall|k: Seq<char>| #[trigger]
                out@.dom().contains(k) ==> acc@.dom().contains(k) && out@[k] == decide_bridge(
                    acc@[k],
                ),
        decreases m - j,
    {
        let key = acc.key_at(j).clone();
        let b = acc.val_at(j);
        let is_bridge_tag: bool = b.car_count > 0 || b.length > BRIDGE_LONG_U;
        let decided = crate::segment::Bridge {
            car_count: b.car_count,
            cycle_count: b.cycle_count,
            length: b.length,
            layer: b.layer.clone(),
            tag: if is_bridge_tag {
                String::from_str("bridge")
            } else if b.cycle_count > 0 {
                String::from_str("tunnel")
            } else {
                String::from_str("bridge")
            },
        };
        proof {
            crate::maps::lemma_map_of_dom(out.key_seq(), out.val_seq());
            assert(!out@.dom().contains(acc.key_seq()[j as int])) by {
                if acc.key_seq().subrange(0, j as int).contains(acc.key_seq()[j as int]) {
                    let t = choose|t: int|
                        0 <= t < j && acc.key_seq().subrange(0, j as int)[t] == acc.key_seq()[j as int];
                }
            }
        }
        out.insert(key.as_str(), decided);
        proof {
            assert(out.key_seq() =~= acc.key_seq().subrange(0, j + 1));
            assert(decided@ == decide_bridge(acc@[acc.key_seq()[j as int]]));
            crate::maps::lemma_map_of_dom(out.key_seq(), out.val_seq());
            assert forall|k: Seq<char>| #[trigger]
                out@.dom().contains(k) <==> acc.key_seq().subrange(0, j + 1).contains(k) by {
                assert(out@.dom().contains(k) <==> out.key_seq().contains(k));
            }
        }
        j = j + 1;
    }
    proof {
        assert(acc.key_seq().subrange(0, m as int) =~= acc.key_seq());
        crate::maps::lemma_map_of_dom(acc.key_seq(), acc.val_seq());
        assert forall|k: Seq<char>| #[trigger]
            out@.dom().contains(k) <==> bridges_acc(segments@, segments@.len() as int).dom().contains(
                k,
            ) by {
            assert(out@.dom().contains(k) <==> acc.key_seq().contains(k));
            assert(acc@.dom().contains(k) <==> acc.key_seq().contains(k));
        }
    }
    out
}

/// The bridge and tunnel rule: over-bridge codes are bridges with the
/// group's layer; under-bridge codes become tunnels when the group decided
/// tunnel, when there is no known group and the segment is off the car
/// network or long, or always for the cycle under-bridge code.
pub open spec fn bridge_tunnel_spec(
    props: Map<Seq<char>, PropView>,
    tags: Map<Seq<char>, Seq<char>>,
    shape: int,
    bm: Map<Seq<char>, BridgeView>,
) -> Map<Seq<char>, Seq<char>> {
    if !props.dom().contains("Konst_190"@) {
        tags
    } else {
        let c = match as_i64_view(props["Konst_190"@]) {
            Option::Some(v) => v,
            Option::None => 0,
        };
        if c == 1 || c == 4 {
            let t0 = tags.insert("bridge"@, "yes"@);
            match p_str(props, "Ident_191"@) {
                Option::Some(id) => if bm.dom().contains(id) {
                    t0.insert("layer"@, bm[id].layer)
                } else {
                    t0
                },
                Option::None => t0,
            }
        } else if c == 2 || c == 3 {
            let net = p_i64_or(props, "Vagtr_474"@, 0);
            let is_long = shape > BRIDGE_LONG_U as int;
            let btag: Option<Seq<char>> = match p_str(props, "Ident_191"@) {
                Option::Some(id) => if bm.dom().contains(id) {
                    Option::Some(bm[id].tag)
                } else {
                    Option::None
                },
                Option::None => Option::None,
            };
            let should = if c == 3 {
                true
            } else {
                match btag {
                    Option::Some(t) => t == "tunnel"@,
                    Option::None => net != 1 || is_long,
                }
            };
            if should {
                tags.insert("tunnel"@, "yes"@).insert("layer"@, "-1"@)
            } else {
                tags
            }
        } else {
            tags
        }
    }
}

/// Apply the bridge and tunnel rule.
pub fn map_bridge_tunnel(props: &PropMap, tags: &mut TagMap, shape_length: u64, bridges: &BridgeMap)
    requires
        props.wf(),
        old(tags).wf(),
        bridges.wf(),
    ensures
        final(tags).wf(),
        final(tags)@ == bridge_tunnel_spec(props@, old(tags)@, shape_length as int, bridges@),
{
    let konst = match props.get("Konst_190") {
        Option::Some(kp) => kp,
        Option::None => {
            return ;
        },
    };
    let c = match konst.as_i64() {
        Option::Some(v) => v,
        Option::None => 0i64,
    };
    if c == 1 || c == 4 {
        let v = String::from_str("yes");
        tags.insert("bridge", v);
        match get_p_str(props, "Ident_191") {
            Option::Some(id) => {
                match bridges.get(id.as_str()) {
                    Option::Some(b) => {
                        tags.insert("layer", b.layer.clone());
                    },
                    Option::None => {},
                }
            },
            Option::None => {},
        }
    } else if c == 2 || c == 3 {
        let net = get_p_i64_or(props, "Vagtr_474", 0);
        let is_long = shape_length > BRIDGE_LONG_U;
        let mut should: bool = false;
        if c == 3 {
            should = true;
        } else {
            match get_p_str(props, "Ident_191") {
                Option::Some(id) => {
                    match bridges.get(id.as_str()) {
                        Option::Some(b) => {
                            should = str_eq(b.tag.as_str(), "tunnel");
                        },
                        Option::None => {
                            should = net != 1 || is_long;
                        },
                    }
                },
                Option::None => {
                    should = net != 1 || is_long;
                },
            }
        }
        if should {
            let v = String::from_str("yes");
            tags.insert("tunnel", v);
            let l = String::from_str("-1");
            tags.insert("layer", l);
        }
    }
}



/// Does the name list hold this name?
fn names_contain(names: &Vec<String>, x: &str) -> (r: bool)
    ensures
        r == names@.map_values(|s: String| s@).contains(x@),
{
    let n = names.len();
    let mut i: usize = 0;
    while i < n
        invariant
            i <= n,
            n == names@.len(),
            forall|k: int| 0 <= k < i ==> (#[trigger] names@[k])@ != x@,
        decreases n - i,
    {
        if str_eq(names[i].as_str(), x) {
            proof {
                assert(names@.map_values(|s: String| s@)[i as int] == x@);
            }
            return true;
        }
        i = i + 1;
    }
    proof {
        if names@.map_values(|s: String| s@).contains(x@) {
            let mv = names@.map_values(|s: String| s@);
            let k = choose|k: int| 0 <= k < mv.len() && mv[k] == x@;
            assert(names@[k]@ == x@);
        }
    }
    false
}

/// The ferry branch of the highway rule: route, foot and motor access, the
/// ferry category, the reference (E-prefixed for E-roads), and the ferry
/// name. This branch ends the highway rule.
pub open spec fn ferry_spec(
    props: Map<Seq<char>, PropView>,
    tags: Map<Seq<char>, Seq<char>>,
) -> Map<Seq<char>, Seq<char>> {
    let t0 = tags.insert("route"@, "ferry"@).insert("foot"@, "yes"@);
    let t1 = if p_i64_or(props, "Vagtr_474"@, 0) == 1 {
        t0.insert("motor_vehicle"@, "yes"@)
    } else {
        t0.insert("motor_vehicle"@, "no"@)
    };
    let kateg = p_i64(props, "Kateg_380"@);
    let t2 = if kateg == Option::Some(1int) || kateg == Option::Some(2int) {
        t1.insert("ferry"@, "trunk"@)
    } else if kateg == Option::Some(3int) {
        t1.insert("ferry"@, "primary"@)
    } else if kateg == Option::Some(4int) {
        t1.insert("ferry"@, "secondary"@)
    } else {
        t1
    };
    let t3 = match p_str(props, "Huvnr_556_1"@) {
        Option::Some(s) => if s.len() > 0 && s != "0"@ {
            if p_i64_or(props, "Kateg_380"@, 0) == 1 {
                t2.insert("ref"@, "E "@ + s)
            } else {
                t2.insert("ref"@, s)
            }
        } else {
            t2
        },
        Option::None => t2,
    };
    match p_str(props, "Farje_139"@) {
        Option::Some(s) => match name_ok(s) {
            Option::Some(nm) => t3.insert("name"@, nm),
            Option::None => t3,
        },
        Option::None => t3,
    }
}

/// The walking-and-cycling branch of the highway rule: sidewalk override,
/// the full GCM type table, the footway-network swap, the naming policy
/// against the motor street names, lighting, the cycle route name, and
/// bridge naming. This branch ends the highway rule.
pub open spec fn gcm_classify_spec(
    props: Map<Seq<char>, PropView>,
    tags: Map<Seq<char>, Seq<char>>,
    net: int,
) -> Map<Seq<char>, Seq<char>> {
    if p_i64_or(props, "L_Separ_500"@, 0) == 1 || p_i64_or(props, "R_Separ_500"@, 0) == 1 {
        tags.insert("highway"@, "footway"@).insert("footway"@, "sidewalk"@)
    } else {
        match p_i64(props, "GCM_t_502"@) {
            Option::Some(g) => gcm_table(tags, net, g),
            Option::None => if net == 2 {
                tags.insert("highway"@, "cycleway"@)
            } else {
                tags.insert("highway"@, "footway"@)
            },
        }
    }
}

/// The tail of the walking-and-cycling branch, after classification.
pub open spec fn gcm_post_spec(
    props: Map<Seq<char>, PropView>,
    t0: Map<Seq<char>, Seq<char>>,
    names: Set<Seq<char>>,
    net: int,
) -> Map<Seq<char>, Seq<char>> {
    let t1 = if net == 4 && t0.dom().contains("highway"@) && t0["highway"@] == "cycleway"@ {
        let ta = t0.insert("highway"@, "footway"@);
        if ta.dom().contains("cycleway"@) {
            ta.remove("cycleway"@).insert("footway"@, ta["cycleway"@])
        } else {
            ta
        }
    } else {
        t0
    };
    let t2 = match p_str(props, "Namn_130"@) {
        Option::Some(s) => match name_ok(s) {
            Option::Some(nm) => {
                let hw: Seq<char> = if t1.dom().contains("highway"@) {
                    t1["highway"@]
                } else {
                    Seq::empty()
                };
                if hw == "pedestrian"@ || crate::strutil::contains_seq(
                    crate::strutil::lower_of(nm),
                    "stig"@,
                ) || crate::strutil::contains_seq(crate::strutil::lower_of(nm), "g\u{e5}ng"@)
                    || crate::strutil::contains_seq(crate::strutil::lower_of(nm), "park"@)
                    || !names.contains(nm) {
                    t1.insert("name"@, nm)
                } else {
                    t1
                }
            },
            Option::None => t1,
        },
        Option::None => t1,
    };
    let t3 = if p_i64_or(props, "GCM_belyst"@, 0) > 0 && t2.dom().contains("highway"@) {
        t2.insert("lit"@, "yes"@)
    } else {
        t2
    };
    let t4 = match p_str(props, "Namn_457"@) {
        Option::Some(s) => match name_ok(s) {
            Option::Some(nm) => if t3.dom().contains("highway"@) && t3["highway"@]
                == "cycleway"@ {
                t3.insert("cycleway:name"@, nm)
            } else {
                t3
            },
            Option::None => t3,
        },
        Option::None => t3,
    };
    if t4.dom().contains("bridge"@) {
        let t5 = match p_str(props, "Namn_132"@) {
            Option::Some(s) => if s.len() > 0 && crate::strutil::contains_seq(s, "bron"@) {
                t4.insert("bridge:name"@, trim_of(s))
            } else {
                t4
            },
            Option::None => t4,
        };
        match p_str(props, "Namn_193"@) {
            Option::Some(s) => if s.len() > 0 {
                t5.insert("description"@, trim_of(s))
            } else {
                t5
            },
            Option::None => t5,
        }
    } else {
        t4
    }
}

/// The whole walking-and-cycling branch of the highway rule.
pub open spec fn gcm_spec(
    props: Map<Seq<char>, PropView>,
    tags: Map<Seq<char>, Seq<char>>,
    names: Set<Seq<char>>,
    net: int,
) -> Map<Seq<char>, Seq<char>> {
    gcm_post_spec(props, gcm_classify_spec(props, tags, net), names, net)
}

/// The GCM type table: what one type code sets.
pub open spec fn gcm_table(
    tags: Map<Seq<char>, Seq<char>>,
    net: int,
    g: int,
) -> Map<Seq<char>, Seq<char>> {
    if g == 1 || g == 2 || g == 3 || g == 5 || g == 8 || g == 9 || g == 13 || g == 15 {
        tags.insert("highway"@, "cycleway"@)
    } else if g == 4 || g == 10 || g == 11 {
        tags.insert("highway"@, "footway"@)
    } else if g == 12 {
        tags.insert("highway"@, "footway"@).insert("footway"@, "sidewalk"@)
    } else if g == 14 {
        tags.insert("highway"@, "footway"@).insert("covered"@, "yes"@)
    } else if g == 16 {
        tags.insert("highway"@, "platform"@)
    } else if g == 17 {
        tags.insert("highway"@, "steps"@)
    } else if g == 18 || g == 19 {
        tags.insert("highway"@, "footway"@).insert("conveying"@, "yes"@)
    } else if g == 20 || g == 21 {
        tags.insert("highway"@, "elevator"@)
    } else if g == 22 {
        tags.insert("aerialway"@, "cable_car"@)
    } else if g == 23 {
        tags.insert("railway"@, "furnicular"@)
    } else if g == 24 || g == 26 {
        tags.insert("highway"@, "pedestrian"@)
    } else if g == 25 {
        tags.insert("highway"@, "footway"@)
    } else if g == 27 {
        tags.insert("route"@, "ferry"@).insert("foot"@, "yes"@).insert("motor_vehicle"@, "no"@)
    } else if g == 28 {
        tags.insert("highway"@, "cycleway"@)
    } else if g == 29 {
        tags.insert("highway"@, "cycleway"@).insert("foot"@, "no"@)
    } else if net == 2 {
        tags.insert("highway"@, "cycleway"@)
    } else {
        tags.insert("highway"@, "footway"@)
    }
}

/// The motor-road branch of the highway rule: the road category ladder,
/// pedestrian and living streets, the functional class, and the private
/// road, service and track classification.
pub open spec fn road_spec(
    props: Map<Seq<char>, PropView>,
    tags: Map<Seq<char>, Seq<char>>,
) -> Map<Seq<char>, Seq<char>> {
    let kateg = p_i64(props, "Kateg_380"@);
    if kateg == Option::Some(1int) || kateg == Option::Some(2int) {
        tags.insert("highway"@, "trunk"@)
    } else if kateg == Option::Some(3int) {
        tags.insert("highway"@, "primary"@)
    } else if kateg == Option::Some(4int) {
        tags.insert("highway"@, "secondary"@)
    } else if p_truthy(props, "L_Gagata"@) || p_truthy(props, "R_Gagata"@) {
        tags.insert("highway"@, "pedestrian"@)
    } else if p_truthy(props, "L_Gangfartsomrade"@) || p_truthy(props, "R_Gangfartsomrade"@) {
        tags.insert("highway"@, "living_street"@)
    } else if (match p_i64(props, "Klass_181"@) {
        Option::Some(k) => 0 < k < 6,
        Option::None => false,
    }) {
        tags.insert("highway"@, "tertiary"@)
    } else {
        let vagha = p_i64_or(props, "Vagha_6"@, 0);
        let klass = p_i64_or(props, "Klass_181"@, 0);
        let tillg = p_i64_or(props, "Tillg_169"@, 0);
        let has_namn = match p_str(props, "Namn_130"@) {
            Option::Some(s) => s.len() > 0 && s != "NA"@,
            Option::None => false,
        };
        let slitl = p_i64_or(props, "Slitl_152"@, 0);
        let tatt = p_i64_or(props, "TattbebyggtOmrade"@, 0);
        let has_vagnr = match p_str(props, "Vagnr_10370"@) {
            Option::Some(s) => s.len() > 0 && s != "0"@ && s != "NA"@,
            Option::None => false,
        };
        if vagha == 3 {
            if (klass > 0 && klass < 8) || has_vagnr || (klass == 8 && tillg == 0) {
                if tatt == 1 || tatt == -1 {
                    tags.insert("highway"@, "residential"@)
                } else {
                    tags.insert("highway"@, "unclassified"@)
                }
            } else if tillg > 0 && !has_namn && slitl != 1 {
                tags.insert("highway"@, "track"@)
            } else {
                tags.insert("highway"@, "service"@)
            }
        } else if tillg > 0 && !has_namn && slitl != 1 {
            tags.insert("highway"@, "track"@)
        } else if klass == 9 || (klass == 8 && tillg > 0) {
            tags.insert("highway"@, "service"@)
        } else if tatt == 1 || tatt == -1 {
            tags.insert("highway"@, "residential"@)
        } else {
            tags.insert("highway"@, "unclassified"@)
        }
    }
}

/// The highway classification rule: ferry, walking-and-cycling network, or
/// motor road, in that order of precedence.
pub open spec fn highway_spec(
    props: Map<Seq<char>, PropView>,
    tags: Map<Seq<char>, Seq<char>>,
    names: Set<Seq<char>>,
) -> Map<Seq<char>, Seq<char>> {
    if p_truthy(props, "Farjeled"@) {
        ferry_spec(props, tags)
    } else {
        let net = p_i64_or(props, "Vagtr_474"@, 1);
        if net == 2 || net == 4 {
            gcm_spec(props, tags, names, net)
        } else {
            road_spec(props, tags)
        }
    }
}

/// Apply the highway classification rule.
#[verifier::rlimit(100)]
pub fn map_highway(props: &PropMap, tags: &mut TagMap, street_names: &Vec<String>)
    requires
        props.wf(),
        old(tags).wf(),
    ensures
        final(tags).wf(),
        final(tags)@ == highway_spec(
            props@,
            old(tags)@,
            Set::new(|x: Seq<char>| street_names@.map_values(|s: String| s@).contains(x)),
        ),
{
    if get_p_truthy(props, "Farjeled") {
        let v1 = String::from_str("ferry");
        tags.insert("route", v1);
        let v2 = String::from_str("yes");
        tags.insert("foot", v2);
        if get_p_i64_or(props, "Vagtr_474", 0) == 1 {
            let v = String::from_str("yes");
            tags.insert("motor_vehicle", v);
        } else {
            let v = String::from_str("no");
            tags.insert("motor_vehicle", v);
        }
        let kateg = get_p_i64(props, "Kateg_380");
        if kateg == Option::Some(1i64) || kateg == Option::Some(2i64) {
            let v = String::from_str("trunk");
            tags.insert("ferry", v);
        } else if kateg == Option::Some(3i64) {
            let v = String::from_str("primary");
            tags.insert("ferry", v);
        } else if kateg == Option::Some(4i64) {
            let v = String::from_str("secondary");
            tags.insert("ferry", v);
        }
        match get_p_str(props, "Huvnr_556_1") {
            Option::Some(s) => {
                if s.as_str().unicode_len() > 0 && !str_eq(s.as_str(), "0") {
                    if get_p_i64_or(props, "Kateg_380", 0) == 1 {
                        let mut v = String::from_str("E ");
                        proof {
                            reveal_strlit("E ");
                        }
                        v.append(s.as_str());
                        tags.insert("ref", v);
                    } else {
                        tags.insert("ref", s);
                    }
                }
            },
            Option::None => {},
        }
        match get_p_str(props, "Farje_139") {
            Option::Some(s) => {
                match name_ok_exec(&s) {
                    Option::Some(nm) => {
                        tags.insert("name", nm);
                    },
                    Option::None => {},
                }
            },
            Option::None => {},
        }
        return ;
    }
    let net = get_p_i64_or(props, "Vagtr_474", 1);
    if net == 2 || net == 4 {
        map_highway_gcm(props, tags, street_names, net);
        return ;
    }
    map_highway_road(props, tags);
}

/// Apply the walking-and-cycling branch of the highway rule.
#[verifier::rlimit(100)]
fn map_highway_gcm(props: &PropMap, tags: &mut TagMap, street_names: &Vec<String>, net: i64)
    requires
        props.wf(),
        old(tags).wf(),
    ensures
        final(tags).wf(),
        final(tags)@ == gcm_spec(
            props@,
            old(tags)@,
            Set::new(|x: Seq<char>| street_names@.map_values(|s: String| s@).contains(x)),
            net as int,
        ),
{
    map_highway_gcm_classify(props, tags, net);
    map_highway_gcm_post(props, tags, street_names, net);
}

/// Apply the classification head of the walking-and-cycling branch.
#[verifier::rlimit(100)]
fn map_highway_gcm_classify(props: &PropMap, tags: &mut TagMap, net: i64)
    requires
        props.wf(),
        old(tags).wf(),
    ensures
        final(tags).wf(),
        final(tags)@ == gcm_classify_spec(props@, old(tags)@, net as int),
{
    if get_p_i64_or(props, "L_Separ_500", 0) == 1 || get_p_i64_or(props, "R_Separ_500", 0) == 1 {
        let v = String::from_str("footway");
        tags.insert("highway", v);
        let v2 = String::from_str("sidewalk");
        tags.insert("footway", v2);
    } else {
        match get_p_i64(props, "GCM_t_502") {
            Option::Some(g) => {
                if g == 1 || g == 2 || g == 3 || g == 5 || g == 8 || g == 9 || g == 13 || g == 15 {
                    let v = String::from_str("cycleway");
                    tags.insert("highway", v);
                } else if g == 4 || g == 10 || g == 11 {
                    let v = String::from_str("footway");
                    tags.insert("highway", v);
                } else if g == 12 {
                    let v = String::from_str("footway");
                    tags.insert("highway", v);
                    let v2 = String::from_str("sidewalk");
                    tags.insert("footway", v2);
                } else if g == 14 {
                    let v = String::from_str("footway");
                    tags.insert("highway", v);
                    let v2 = String::from_str("yes");
                    tags.insert("covered", v2);
                } else if g == 16 {
                    let v = String::from_str("platform");
                    tags.insert("highway", v);
                } else if g == 17 {
                    let v = String::from_str("steps");
                    tags.insert("highway", v);
                } else if g == 18 || g == 19 {
                    let v = String::from_str("footway");
                    tags.insert("highway", v);
                    let v2 = String::from_str("yes");
                    tags.insert("conveying", v2);
                } else if g == 20 || g == 21 {
                    let v = String::from_str("elevator");
                    tags.insert("highway", v);
                } else if g == 22 {
                    let v = String::from_str("cable_car");
                    tags.insert("aerialway", v);
                } else if g == 23 {
                    let v = String::from_str("furnicular");
                    tags.insert("railway", v);
                } else if g == 24 || g == 26 {
                    let v = String::from_str("pedestrian");
                    tags.insert("highway", v);
                } else if g == 25 {
                    let v = String::from_str("footway");
                    tags.insert("highway", v);
                } else if g == 27 {
                    let v = String::from_str("ferry");
                    tags.insert("route", v);
                    let v2 = String::from_str("yes");
                    tags.insert("foot", v2);
                    let v3 = String::from_str("no");
                    tags.insert("motor_vehicle", v3);
                } else if g == 28 {
                    let v = String::from_str("cycleway");
                    tags.insert("highway", v);
                } else if g == 29 {
                    let v = String::from_str("cycleway");
                    tags.insert("highway", v);
                    let v2 = String::from_str("no");
                    tags.insert("foot", v2);
                } else if net == 2 {
                    let v = String::from_str("cycleway");
                    tags.insert("highway", v);
                } else {
                    let v = String::from_str("footway");
                    tags.insert("highway", v);
                }
            },
            Option::None => {
                if net == 2 {
                    let v = String::from_str("cycleway");
                    tags.insert("highway", v);
                } else {
                    let v = String::from_str("footway");
                    tags.insert("highway", v);
                }
            },
        }
    }
}

/// Apply the tail of the walking-and-cycling branch.
#[verifier::rlimit(100)]
fn map_highway_gcm_post(props: &PropMap, tags: &mut TagMap, street_names: &Vec<String>, net: i64)
    requires
        props.wf(),
        old(tags).wf(),
    ensures
        final(tags).wf(),
        final(tags)@ == gcm_post_spec(
            props@,
            old(tags)@,
            Set::new(|x: Seq<char>| street_names@.map_values(|s: String| s@).contains(x)),
            net as int,
        ),
{
    let ghost g0 = old(tags)@;
    if net == 4 {
        let is_cw: bool = match tags.get("highway") {
            Option::Some(h) => str_eq(h.as_str(), "cycleway"),
            Option::None => false,
        };
        if is_cw {
            let v = String::from_str("footway");
            tags.insert("highway", v);
            match tags.remove("cycleway") {
                Option::Some(sub) => {
                    tags.insert("footway", sub);
                },
                Option::None => {},
            }
        }
    }
    proof {
        assert(tags@ == (if net as int == 4 && g0.dom().contains("highway"@) && g0["highway"@]
            == "cycleway"@ {
            let ta = g0.insert("highway"@, "footway"@);
            if ta.dom().contains("cycleway"@) {
                ta.remove("cycleway"@).insert("footway"@, ta["cycleway"@])
            } else {
                ta
            }
        } else {
            g0
        }));
    }
    let ghost g1 = tags@;
    let ghost names_set = Set::new(|x: Seq<char>| street_names@.map_values(|s: String| s@).contains(x));
    proof {
        reveal_strlit("pedestrian");
    }
    match get_p_str(props, "Namn_130") {
        Option::Some(s) => {
            match name_ok_exec(&s) {
                Option::Some(nm) => {
                    let is_ped: bool = match tags.get("highway") {
                        Option::Some(h) => str_eq(h.as_str(), "pedestrian"),
                        Option::None => false,
                    };
                    proof {
                        let hw: Seq<char> = if g1.dom().contains("highway"@) {
                            g1["highway"@]
                        } else {
                            Seq::empty()
                        };
                        assert(is_ped == (hw == "pedestrian"@)) by {
                            if !g1.dom().contains("highway"@) {
                                assert("pedestrian"@.len() == 10);
                            }
                        }
                    }
                    let c1 = crate::strutil::contains_sub_lower(nm.as_str(), "stig");
                    let c2 = crate::strutil::contains_sub_lower(nm.as_str(), "g\u{e5}ng");
                    let c3 = crate::strutil::contains_sub_lower(nm.as_str(), "park");
                    let c4 = names_contain(street_names, nm.as_str());
                    if is_ped || c1 || c2 || c3 || !c4 {
                        tags.insert("name", nm);
                    }
                },
                Option::None => {},
            }
        },
        Option::None => {},
    }
    proof {
        assert(tags@ == (match p_str(props@, "Namn_130"@) {
            Option::Some(s) => match name_ok(s) {
                Option::Some(nm) => {
                    let hw: Seq<char> = if g1.dom().contains("highway"@) {
                        g1["highway"@]
                    } else {
                        Seq::empty()
                    };
                    if hw == "pedestrian"@ || crate::strutil::contains_seq(
                        crate::strutil::lower_of(nm),
                        "stig"@,
                    ) || crate::strutil::contains_seq(crate::strutil::lower_of(nm), "g\u{e5}ng"@)
                        || crate::strutil::contains_seq(crate::strutil::lower_of(nm), "park"@)
                        || !names_set.contains(nm) {
                        g1.insert("name"@, nm)
                    } else {
                        g1
                    }
                },
                Option::None => g1,
            },
            Option::None => g1,
        }));
    }
    let ghost g2 = tags@;
    if get_p_i64_or(props, "GCM_belyst", 0) > 0 && tags.contains_key("highway") {
        let v = String::from_str("yes");
        tags.insert("lit", v);
    }
    proof {
        assert(tags@ == (if p_i64_or(props@, "GCM_belyst"@, 0) > 0 && g2.dom().contains(
            "highway"@,
        ) {
            g2.insert("lit"@, "yes"@)
        } else {
            g2
        }));
    }
    match get_p_str(props, "Namn_457") {
        Option::Some(s) => {
            match name_ok_exec(&s) {
                Option::Some(nm) => {
                    let is_cw: bool = match tags.get("highway") {
                        Option::Some(h) => str_eq(h.as_str(), "cycleway"),
                        Option::None => false,
                    };
                    if is_cw {
                        tags.insert("cycleway:name", nm);
                    }
                },
                Option::None => {},
            }
        },
        Option::None => {},
    }
    if tags.contains_key("bridge") {
        match get_p_str(props, "Namn_132") {
            Option::Some(s) => {
                if s.as_str().unicode_len() > 0 && crate::strutil::contains_sub(
                    s.as_str(),
                    "bron",
                ) {
                    tags.insert("bridge:name", trim(s.as_str()));
                }
            },
            Option::None => {},
        }
        match get_p_str(props, "Namn_193") {
            Option::Some(s) => {
                if s.as_str().unicode_len() > 0 {
                    tags.insert("description", trim(s.as_str()));
                }
            },
            Option::None => {},
        }
    }
}

/// Apply the motor-road branch of the highway rule.
#[verifier::rlimit(100)]
fn map_highway_road(props: &PropMap, tags: &mut TagMap)
    requires
        props.wf(),
        old(tags).wf(),
    ensures
        final(tags).wf(),
        final(tags)@ == road_spec(props@, old(tags)@),
{
    let kateg = get_p_i64(props, "Kateg_380");
    if kateg == Option::Some(1i64) || kateg == Option::Some(2i64) {
        let v = String::from_str("trunk");
        tags.insert("highway", v);
        return ;
    }
    if kateg == Option::Some(3i64) {
        let v = String::from_str("primary");
        tags.insert("highway", v);
        return ;
    }
    if kateg == Option::Some(4i64) {
        let v = String::from_str("secondary");
        tags.insert("highway", v);
        return ;
    }
    if get_p_truthy(props, "L_Gagata") || get_p_truthy(props, "R_Gagata") {
        let v = String::from_str("pedestrian");
        tags.insert("highway", v);
        return ;
    }
    if get_p_truthy(props, "L_Gangfartsomrade") || get_p_truthy(props, "R_Gangfartsomrade") {
        let v = String::from_str("living_street");
        tags.insert("highway", v);
        return ;
    }
    match get_p_i64(props, "Klass_181") {
        Option::Some(k) => {
            if 0 < k && k < 6 {
                let v = String::from_str("tertiary");
                tags.insert("highway", v);
                return ;
            }
        },
        Option::None => {},
    }
    let vagha = get_p_i64_or(props, "Vagha_6", 0);
    let klass = get_p_i64_or(props, "Klass_181", 0);
    let tillg = get_p_i64_or(props, "Tillg_169", 0);
    let has_namn: bool = match get_p_str(props, "Namn_130") {
        Option::Some(s) => s.as_str().unicode_len() > 0 && !str_eq(s.as_str(), "NA"),
        Option::None => false,
    };
    let slitl = get_p_i64_or(props, "Slitl_152", 0);
    let tatt = get_p_i64_or(props, "TattbebyggtOmrade", 0);
    let has_vagnr: bool = match get_p_str(props, "Vagnr_10370") {
        Option::Some(s) => s.as_str().unicode_len() > 0 && !str_eq(s.as_str(), "0") && !str_eq(
            s.as_str(),
            "NA",
        ),
        Option::None => false,
    };
    if vagha == 3 {
        if (klass > 0 && klass < 8) || has_vagnr || (klass == 8 && tillg == 0) {
            if tatt == 1 || tatt == -1 {
                let v = String::from_str("residential");
                tags.insert("highway", v);
            } else {
                let v = String::from_str("unclassified");
                tags.insert("highway", v);
            }
        } else if tillg > 0 && !has_namn && slitl != 1 {
            let v = String::from_str("track");
            tags.insert("highway", v);
        } else {
            let v = String::from_str("service");
            tags.insert("highway", v);
        }
        return ;
    }
    if tillg > 0 && !has_namn && slitl != 1 {
        let v = String::from_str("track");
        tags.insert("highway", v);
        return ;
    }
    if klass == 9 || (klass == 8 && tillg > 0) {
        let v = String::from_str("service");
        tags.insert("highway", v);
        return ;
    }
    if tatt == 1 || tatt == -1 {
        let v = String::from_str("residential");
        tags.insert("highway", v);
    } else {
        let v = String::from_str("unclassified");
        tags.insert("highway", v);
    }
}

/// The names of motor-network streets: the usable street names of segments
/// on network type one.
pub open spec fn seg_has_street_name(seg: Segment, x: Seq<char>) -> bool {
    p_i64_or(seg.properties@, "Vagtr_474"@, 0) == 1 && match p_str(seg.properties@, "Namn_130"@) {
        Option::Some(s) => name_ok(s) == Option::Some(x),
        Option::None => false,
    }
}

/// A name is a street name when some segment carries it.
pub open spec fn is_street_name(segs: Seq<Segment>, x: Seq<char>) -> bool {
    exists|i: int| 0 <= i < segs.len() && seg_has_street_name(#[trigger] segs[i], x)
}

/// Extending the prefix by one segment extends the street names by that
/// segment's name.
proof fn lemma_street_split(segs: Seq<Segment>, i: int)
    requires
        0 <= i < segs.len(),
    ensures
        forall|x: Seq<char>| #[trigger]
            is_street_name(segs.subrange(0, i + 1), x) <==> (is_street_name(
                segs.subrange(0, i),
                x,
            ) || seg_has_street_name(segs[i], x)),
{
    let sub0 = segs.subrange(0, i);
    let sub1 = segs.subrange(0, i + 1);
    assert forall|x: Seq<char>| #[trigger]
        is_street_name(sub1, x) <==> (is_street_name(sub0, x) || seg_has_street_name(
            segs[i],
            x,
        )) by {
        if is_street_name(sub1, x) {
            let w = choose|w: int| 0 <= w < sub1.len() && seg_has_street_name(#[trigger] sub1[w], x);
            if w < i {
                assert(sub0[w] == sub1[w]);
                assert(seg_has_street_name(sub0[w], x));
            } else {
                assert(sub1[w] == segs[i]);
            }
        }
        if is_street_name(sub0, x) {
            let w = choose|w: int| 0 <= w < sub0.len() && seg_has_street_name(#[trigger] sub0[w], x);
            assert(sub1[w] == sub0[w]);
            assert(seg_has_street_name(sub1[w], x));
        }
        if seg_has_street_name(segs[i], x) {
            assert(sub1[i] == segs[i]);
            assert(seg_has_street_name(sub1[i], x));
        }
    }
}

/// Pushing onto a sequence adds exactly one member.
proof fn lemma_push_contains<A>(s: Seq<A>, a: A)
    ensures
        forall|x: A| #[trigger] s.push(a).contains(x) <==> (s.contains(x) || x == a),
{
    assert forall|x: A| #[trigger] s.push(a).contains(x) <==> (s.contains(x) || x == a) by {
        if s.push(a).contains(x) {
            let t = choose|t: int| 0 <= t < s.push(a).len() && s.push(a)[t] == x;
            if t < s.len() {
                assert(s[t] == x);
            }
        }
        if s.contains(x) {
            let t = choose|t: int| 0 <= t < s.len() && s[t] == x;
            assert(s.push(a)[t] == x);
        }
        if x == a {
            assert(s.push(a)[s.len() as int] == x);
        }
    }
}

/// Collect the motor street names used by the cycleway naming policy.
pub fn build_street_names(segments: &Vec<Segment>) -> (r: Vec<String>)
    requires
        forall|i: int| 0 <= i < segments@.len() ==> (#[trigger] segments@[i]).wf(),
    ensures
        forall|x: Seq<char>|
            r@.map_values(|s: String| s@).contains(x) <==> #[trigger] is_street_name(segments@, x),
{
    let n = segments.len();
    let mut out: Vec<String> = Vec::new();
    let mut i: usize = 0;
    while i < n
        invariant
            i <= n,
            n == segments@.len(),
            forall|k: int| 0 <= k < segments@.len() ==> (#[trigger] segments@[k]).wf(),
            forall|x: Seq<char>|
                out@.map_values(|s: String| s@).contains(x) <==> #[trigger] is_street_name(
                    segments@.subrange(0, i as int),
                    x,
                ),
        decreases n - i,
    {
        let ghost pre = out@.map_values(|s: String| s@);
        let seg = &segments[i];
        let mut added: bool = false;
        let ghost mut addedname: Seq<char> = Seq::empty();
        if get_p_i64_or(&seg.properties, "Vagtr_474", 0) == 1 {
            match get_p_str(&seg.properties, "Namn_130") {
                Option::Some(s) => {
                    match name_ok_exec(&s) {
                        Option::Some(nm) => {
                            proof {
                                addedname = nm@;
                            }
                            out.push(nm);
                            added = true;
                        },
                        Option::None => {},
                    }
                },
                Option::None => {},
            }
        }
        proof {
            let cur = out@.map_values(|s: String| s@);
            lemma_street_split(segments@, i as int);
            if added {
                assert(cur =~= pre.push(addedname));
                lemma_push_contains(pre, addedname);
                assert(seg_has_street_name(segments@[i as int], addedname));
                assert forall|x: Seq<char>|
                    seg_has_street_name(segments@[i as int], x) implies x == addedname by {}
            } else {
                assert(cur =~= pre);
                assert forall|x: Seq<char>|
                    !seg_has_street_name(segments@[i as int], x) by {}
            }
        }
        i = i + 1;
    }
    proof {
        assert(segments@.subrange(0, n as int) =~= segments@);
    }
    out
}

/// The isolated-track afterpass: a service road with an accessibility
/// class, no street name and an unpaved surface becomes a track.
pub open spec fn isolated_track_spec(
    props: Map<Seq<char>, PropView>,
    tags: Map<Seq<char>, Seq<char>>,
) -> Map<Seq<char>, Seq<char>> {
    if tags.dom().contains("highway"@) && tags["highway"@] == "service"@ {
        let tillg = p_i64_or(props, "Tillg_169"@, 0);
        let has_namn = match p_str(props, "Namn_130"@) {
            Option::Some(s) => s.len() > 0 && s != "NA"@,
            Option::None => false,
        };
        let slitl = p_i64_or(props, "Slitl_152"@, 0);
        if tillg > 0 && !has_namn && slitl != 1 {
            tags.insert("highway"@, "track"@)
        } else {
            tags
        }
    } else {
        tags
    }
}

/// Apply the isolated-track afterpass to one segment's tags.
pub fn tag_isolated_tracks_one(props: &PropMap, tags: &mut TagMap)
    requires
        props.wf(),
        old(tags).wf(),
    ensures
        final(tags).wf(),
        final(tags)@ == isolated_track_spec(props@, old(tags)@),
{
    let is_service: bool = match tags.get("highway") {
        Option::Some(h) => str_eq(h.as_str(), "service"),
        Option::None => false,
    };
    if is_service {
        let tillg = get_p_i64_or(props, "Tillg_169", 0);
        let has_namn: bool = match get_p_str(props, "Namn_130") {
            Option::Some(s) => s.as_str().unicode_len() > 0 && !str_eq(s.as_str(), "NA"),
            Option::None => false,
        };
        let slitl = get_p_i64_or(props, "Slitl_152", 0);
        if tillg > 0 && !has_namn && slitl != 1 {
            let v = String::from_str("track");
            tags.insert("highway", v);
        }
    }
}



/// The set of motor street names of a network.
pub open spec fn street_name_set(segs: Seq<Segment>) -> Set<Seq<char>> {
    Set::new(|x: Seq<char>| is_street_name(segs, x))
}

/// The decided bridge groups of a network.
pub open spec fn decided_bridges(segs: Seq<Segment>) -> Map<Seq<char>, BridgeView> {
    let acc = bridges_acc(segs, segs.len() as int);
    Map::new(|k: Seq<char>| acc.dom().contains(k), |k: Seq<char>| decide_bridge(acc[k]))
}

/// The whole rule pipeline applied to one segment's tags, in order.
pub open spec fn pipeline_tags(
    props: Map<Seq<char>, PropView>,
    tags0: Map<Seq<char>, Seq<char>>,
    shape: int,
    bm: Map<Seq<char>, BridgeView>,
    names: Set<Seq<char>>,
) -> Map<Seq<char>, Seq<char>> {
    let d = oneway_decision(props);
    let t1 = bridge_tunnel_spec(props, tags0, shape, bm);
    let t2 = if d != OnewayDirection::TwoWay {
        t1.insert("oneway"@, "yes"@)
    } else {
        t1
    };
    let t3 = highway_spec(props, t2, names);
    let t4 = motorway_override_spec(props, t3);
    let t5 = highway_links_spec(props, t4);
    let t6 = ref_spec(props, t5);
    let t7 = roundabout_spec(props, t6, d);
    let t8 = maxspeed_spec(props, t7, d);
    let t9 = motor_vehicle_access_spec(props, t8, d);
    let t10 = vehicle_restrictions_spec(props, t9, d);
    let t11 = hazmat_spec(props, t10, d);
    let t12 = overtaking_spec(props, t11, d);
    let t13 = lanes_spec(props, t12, d);
    let t14 = surface_spec(props, t13);
    let t15 = width_spec(props, t14);
    let t16 = priority_road_spec(props, t15);
    let t17 = bicycle_designated_spec(props, t16);
    let t18 = low_emission_zone_spec(props, t17);
    let t19 = name_spec(props, t18);
    let t20 = bridge_tunnel_names_spec(props, t19);
    let t21 = lit_spec(props, t20);
    let t22 = layer_spec(t21);
    isolated_track_spec(props, t22)
}

/// Run the whole rule pipeline on one segment.
pub fn process_segment(seg: &mut Segment, bridges: &BridgeMap, street_names: &Vec<String>)
    requires
        old(seg).wf(),
        old(seg).oneway_direction == OnewayDirection::TwoWay,
        bridges.wf(),
    ensures
        final(seg).wf(),
        final(seg).tags@ == pipeline_tags(
            old(seg).properties@,
            old(seg).tags@,
            old(seg).shape_length as int,
            bridges@,
            Set::new(|x: Seq<char>| street_names@.map_values(|s: String| s@).contains(x)),
        ),
        final(seg).oneway_direction == oneway_decision(old(seg).properties@),
        final(seg).properties == old(seg).properties,
        final(seg).shape_length == old(seg).shape_length,
        final(seg).internal_node_ids == old(seg).internal_node_ids,
        oneway_decision(old(seg).properties@) == OnewayDirection::Backward ==> final(seg).geometry@
            == old(seg).geometry@.reverse(),
        oneway_decision(old(seg).properties@) != OnewayDirection::Backward ==> final(seg).geometry@
            == old(seg).geometry@,
{
    let shape = seg.shape_length;
    map_bridge_tunnel(&seg.properties, &mut seg.tags, shape, bridges);
    map_oneway(seg);
    let d = seg.oneway_direction;
    map_highway(&seg.properties, &mut seg.tags, street_names);
    map_motorway_override(&seg.properties, &mut seg.tags);
    map_highway_links(&seg.properties, &mut seg.tags);
    map_ref(&seg.properties, &mut seg.tags);
    map_roundabout(&seg.properties, &mut seg.tags, d);
    map_maxspeed(&seg.properties, &mut seg.tags, d);
    map_motor_vehicle_access(&seg.properties, &mut seg.tags, d);
    map_vehicle_restrictions(&seg.properties, &mut seg.tags, d);
    map_hazmat(&seg.properties, &mut seg.tags, d);
    map_overtaking_restrictions(&seg.properties, &mut seg.tags, d);
    map_lanes(&seg.properties, &mut seg.tags, d);
    map_surface(&seg.properties, &mut seg.tags);
    map_width(&seg.properties, &mut seg.tags);
    map_priority_road(&seg.properties, &mut seg.tags);
    map_bicycle_designated(&seg.properties, &mut seg.tags);
    map_low_emission_zone(&seg.properties, &mut seg.tags);
    map_name(&seg.properties, &mut seg.tags);
    map_bridge_tunnel_names(&seg.properties, &mut seg.tags);
    map_lit(&seg.properties, &mut seg.tags);
    map_layer(&mut seg.tags);
    tag_isolated_tracks_one(&seg.properties, &mut seg.tags);
}

/// Tag the whole network: collect bridges and street names, then run the
/// pipeline over every segment.
pub fn tag_network(segments: &mut Vec<Segment>)
    requires
        forall|i: int| 0 <= i < old(segments)@.len() ==> (#[trigger] old(segments)@[i]).wf(),
        forall|i: int|
            0 <= i < old(segments)@.len() ==> (#[trigger] old(segments)@[i]).oneway_direction
                == OnewayDirection::TwoWay,
    ensures
        final(segments)@.len() == old(segments)@.len(),
        forall|i: int| 0 <= i < final(segments)@.len() ==> (#[trigger] final(segments)@[i]).wf(),
        forall|i: int|
            0 <= i < final(segments)@.len() ==> (#[trigger] final(segments)@[i]).tags@
                == pipeline_tags(
                old(segments)@[i].properties@,
                old(segments)@[i].tags@,
                old(segments)@[i].shape_length as int,
                decided_bridges(old(segments)@),
                street_name_set(old(segments)@),
            ),
        forall|i: int|
            0 <= i < final(segments)@.len() ==> (#[trigger] final(segments)@[i]).oneway_direction
                == oneway_decision(old(segments)@[i].properties@),
        forall|i: int|
            0 <= i < final(segments)@.len() ==> (#[trigger] final(segments)@[i]).properties == old(
                segments,
            )@[i].properties,
        forall|i: int|
            0 <= i < final(segments)@.len() ==> (#[trigger] final(segments)@[i]).shape_length
                == old(segments)@[i].shape_length,
        forall|i: int|
            0 <= i < final(segments)@.len() ==> (#[trigger] final(segments)@[i]).internal_node_ids
                == old(segments)@[i].internal_node_ids,
        forall|i: int|
            0 <= i < final(segments)@.len() ==> (#[trigger] final(segments)@[i]).geometry@ == if
            oneway_decision(old(segments)@[i].properties@) == OnewayDirection::Backward {
                old(segments)@[i].geometry@.reverse()
            } else {
                old(segments)@[i].geometry@
            },
{
    let ghost orig = segments@;
    let bridges = detect_bridges(segments);
    let street_names = build_street_names(segments);
    proof {
        assert(bridges@ =~= decided_bridges(orig)) by {
            crate::maps::lemma_map_of_dom(bridges.key_seq(), bridges.val_seq());
        }
        assert(Set::new(|x: Seq<char>| street_names@.map_values(|s: String| s@).contains(x))
            =~= street_name_set(orig));
    }
    let mut out: Vec<Segment> = Vec::new();
    let n = segments.len();
    let mut i: usize = 0;
    while segments.len() > 0
        invariant
            bridges.wf(),
            i + segments@.len() == n,
            n == orig.len(),
            out@.len() == i,
            forall|k: int| 0 <= k < segments@.len() ==> segments@[k] == orig[i + k],
            forall|k: int| 0 <= k < orig.len() ==> (#[trigger] orig[k]).wf(),
            forall|k: int|
                0 <= k < orig.len() ==> (#[trigger] orig[k]).oneway_direction
                    == OnewayDirection::TwoWay,
            bridges@ == decided_bridges(orig),
            Set::new(|x: Seq<char>| street_names@.map_values(|s: String| s@).contains(x))
                == street_name_set(orig),
            forall|k: int| 0 <= k < i ==> (#[trigger] out@[k]).wf(),
            forall|k: int|
                0 <= k < i ==> (#[trigger] out@[k]).tags@ == pipeline_tags(
                    orig[k].properties@,
                    orig[k].tags@,
                    orig[k].shape_length as int,
                    decided_bridges(orig),
                    street_name_set(orig),
                ),
            forall|k: int|
                0 <= k < i ==> (#[trigger] out@[k]).oneway_direction == oneway_decision(
                    orig[k].properties@,
                ),
            forall|k: int| 0 <= k < i ==> (#[trigger] out@[k]).properties == orig[k].properties,
            forall|k: int|
                0 <= k < i ==> (#[trigger] out@[k]).shape_length == orig[k].shape_length,
            forall|k: int|
                0 <= k < i ==> (#[trigger] out@[k]).internal_node_ids
                    == orig[k].internal_node_ids,
            forall|k: int|
                0 <= k < i ==> (#[trigger] out@[k]).geometry@ == if oneway_decision(
                    orig[k].properties@,
                ) == OnewayDirection::Backward {
                    orig[k].geometry@.reverse()
                } else {
                    orig[k].geometry@
                },
        decreases segments@.len(),
    {
        let mut seg = segments.remove(0);
        process_segment(&mut seg, &bridges, &street_names);
        out.push(seg);
        i = i + 1;
    }
    *segments = out;
}



/// After the oneway rule, a `oneway=yes` tag stands exactly when the
/// direction state is not two-way, and when the state is backward the
/// stored geometry has been reversed, so its first coordinate is the
/// original last one.
pub proof fn lemma_oneway_consistency(
    props: Map<Seq<char>, PropView>,
    tags0: Map<Seq<char>, Seq<char>>,
    g: Seq<crate::coord::Coord>,
)
    requires
        !tags0.dom().contains("oneway"@),
        g.len() >= 1,
    ensures
        ({
            let d = oneway_decision(props);
            let t1 = if d != OnewayDirection::TwoWay {
                tags0.insert("oneway"@, "yes"@)
            } else {
                tags0
            };
            let g1 = if d == OnewayDirection::Backward {
                g.reverse()
            } else {
                g
            };
            (t1.dom().contains("oneway"@) <==> d != OnewayDirection::TwoWay) && (d
                == OnewayDirection::Backward ==> g1[0] == g.last())
        }),
{
}



/// `suffix` closes the sequence.
pub open spec fn ends_with(s: Seq<char>, suffix: Seq<char>) -> bool {
    s.len() >= suffix.len() && s.subrange(s.len() - suffix.len(), s.len() as int) == suffix
}

/// A directional motor tag key: one written per travel direction, ending
/// in ":forward", ":backward" or a directional ":conditional".
pub open spec fn motor_directional_key(k: Seq<char>) -> bool {
    ends_with(k, ":forward"@) || ends_with(k, ":backward"@) || ends_with(k, ":conditional"@)
}

/// The keys the pipeline can add to a segment on the walking or cycling
/// network: classification, access, naming and structure keys — none of
/// them directional.
pub open spec fn gcm_added_key(k: Seq<char>) -> bool {
    ||| k == "bridge"@
    ||| k == "layer"@
    ||| k == "tunnel"@
    ||| k == "oneway"@
    ||| k == "route"@
    ||| k == "foot"@
    ||| k == "motor_vehicle"@
    ||| k == "ferry"@
    ||| k == "ref"@
    ||| k == "name"@
    ||| k == "highway"@
    ||| k == "footway"@
    ||| k == "covered"@
    ||| k == "conveying"@
    ||| k == "aerialway"@
    ||| k == "railway"@
    ||| k == "lit"@
    ||| k == "cycleway:name"@
    ||| k == "bridge:name"@
    ||| k == "tunnel:name"@
    ||| k == "description"@
    ||| k == "motorroad"@
    ||| k == "priority_road"@
    ||| k == "low_emission_zone"@
}

/// A sequence whose character at a position differs from the suffix does
/// not end with that suffix.
proof fn lemma_not_ends(s: Seq<char>, suf: Seq<char>, j: int)
    requires
        0 <= j < suf.len(),
        suf.len() <= s.len() ==> s[s.len() - suf.len() + j] != suf[j],
    ensures
        !ends_with(s, suf),
{
    if ends_with(s, suf) {
        assert(s.subrange(s.len() - suf.len(), s.len() as int)[j] == suf[j]);
    }
}

/// None of the keys the pipeline writes on the walking or cycling network
/// is a directional motor key.
pub proof fn lemma_gcm_keys_not_directional(k: Seq<char>)
    requires
        gcm_added_key(k),
    ensures
        !motor_directional_key(k),
{
    reveal_strlit(":forward");
    reveal_strlit(":backward");
    reveal_strlit(":conditional");
    reveal_strlit("bridge");
    reveal_strlit("layer");
    reveal_strlit("tunnel");
    reveal_strlit("oneway");
    reveal_strlit("route");
    reveal_strlit("foot");
    reveal_strlit("motor_vehicle");
    reveal_strlit("ferry");
    reveal_strlit("ref");
    reveal_strlit("name");
    reveal_strlit("highway");
    reveal_strlit("footway");
    reveal_strlit("covered");
    reveal_strlit("conveying");
    reveal_strlit("aerialway");
    reveal_strlit("railway");
    reveal_strlit("lit");
    reveal_strlit("cycleway:name");
    reveal_strlit("bridge:name");
    reveal_strlit("tunnel:name");
    reveal_strlit("description");
    reveal_strlit("motorroad");
    reveal_strlit("priority_road");
    reveal_strlit("low_emission_zone");
    let f = ":forward"@;
    let b = ":backward"@;
    let c = ":conditional"@;
    if k == "motor_vehicle"@ {
        lemma_not_ends(k, f, 0);
        lemma_not_ends(k, b, 0);
        lemma_not_ends(k, c, 0);
    } else if k == "cycleway:name"@ {
        lemma_not_ends(k, f, 0);
        lemma_not_ends(k, b, 0);
        lemma_not_ends(k, c, 0);
    } else if k == "bridge:name"@ {
        lemma_not_ends(k, f, 0);
        lemma_not_ends(k, b, 0);
        lemma_not_ends(k, c, 0);
    } else if k == "tunnel:name"@ {
        lemma_not_ends(k, f, 0);
        lemma_not_ends(k, b, 0);
        lemma_not_ends(k, c, 0);
    } else if k == "description"@ {
        lemma_not_ends(k, f, 0);
        lemma_not_ends(k, b, 0);
        lemma_not_ends(k, c, 0);
    } else if k == "motorroad"@ {
        lemma_not_ends(k, f, 0);
        lemma_not_ends(k, b, 0);
        lemma_not_ends(k, c, 0);
    } else if k == "conveying"@ {
        lemma_not_ends(k, f, 0);
        lemma_not_ends(k, b, 0);
        lemma_not_ends(k, c, 0);
    } else if k == "aerialway"@ {
        lemma_not_ends(k, f, 0);
        lemma_not_ends(k, b, 0);
        lemma_not_ends(k, c, 0);
    } else if k == "priority_road"@ {
        lemma_not_ends(k, f, 0);
        lemma_not_ends(k, b, 0);
        lemma_not_ends(k, c, 0);
    } else if k == "low_emission_zone"@ {
        lemma_not_ends(k, f, 0);
        lemma_not_ends(k, b, 0);
        lemma_not_ends(k, c, 0);
    } else {
        lemma_not_ends(k, f, 0);
        lemma_not_ends(k, b, 0);
        lemma_not_ends(k, c, 0);
    }
}

/// On the walking or cycling network, the whole pipeline only ever adds
/// keys from the fixed non-directional set.
#[verifier::rlimit(100)]
pub proof fn lemma_gcm_pipeline_dom(
    props: Map<Seq<char>, PropView>,
    tags0: Map<Seq<char>, Seq<char>>,
    shape: int,
    bm: Map<Seq<char>, BridgeView>,
    names: Set<Seq<char>>,
)
    requires
        on_gcm_net(props),
    ensures
        forall|k: Seq<char>| #[trigger]
            pipeline_tags(props, tags0, shape, bm, names).dom().contains(k) ==> tags0.dom().contains(
                k,
            ) || gcm_added_key(k),
{
    let d = oneway_decision(props);
    let t1 = bridge_tunnel_spec(props, tags0, shape, bm);
    assert forall|k: Seq<char>| #[trigger]
        t1.dom().contains(k) implies tags0.dom().contains(k) || gcm_added_key(k) by {}
    let t2 = if d != OnewayDirection::TwoWay {
        t1.insert("oneway"@, "yes"@)
    } else {
        t1
    };
    assert forall|k: Seq<char>| #[trigger]
        t2.dom().contains(k) implies t1.dom().contains(k) || gcm_added_key(k) by {}
    let t3 = highway_spec(props, t2, names);
    lemma_gcm_highway_dom(props, t2, names);
    let t4 = motorway_override_spec(props, t3);
    assert forall|k: Seq<char>| #[trigger]
        t4.dom().contains(k) implies t3.dom().contains(k) || gcm_added_key(k) by {}
    let t5 = highway_links_spec(props, t4);
    assert forall|k: Seq<char>| #[trigger]
        t5.dom().contains(k) implies t4.dom().contains(k) || gcm_added_key(k) by {}
    let t6 = ref_spec(props, t5);
    assert forall|k: Seq<char>| #[trigger]
        t6.dom().contains(k) implies t5.dom().contains(k) || gcm_added_key(k) by {}
    let t7 = roundabout_spec(props, t6, d);
    assert(t7 == t6);
    let t8 = maxspeed_spec(props, t7, d);
    assert(t8 == t7);
    let t9 = motor_vehicle_access_spec(props, t8, d);
    assert(t9 == t8);
    let t10 = vehicle_restrictions_spec(props, t9, d);
    assert(t10 == t9);
    let t11 = hazmat_spec(props, t10, d);
    assert(t11 == t10);
    let t12 = overtaking_spec(props, t11, d);
    assert(t12 == t11);
    let t13 = lanes_spec(props, t12, d);
    assert(t13 == t12);
    let t14 = surface_spec(props, t13);
    assert(t14 == t13);
    let t15 = width_spec(props, t14);
    assert(t15 == t14);
    let t16 = priority_road_spec(props, t15);
    assert forall|k: Seq<char>| #[trigger]
        t16.dom().contains(k) implies t15.dom().contains(k) || gcm_added_key(k) by {}
    let t17 = bicycle_designated_spec(props, t16);
    assert(t17 == t16);
    let t18 = low_emission_zone_spec(props, t17);
    assert forall|k: Seq<char>| #[trigger]
        t18.dom().contains(k) implies t17.dom().contains(k) || gcm_added_key(k) by {}
    let t19 = name_spec(props, t18);
    assert(t19 == t18);
    let t20 = bridge_tunnel_names_spec(props, t19);
    assert forall|k: Seq<char>| #[trigger]
        t20.dom().contains(k) implies t19.dom().contains(k) || gcm_added_key(k) by {}
    let t21 = lit_spec(props, t20);
    assert forall|k: Seq<char>| #[trigger]
        t21.dom().contains(k) implies t20.dom().contains(k) || gcm_added_key(k) by {}
    let t22 = layer_spec(t21);
    assert forall|k: Seq<char>| #[trigger]
        t22.dom().contains(k) implies t21.dom().contains(k) || gcm_added_key(k) by {}
    let t23 = isolated_track_spec(props, t22);
    assert forall|k: Seq<char>| #[trigger]
        t23.dom().contains(k) implies t22.dom().contains(k) || gcm_added_key(k) by {}
}

/// The highway rule on the walking or cycling network only adds keys from
/// the fixed non-directional set.
#[verifier::rlimit(100)]
proof fn lemma_gcm_highway_dom(
    props: Map<Seq<char>, PropView>,
    tags: Map<Seq<char>, Seq<char>>,
    names: Set<Seq<char>>,
)
    requires
        on_gcm_net(props),
    ensures
        forall|k: Seq<char>| #[trigger]
            highway_spec(props, tags, names).dom().contains(k) ==> tags.dom().contains(k)
                || gcm_added_key(k),
{
    if p_truthy(props, "Farjeled"@) {
        let r = ferry_spec(props, tags);
        assert forall|k: Seq<char>| #[trigger]
            r.dom().contains(k) implies tags.dom().contains(k) || gcm_added_key(k) by {}
    } else {
        let net = p_i64_or(props, "Vagtr_474"@, 1);
        let t0 = gcm_classify_spec(props, tags, net);
        assert forall|k: Seq<char>| #[trigger]
            t0.dom().contains(k) implies tags.dom().contains(k) || gcm_added_key(k) by {}
        let r = gcm_post_spec(props, t0, names, net);
        assert forall|k: Seq<char>| #[trigger]
            r.dom().contains(k) implies t0.dom().contains(k) || gcm_added_key(k) by {}
    }
}

/// On the walking or cycling network no motor-vehicle directional tag is
/// ever emitted: segments classified cycleway or footway (network types
/// two and four) carry no key ending in ":forward", ":backward" or
/// ":conditional". Starting tags that already lack such keys keep lacking
/// them through the whole rule pipeline.
pub proof fn lemma_no_motor_directional_on_gcm(
    props: Map<Seq<char>, PropView>,
    tags0: Map<Seq<char>, Seq<char>>,
    shape: int,
    bm: Map<Seq<char>, BridgeView>,
    names: Set<Seq<char>>,
)
    requires
        on_gcm_net(props),
        forall|k: Seq<char>| motor_directional_key(k) ==> !#[trigger] tags0.dom().contains(k),
    ensures
        forall|k: Seq<char>|
            motor_directional_key(k) ==> !#[trigger] pipeline_tags(
                props,
                tags0,
                shape,
                bm,
                names,
            ).dom().contains(k),
{
    lemma_gcm_pipeline_dom(props, tags0, shape, bm, names);
    assert forall|k: Seq<char>|
        motor_directional_key(k) implies !#[trigger] pipeline_tags(
        props,
        tags0,
        shape,
        bm,
        names,
    ).dom().contains(k) by {
        if pipeline_tags(props, tags0, shape, bm, names).dom().contains(k) {
            if gcm_added_key(k) {
                lemma_gcm_keys_not_directional(k);
            }
        }
    }
}

} // verus!
