//! End-to-end and unit checks of the pipeline on concrete values.

use nvdb2osm::columns::{ColumnData, PreprocessedColumns, RealCell};
use nvdb2osm::coord::{hash_coord, Coord};
use nvdb2osm::mapper;
use nvdb2osm::plan::build_pbf_plan;
use nvdb2osm::props::PropertyValue;
use nvdb2osm::rounding::canon7_from_bits;
use nvdb2osm::segment::{OnewayDirection, Segment, SimplifyMethod};
use nvdb2osm::strutil;
use nvdb2osm::topology::simplify_network;
use nvdb2osm::wkb::parse_wkb;
use nvdb2osm::PipelineError;

fn coord(lon: f64, lat: f64) -> Coord {
    Coord {
        lon7: (lon * 1e7).round() as i64,
        lat7: (lat * 1e7).round() as i64,
    }
}

fn seg(coords: &[(f64, f64)]) -> Segment {
    let cs: Vec<Coord> = coords.iter().map(|&(lo, la)| coord(lo, la)).collect();
    Segment::new(String::new(), cs)
}

fn tag_of(s: &Segment, key: &str) -> Option<String> {
    s.tags.get(key).cloned()
}

#[test]
fn bankers_rounding_half_to_even() {
    // 0.12345675 rounds up to an even last digit; 0.12345685 rounds down.
    assert_eq!(canon7_from_bits(0.12345675f64.to_bits()), Some(1_234_568));
    assert_eq!(canon7_from_bits(0.12345685f64.to_bits()), Some(1_234_568));
    assert_eq!(canon7_from_bits(13.0f64.to_bits()), Some(130_000_000));
    assert_eq!(canon7_from_bits((-13.1f64).to_bits()), Some(-131_000_000));
    assert_eq!(canon7_from_bits(f64::NAN.to_bits()), None);
    assert_eq!(canon7_from_bits(f64::INFINITY.to_bits()), None);
    assert_eq!(canon7_from_bits(1.0e30f64.to_bits()), None);
}

#[test]
fn canonicalization_round_trip() {
    let samples: [f64; 6] = [0.12345675, 55.5, -17.25, 0.0, 13.0000001, 89.9999999];
    for &x in samples.iter() {
        let once = canon7_from_bits(x.to_bits()).unwrap();
        let back = once as f64 / 1e7;
        let twice = canon7_from_bits(back.to_bits()).unwrap();
        assert_eq!(once, twice);
    }
}

#[test]
fn coordinate_hash_packs_lat_high_lon_low() {
    let c = coord(13.0, 55.0);
    let h = hash_coord(&c);
    assert_eq!(h >> 32, 550_000_000u64);
    assert_eq!(h & 0xFFFF_FFFF, 130_000_000u64);
    let c2 = coord(-13.0, -55.0);
    let h2 = hash_coord(&c2);
    assert_eq!(h2 >> 32, (-550_000_000i32) as u32 as u64);
    assert_eq!(h2 & 0xFFFF_FFFF, (-130_000_000i32) as u32 as u64);
    assert_ne!(h, h2);
}

fn wkb_linestring(points: &[(f64, f64)]) -> Vec<u8> {
    let mut b = vec![1u8];
    b.extend_from_slice(&2u32.to_le_bytes());
    b.extend_from_slice(&(points.len() as u32).to_le_bytes());
    for &(x, y) in points {
        b.extend_from_slice(&x.to_le_bytes());
        b.extend_from_slice(&y.to_le_bytes());
    }
    b
}

#[test]
fn wkb_decodes_linestring() {
    let b = wkb_linestring(&[(13.0, 55.0), (13.1, 55.1)]);
    let g = parse_wkb(&b).unwrap();
    assert_eq!(g.len(), 2);
    assert_eq!(g[0], coord(13.0, 55.0));
    assert_eq!(g[1], coord(13.1, 55.1));
}

#[test]
fn wkb_rejects_bad_input() {
    assert!(parse_wkb(&vec![]).is_none());
    assert!(parse_wkb(&vec![9u8; 20]).is_none());
    // Point type (1) is not a linestring.
    let mut b = vec![1u8];
    b.extend_from_slice(&1u32.to_le_bytes());
    b.extend_from_slice(&[0u8; 16]);
    assert!(parse_wkb(&b).is_none());
}

#[test]
fn wkb_decodes_first_member_of_multilinestring() {
    let inner = wkb_linestring(&[(13.0, 55.0), (13.2, 55.2)]);
    let mut b = vec![1u8];
    b.extend_from_slice(&5u32.to_le_bytes());
    b.extend_from_slice(&1u32.to_le_bytes());
    b.extend_from_slice(&inner);
    let g = parse_wkb(&b).unwrap();
    assert_eq!(g.len(), 2);
    assert_eq!(g[1], coord(13.2, 55.2));
}

#[test]
fn oneway_reversal_flips_geometry() {
    // Forward travel forbidden: geometry is reversed and oneway=yes set.
    let mut s = seg(&[(13.0, 55.0), (13.1, 55.0), (13.2, 55.0)]);
    s.properties
        .insert("F_ForbjudenFardriktning", PropertyValue::Integer(1));
    mapper::map_oneway(&mut s);
    assert_eq!(s.oneway_direction, OnewayDirection::Backward);
    assert_eq!(tag_of(&s, "oneway").as_deref(), Some("yes"));
    assert_eq!(s.geometry[0], coord(13.2, 55.0));
    assert_eq!(s.geometry[2], coord(13.0, 55.0));
    assert_eq!(s.start_node, hash_coord(&coord(13.2, 55.0)));
}

#[test]
fn ferry_gets_category_and_europe_ref() {
    let mut s = seg(&[(13.0, 55.0), (13.1, 55.0)]);
    s.properties.insert("Farjeled", PropertyValue::Integer(1));
    s.properties.insert("Kateg_380", PropertyValue::Integer(1));
    s.properties
        .insert("Huvnr_556_1", PropertyValue::Text("4".to_string()));
    let mut v = vec![s];
    mapper::tag_network(&mut v);
    let s = &v[0];
    assert_eq!(tag_of(s, "route").as_deref(), Some("ferry"));
    assert_eq!(tag_of(s, "foot").as_deref(), Some("yes"));
    assert_eq!(tag_of(s, "ferry").as_deref(), Some("trunk"));
    assert_eq!(tag_of(s, "ref").as_deref(), Some("E 4"));
}

#[test]
fn bridge_group_over_cycle_becomes_tunnel() {
    // A 30 m over-bridge grouped with an under-bridge cycle segment: the
    // group decides tunnel and the under-bridge segment is tagged so.
    let mut over = seg(&[(13.0, 55.0), (13.0, 55.00027)]);
    over.properties
        .insert("Ident_191", PropertyValue::Text("BR1".to_string()));
    over.properties.insert("Konst_190", PropertyValue::Integer(1));
    let mut under = seg(&[(13.001, 55.0), (13.001, 55.0002)]);
    under
        .properties
        .insert("Ident_191", PropertyValue::Text("BR1".to_string()));
    under.properties.insert("Konst_190", PropertyValue::Integer(2));
    under.properties.insert("Vagtr_474", PropertyValue::Integer(2));
    let mut v = vec![over, under];
    mapper::tag_network(&mut v);
    assert_eq!(tag_of(&v[1], "tunnel").as_deref(), Some("yes"));
    assert_eq!(tag_of(&v[1], "layer").as_deref(), Some("-1"));
    assert!(tag_of(&v[0], "bridge").is_some());
}

#[test]
fn county_ref_from_municipality() {
    let mut s = seg(&[(13.0, 55.0), (13.1, 55.0)]);
    s.properties.insert("Kateg_380", PropertyValue::Integer(4));
    s.properties
        .insert("Huvnr_556_1", PropertyValue::Text("235".to_string()));
    s.properties.insert("Kommu_141", PropertyValue::Integer(1480));
    let mut v = vec![s];
    mapper::tag_network(&mut v);
    assert_eq!(tag_of(&v[0], "ref").as_deref(), Some("O 235"));
    assert_eq!(tag_of(&v[0], "highway").as_deref(), Some("secondary"));
}

#[test]
fn county_codes_table() {
    assert_eq!(mapper::county_code_exec(14), Some("O"));
    assert_eq!(mapper::county_code_exec(1), Some("AB"));
    assert_eq!(mapper::county_code_exec(25), Some("BD"));
    assert_eq!(mapper::county_code_exec(2), None);
}

#[test]
fn directional_speeds_split_and_collapse() {
    let mut s = seg(&[(13.0, 55.0), (13.1, 55.0)]);
    s.properties.insert("F_Hogst_225", PropertyValue::Integer(100));
    s.properties.insert("B_Hogst_225", PropertyValue::Integer(80));
    let mut v = vec![s];
    mapper::tag_network(&mut v);
    assert_eq!(tag_of(&v[0], "maxspeed:forward").as_deref(), Some("100"));
    assert_eq!(tag_of(&v[0], "maxspeed:backward").as_deref(), Some("80"));
    let mut s2 = seg(&[(13.0, 55.0), (13.1, 55.0)]);
    s2.properties.insert("F_Hogst_225", PropertyValue::Integer(90));
    s2.properties.insert("B_Hogst_225", PropertyValue::Integer(90));
    let mut v2 = vec![s2];
    mapper::tag_network(&mut v2);
    assert_eq!(tag_of(&v2[0], "maxspeed").as_deref(), Some("90"));
}

#[test]
fn cycleway_gets_no_motor_tags() {
    let mut s = seg(&[(13.0, 55.0), (13.1, 55.0)]);
    s.properties.insert("Vagtr_474", PropertyValue::Integer(2));
    let mut v = vec![s];
    mapper::tag_network(&mut v);
    assert_eq!(tag_of(&v[0], "highway").as_deref(), Some("cycleway"));
    assert!(tag_of(&v[0], "maxspeed").is_none());
    assert!(tag_of(&v[0], "maxspeed:forward").is_none());
    assert!(tag_of(&v[0], "motor_vehicle:backward").is_none());
}

#[test]
fn vehicle_restriction_with_weight_is_conditional() {
    let mut s = seg(&[(13.0, 55.0), (13.1, 55.0)]);
    s.properties.insert("F_Gallar_135", PropertyValue::Integer(10));
    s.properties
        .insert("F_Total_136", PropertyValue::Decimal(165));
    let mut v = vec![s];
    mapper::tag_network(&mut v);
    assert_eq!(
        tag_of(&v[0], "motorcar:forward:conditional").as_deref(),
        Some("no @ (weight>16.5)")
    );
}

#[test]
fn properties_normalize_esri_booleans() {
    let names = vec!["Farjeled".to_string(), "Kateg_380".to_string()];
    let cols = vec![
        ColumnData::Int(vec![-1]),
        ColumnData::Real(vec![RealCell::Whole(3)]),
    ];
    let pre = PreprocessedColumns::from_columns(names, cols);
    let props = pre.build_properties(0);
    assert_eq!(props.get("Farjeled").and_then(|v| v.as_i64()), Some(1));
    assert_eq!(props.get("Kateg_380").and_then(|v| v.as_i64()), Some(3));
}

#[test]
fn junction_split_cuts_chain() {
    // Three colinear segments and a branch at the first boundary: the
    // chain splits there, so the colinear run becomes two ways.
    let a = seg(&[(13.0, 55.0), (13.001, 55.0)]);
    let b = seg(&[(13.001, 55.0), (13.002, 55.0)]);
    let c = seg(&[(13.002, 55.0), (13.003, 55.0)]);
    let d = seg(&[(13.001, 55.0), (13.001, 55.001)]);
    let mut v = vec![a, b, c, d];
    mapper::tag_network(&mut v);
    let ways = simplify_network(&mut v, SimplifyMethod::Refname);
    // The colinear A and B+C runs split at the true junction; D goes its
    // own way (its turn from A is a right angle).
    let sizes: Vec<usize> = ways.iter().map(|w| w.segment_indices.len()).collect();
    assert_eq!(sizes.iter().sum::<usize>(), 4);
    assert!(sizes.contains(&2), "expected one merged pair, got {:?}", sizes);
    assert_eq!(ways.len(), 3);
}

#[test]
fn plan_shares_junction_nodes() {
    let a = seg(&[(13.0, 55.0), (13.001, 55.0)]);
    let b = seg(&[(13.001, 55.0), (13.002, 55.0)]);
    let mut v = vec![a, b];
    mapper::tag_network(&mut v);
    let ways = simplify_network(&mut v, SimplifyMethod::Segment);
    assert_eq!(ways.len(), 2);
    let plan = build_pbf_plan(&ways, &v, &vec![], 1, 1000).unwrap();
    assert_eq!(plan.ways.len(), 2);
    assert_eq!(plan.ways[0].id, 1000);
    assert_eq!(plan.ways[1].id, 1001);
    // The shared coordinate is one node referenced from both ways.
    let shared = hash_coord(&coord(13.001, 55.0));
    let sid = plan.junction_ids.get(shared).unwrap();
    assert_eq!(*plan.ways[0].node_refs.last().unwrap(), sid);
    assert_eq!(plan.ways[1].node_refs[0], sid);
    let with_id: Vec<_> = plan.nodes.iter().filter(|n| n.id == sid).collect();
    assert_eq!(with_id.len(), 1);
    // No way repeats a node consecutively.
    for w in &plan.ways {
        for k in 1..w.node_refs.len() {
            assert_ne!(w.node_refs[k - 1], w.node_refs[k]);
        }
    }
}

#[test]
fn run_pipeline_end_to_end() {
    let g1 = wkb_linestring(&[(13.0, 55.0), (13.001, 55.0)]);
    let g2 = wkb_linestring(&[(13.001, 55.0), (13.002, 55.0)]);
    let bad = vec![7u8, 7u8];
    let geoms = vec![g1, g2, bad];
    let names = vec!["Kateg_380".to_string()];
    let cols = vec![ColumnData::Int(vec![1, 1, 1])];
    let (plan, skipped) =
        nvdb2osm::run_pipeline(&geoms, names, cols, "refname", 1, 1).unwrap();
    assert_eq!(skipped, 1);
    assert!(!plan.ways.is_empty());
    assert!(!plan.nodes.is_empty());
    assert!(plan.bbox.is_some());
}

#[test]
fn run_pipeline_rejects_bad_shapes() {
    let r = nvdb2osm::run_pipeline(&vec![], vec![], vec![], "refname", 1, 1);
    assert_eq!(r.err().unwrap(), PipelineError::NoGeometries);
    let g = wkb_linestring(&[(13.0, 55.0), (13.001, 55.0)]);
    let r = nvdb2osm::run_pipeline(
        &vec![g.clone()],
        vec!["A".to_string()],
        vec![],
        "refname",
        1,
        1,
    );
    assert_eq!(r.err().unwrap(), PipelineError::ColumnMismatch);
    let r = nvdb2osm::run_pipeline(&vec![vec![0u8]], vec![], vec![], "refname", 1, 1);
    assert_eq!(r.err().unwrap(), PipelineError::NoValidGeometries);
}

#[test]
fn simplify_method_names() {
    assert_eq!(SimplifyMethod::from_name("Route"), SimplifyMethod::Route);
    assert_eq!(SimplifyMethod::from_name("LINEAR"), SimplifyMethod::Linear);
    assert_eq!(SimplifyMethod::from_name("anything"), SimplifyMethod::Refname);
}

#[test]
fn number_rendering() {
    assert_eq!(strutil::i64_to_string(0), "0");
    assert_eq!(strutil::i64_to_string(-42), "-42");
    assert_eq!(strutil::i64_to_string(120), "120");
    assert_eq!(strutil::tenths_to_string(165, true), "16.5");
    assert_eq!(strutil::tenths_to_string(160, true), "16.0");
    assert_eq!(strutil::tenths_to_string(160, false), "16");
    assert_eq!(strutil::tenths_to_string(-15, true), "-1.5");
}

#[test]
fn trimming_and_search() {
    assert_eq!(strutil::trim("  abc \t"), "abc");
    assert_eq!(strutil::trim(""), "");
    assert!(strutil::contains_sub("storbron", "bron"));
    assert!(!strutil::contains_sub("storbro", "bron"));
    assert!(strutil::contains_sub_lower("GAMLA TUNNELN", "tunneln"));
}

#[test]
fn feature_nodes_from_attributes() {
    let mut s = seg(&[(13.0, 55.0), (13.1, 55.0)]);
    s.properties.insert("Passa_85", PropertyValue::Integer(4));
    s.properties.insert("Rastplats", PropertyValue::Integer(1));
    let (nodes, next) = nvdb2osm::features::generate_nodes_for_segment(&s, 10);
    assert_eq!(nodes.len(), 2);
    assert_eq!(next, 12);
    assert_eq!(nodes[0].id, 10);
    assert_eq!(
        nodes[0].tags.get("crossing").cloned().as_deref(),
        Some("traffic_signals")
    );
    assert_eq!(
        nodes[1].tags.get("highway").cloned().as_deref(),
        Some("rest_area")
    );
    assert_eq!(nodes[0].lat7, 550_000_000);
}

#[test]
fn douglas_peucker_removes_near_collinear_points_and_is_idempotent() {
    // The middle point is far off the chord and is kept; a point a few
    // millimetres off is dropped.
    let keep = vec![
        coord(13.0, 55.0),
        coord(13.0005, 55.001),
        coord(13.001, 55.0),
    ];
    let kept = nvdb2osm::geometry::simplify_polygon(&keep, 647);
    assert_eq!(kept.len(), 3);
    let drop = vec![
        coord(13.0, 55.0),
        Coord {
            lon7: 130_005_000,
            lat7: 550_000_001,
        },
        coord(13.001, 55.0),
    ];
    let dropped = nvdb2osm::geometry::simplify_polygon(&drop, 647);
    assert_eq!(dropped.len(), 2);
    // Idempotence on these inputs.
    let twice = nvdb2osm::geometry::simplify_polygon(&kept, 647);
    assert_eq!(twice.len(), kept.len());
    for (a, b) in twice.iter().zip(kept.iter()) {
        assert_eq!(a, b);
    }
}

#[test]
fn run_pipeline_accepts_negative_id_starts() {
    let g = wkb_linestring(&[(13.0, 55.0), (13.001, 55.0)]);
    let names = vec!["Kateg_380".to_string()];
    let cols = vec![ColumnData::Int(vec![1])];
    let (plan, skipped) =
        nvdb2osm::run_pipeline(&vec![g], names, cols, "segment", -1000, -50).unwrap();
    assert_eq!(skipped, 0);
    assert_eq!(plan.ways.len(), 1);
    assert_eq!(plan.ways[0].id, -50);
    assert!(plan.nodes.iter().all(|n| n.id >= -1000));
    assert!(plan.nodes.iter().any(|n| n.id < 0));
}
