//! Transformation of Swedish national road database (NVDB) road segments
//! into an OpenStreetMap-compatible road network.
//!
//! The pipeline decodes WKB linestring geometries, canonicalizes coordinates
//! to a 1e-7 degree grid (banker's rounding), maps NVDB attributes to OSM
//! tags, extracts point features, merges segments into ways, and lays out a
//! complete PBF emission plan (nodes and ways with stable shared IDs).
//! Writing the plan to disk is left to the caller.

pub mod coord;
pub mod rounding;
pub mod strutil;
pub mod maps;
pub mod props;
pub mod columns;
pub mod geometry;
pub mod segment;
pub mod wkb;
pub mod mapper;
pub mod features;
pub mod grouping;
pub mod topology;
pub mod plan;

use vstd::prelude::*;

verus! {

/// Why a run could not produce a plan.
#[derive(Clone, Copy, PartialEq, Eq, Structural, Debug)]
pub enum PipelineError {
    /// No geometries were handed in.
    NoGeometries,
    /// The column names and the column data disagree in number.
    ColumnMismatch,
    /// Every geometry failed to decode.
    NoValidGeometries,
    /// The ID space ran out while numbering nodes or ways.
    IdSpace,
}

/// The decoded point count of the first `k` rows; a row that does not
/// decode counts nothing.
pub open spec fn rows_points(geoms: Seq<Vec<u8>>, k: int) -> int
    decreases k,
{
    if k <= 0 {
        0
    } else {
        rows_points(geoms, k - 1) + (match crate::wkb::parse_wkb_spec(geoms[k - 1]@) {
            Option::Some(c) => c.len() as int,
            Option::None => 0,
        })
    }
}

/// The decoded point count is never negative.
pub proof fn lemma_rows_points_nonneg(geoms: Seq<Vec<u8>>, k: int)
    ensures
        rows_points(geoms, k) >= 0,
    decreases k,
{
    if k > 0 {
        lemma_rows_points_nonneg(geoms, k - 1);
    }
}

/// Headroom under which a run is owed a plan: the columns agree, some row
/// decodes, every segment becomes its own way, and the caller-supplied ID
/// space can hold every node and way the run can create — at most eight
/// feature nodes per row plus one node per decoded point plus two way
/// endpoints per row, and one way per row.
pub open spec fn run_headroom(
    wkb_geoms: Seq<Vec<u8>>,
    col_names: Seq<String>,
    col_data: Seq<columns::ColumnData>,
    simplify_method: Seq<char>,
    node_id_start: int,
    way_id_start: int,
) -> bool {
    &&& wkb_geoms.len() > 0
    &&& wkb_geoms.len() <= i64::MAX
    &&& col_names.len() == col_data.len()
    &&& !(forall|k: int|
        0 <= k < wkb_geoms.len() ==> crate::wkb::parse_wkb_spec(
            (#[trigger] wkb_geoms[k])@,
        ) is None)
    &&& crate::segment::method_of(simplify_method) == crate::segment::SimplifyMethod::Segment
    &&& node_id_start + 10 * wkb_geoms.len() + rows_points(
        wkb_geoms,
        wkb_geoms.len() as int,
    ) <= i64::MAX
    &&& way_id_start + wkb_geoms.len() <= i64::MAX
}

/// Under the headroom bound, a one-segment-per-way layout fits the plan's
/// ID budget.
#[verifier::rlimit(100)]
proof fn lemma_run_budget(
    geoms: Seq<Vec<u8>>,
    dec: Seq<segment::Segment>,
    tagged: Seq<segment::Segment>,
    segs: Seq<segment::Segment>,
    ways: Seq<segment::Way>,
    feats: Seq<segment::NodeFeature>,
    next: int,
    node_id_start: int,
    way_id_start: int,
)
    requires
        geoms.len() > 0,
        geoms.len() <= i64::MAX,
        dec.len() <= geoms.len(),
        tagged.len() == dec.len(),
        segs.len() == tagged.len(),
        ways.len() == segs.len(),
        ways.len() <= usize::MAX,
        plan::segs_points(dec, dec.len() as int) <= rows_points(geoms, geoms.len() as int),
        forall|i: int|
            0 <= i < tagged.len() ==> (#[trigger] tagged[i]).geometry@.len()
                == dec[i].geometry@.len(),
        forall|i: int|
            0 <= i < segs.len() ==> (#[trigger] segs[i]).geometry@
                == crate::geometry::simplify_spec(
                tagged[i].geometry@,
                crate::geometry::SIMPLIFY_EPS2_X2 as int,
            ),
        forall|i: int|
            0 <= i < ways.len() ==> (#[trigger] ways[i]).segment_indices@ =~= seq![i as usize],
        forall|a: int| 0 <= a < feats.len() ==> (#[trigger] feats[a]).id < next,
        next <= node_id_start + 8 * dec.len(),
        node_id_start + 10 * geoms.len() + rows_points(geoms, geoms.len() as int) <= i64::MAX,
        way_id_start + geoms.len() <= i64::MAX,
    ensures
        plan::plan_budget_ok(ways, segs, feats, next, way_id_start),
{
    let n = ways.len() as int;
    assert forall|t: int| 0 <= t < n implies (#[trigger] segs[t]).geometry@.len()
        <= tagged[t].geometry@.len() by {
        crate::geometry::lemma_simplify_spec_len(
            tagged[t].geometry@,
            crate::geometry::SIMPLIFY_EPS2_X2 as int,
        );
    }
    plan::lemma_segs_points_le(segs, tagged, n);
    plan::lemma_segs_points_agree(tagged, dec, n);
    plan::lemma_members_total_ones(ways, n);
    plan::lemma_members_geom_ones(ways, segs, n);
}

/// Run the whole in-memory pipeline: decode geometries, build segments
/// with their properties, map tags, extract point features, merge into
/// ways, and lay out the emission plan. Rows whose geometry does not
/// decode are skipped; the second result is how many were skipped.
#[verifier::rlimit(100)]
pub fn run_pipeline(
    wkb_geoms: &Vec<Vec<u8>>,
    col_names: Vec<String>,
    col_data: Vec<columns::ColumnData>,
    simplify_method: &str,
    node_id_start: i64,
    way_id_start: i64,
) -> (r: Result<(plan::PbfPlan, usize), PipelineError>)
    ensures
        r == Result::<(plan::PbfPlan, usize), PipelineError>::Err(PipelineError::NoGeometries)
            <==> wkb_geoms@.len() == 0,
        r == Result::<(plan::PbfPlan, usize), PipelineError>::Err(PipelineError::ColumnMismatch)
            <==> (wkb_geoms@.len() > 0 && col_names@.len() != col_data@.len()),
        r == Result::<(plan::PbfPlan, usize), PipelineError>::Err(
            PipelineError::NoValidGeometries,
        ) <==> (wkb_geoms@.len() > 0 && col_names@.len() == col_data@.len() && forall|k: int|
            0 <= k < wkb_geoms@.len() ==> crate::wkb::parse_wkb_spec((#[trigger] wkb_geoms@[k])@) is None),
        r is Ok ==> (r->Ok_0).0.junction_ids.wf(),
        r is Ok ==> forall|w: int|
            0 <= w < (r->Ok_0).0.ways@.len() ==> crate::plan::refs_ok(
                #[trigger] (r->Ok_0).0.ways@[w],
            ),
        run_headroom(
            wkb_geoms@,
            col_names@,
            col_data@,
            simplify_method@,
            node_id_start as int,
            way_id_start as int,
        ) ==> r is Ok,
{
    let ghost hyp = run_headroom(
        wkb_geoms@,
        col_names@,
        col_data@,
        simplify_method@,
        node_id_start as int,
        way_id_start as int,
    );
    let n = wkb_geoms.len();
    if n == 0 {
        return Result::Err(PipelineError::NoGeometries);
    }
    if col_data.len() != col_names.len() {
        return Result::Err(PipelineError::ColumnMismatch);
    }
    let ghost glen = wkb_geoms@.len();
    let ghost nlen = col_names@.len();
    let ghost dlen = col_data@.len();
    let preprocessed = columns::PreprocessedColumns::from_columns(col_names, col_data);
    let mut segments: Vec<segment::Segment> = Vec::new();
    let mut skipped: usize = 0;
    let mut i: usize = 0;
    while i < n
        invariant
            i <= n,
            n == wkb_geoms@.len(),
            glen == wkb_geoms@.len() && glen > 0 && nlen == dlen,
            nlen == col_names@.len() && dlen == col_data@.len(),
            preprocessed.wf(),
            segments@.len() <= i,
            plan::segs_points(segments@, segments@.len() as int) <= rows_points(
                wkb_geoms@,
                i as int,
            ),
            forall|t: int| 0 <= t < segments@.len() ==> (#[trigger] segments@[t]).wf(),
            forall|t: int|
                0 <= t < segments@.len() ==> (#[trigger] segments@[t]).oneway_direction
                    == segment::OnewayDirection::TwoWay,
            segments@.len() == 0 <==> forall|k: int|
                0 <= k < i ==> crate::wkb::parse_wkb_spec((#[trigger] wkb_geoms@[k])@) is None,
        decreases n - i,
    {
        let ghost oldsegs = segments@;
        match wkb::parse_wkb(&wkb_geoms[i]) {
            Option::Some(geometry) => {
                let mut seg = segment::Segment::new(String::new(), geometry);
                seg.properties = preprocessed.build_properties(i);
                proof {
                    assert(seg.wf());
                }
                segments.push(seg);
                proof {
                    plan::lemma_segs_points_agree(oldsegs, segments@, oldsegs.len() as int);
                }
            },
            Option::None => {
                if skipped < usize::MAX {
                    skipped = skipped + 1;
                }
            },
        }
        i = i + 1;
    }
    if segments.len() == 0 {
        return Result::Err(PipelineError::NoValidGeometries);
    }
    let ghost dec = segments@;
    mapper::tag_network(&mut segments);
    let ghost tagged = segments@;
    proof {
        assert forall|t: int| 0 <= t < tagged.len() implies (#[trigger] tagged[t]).geometry@.len()
            == dec[t].geometry@.len() by {}
    }
    let mut feature_nodes: Vec<segment::NodeFeature> = Vec::new();
    let mut next_node_id: i64 = node_id_start;
    let ns = segments.len();
    let mut i: usize = 0;
    while i < ns
        invariant
            i <= ns,
            ns == segments@.len(),
            ns <= glen,
            glen == wkb_geoms@.len() && glen > 0 && nlen == dlen,
            nlen == col_names@.len() && dlen == col_data@.len(),
            hyp == run_headroom(
                wkb_geoms@,
                col_names@,
                col_data@,
                simplify_method@,
                node_id_start as int,
                way_id_start as int,
            ),
            !(forall|k: int|
                0 <= k < wkb_geoms@.len() ==> crate::wkb::parse_wkb_spec(
                    (#[trigger] wkb_geoms@[k])@,
                ) is None),
            forall|t: int| 0 <= t < segments@.len() ==> (#[trigger] segments@[t]).wf(),
            forall|a: int, b: int|
                0 <= a < b < feature_nodes@.len() ==> (#[trigger] feature_nodes@[a]).id < (
                #[trigger] feature_nodes@[b]).id,
            forall|a: int|
                0 <= a < feature_nodes@.len() ==> (#[trigger] feature_nodes@[a]).id
                    < next_node_id,
            forall|a: int| 0 <= a < feature_nodes@.len() ==> (#[trigger] feature_nodes@[a]).tags.wf(),
            next_node_id as int <= node_id_start + 8 * (i as int),
        decreases ns - i,
    {
        if next_node_id > i64::MAX - 8 {
            proof {
                if hyp {
                    lemma_rows_points_nonneg(wkb_geoms@, wkb_geoms@.len() as int);
                    assert(false);
                }
            }
            return Result::Err(PipelineError::IdSpace);
        }
        proof {
            crate::features::lemma_feature_tag_list_len(segments@[i as int].properties@);
        }
        let batch = features::generate_nodes_for_segment(&segments[i], next_node_id);
        let mut batch_nodes = batch.0;
        next_node_id = batch.1;
        while batch_nodes.len() > 0
            invariant
                forall|a: int, b: int|
                    0 <= a < b < feature_nodes@.len() ==> (#[trigger] feature_nodes@[a]).id < (
                    #[trigger] feature_nodes@[b]).id,
                forall|a: int|
                    0 <= a < feature_nodes@.len() ==> (#[trigger] feature_nodes@[a]).id
                        < next_node_id,
                forall|a: int|
                    0 <= a < feature_nodes@.len() ==> (#[trigger] feature_nodes@[a]).tags.wf(),
                forall|a: int, b: int|
                    0 <= a < b < batch_nodes@.len() ==> (#[trigger] batch_nodes@[a]).id < (
                    #[trigger] batch_nodes@[b]).id,
                forall|a: int|
                    0 <= a < batch_nodes@.len() ==> (#[trigger] batch_nodes@[a]).id
                        < next_node_id,
                forall|a: int|
                    0 <= a < batch_nodes@.len() ==> (#[trigger] batch_nodes@[a]).tags.wf(),
                forall|a: int, b: int|
                    0 <= a < feature_nodes@.len() && 0 <= b < batch_nodes@.len() ==> (
                    #[trigger] feature_nodes@[a]).id < (#[trigger] batch_nodes@[b]).id,
            decreases batch_nodes@.len(),
        {
            let f = batch_nodes.remove(0);
            feature_nodes.push(f);
        }
        i = i + 1;
    }
    let method = segment::SimplifyMethod::from_name(simplify_method);
    let ways = topology::simplify_network(&mut segments, method);
    proof {
        if hyp {
            lemma_run_budget(
                wkb_geoms@,
                dec,
                tagged,
                segments@,
                ways@,
                feature_nodes@,
                next_node_id as int,
                node_id_start as int,
                way_id_start as int,
            );
        }
    }
    match plan::build_pbf_plan(&ways, &segments, &feature_nodes, next_node_id, way_id_start) {
        Option::Some(p) => Result::Ok((p, skipped)),
        Option::None => {
            proof {
                if hyp {
                    assert(false);
                }
            }
            Result::Err(PipelineError::IdSpace)
        },
    }
}

} // verus!
