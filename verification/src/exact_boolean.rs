//! Boolean operations on two cut meshes: which operand's cut paths the
//! result keeps, and how stitched cut edges map onto the output.
use vstd::prelude::*;

use crate::edge::{spec_ordered, spec_reverse};
use crate::stitch_pairs::{ExactStitchEdgePair, ExactStitchPath, ExactStitchPlan};

verus! {

/// A boolean operation on two closed meshes, or the part of one operand
/// inside or outside the other.
#[derive(Debug, Clone, Copy, PartialEq, Eq, Structural)]
pub enum ExactBooleanOperation {
    Union,
    Intersection,
    DifferenceAB,
    DifferenceBA,
    InsideA,
    InsideB,
    OutsideA,
    OutsideB,
}

/// One of the two operands.
#[derive(Debug, Clone, Copy, PartialEq, Eq, Structural)]
pub enum ExactBooleanOperand {
    First,
    Second,
}

/// The cut face and source face an output face comes from.
#[derive(Debug, Clone, Copy, PartialEq, Eq, Structural)]
pub struct ExactBooleanOutputFaceSource {
    pub operand: ExactBooleanOperand,
    pub cut_face: usize,
    pub source_face: usize,
}

/// Where an output edge along the stitch comes from in each operand.
#[derive(Debug, Clone, Copy, PartialEq, Eq)]
pub struct ExactBooleanStitchedEdgeSource {
    pub output_edge: [usize; 2],
    pub first_output_edge: Option<[usize; 2]>,
    pub second_output_edge: Option<[usize; 2]>,
    pub first_stitch_edge: Option<[usize; 2]>,
    pub second_stitch_edge: Option<[usize; 2]>,
    pub first_stitch_edge_synthetic: bool,
    pub second_stitch_edge_synthetic: bool,
    pub first_edge_index: usize,
    pub second_edge_index: usize,
    pub first_cut_edge: [usize; 2],
    pub second_cut_edge: [usize; 2],
}

/// Which step produced the output mesh.
#[derive(Debug, Clone, Copy, PartialEq, Eq, Structural)]
pub enum ExactBooleanOutputMeshSource {
    Assembly,
    MeshlibPreparedBaseExport,
}

/// Whether the operation joins both operands along a stitch: union,
/// intersection and the two differences.
pub open spec fn spec_requires_stitch(operation: ExactBooleanOperation) -> bool {
    match operation {
        ExactBooleanOperation::Union | ExactBooleanOperation::Intersection | ExactBooleanOperation::DifferenceAB
        | ExactBooleanOperation::DifferenceBA => true,
        _ => false,
    }
}

/// Whether the result's cut paths come from a stitch of both operands.
pub fn requires_stitched_result_cut(operation: ExactBooleanOperation) -> (out: bool)
    ensures
        out == spec_requires_stitch(operation),
{
    match operation {
        ExactBooleanOperation::Union | ExactBooleanOperation::Intersection | ExactBooleanOperation::DifferenceAB
        | ExactBooleanOperation::DifferenceBA => true,
        _ => false,
    }
}

/// Whether the operation splices the topology of both operands.
pub fn requires_topology_splice(operation: ExactBooleanOperation) -> (out: bool)
    ensures
        out == spec_requires_stitch(operation),
{
    requires_stitched_result_cut(operation)
}

/// The operand whose cut paths the result keeps: the second for an
/// intersection, the first for the other stitched operations and for the
/// parts of the first operand, the second otherwise.
pub open spec fn spec_result_cut_source_operand(operation: ExactBooleanOperation) -> ExactBooleanOperand {
    if spec_requires_stitch(operation) {
        if operation == ExactBooleanOperation::Intersection {
            ExactBooleanOperand::Second
        } else {
            ExactBooleanOperand::First
        }
    } else if operation == ExactBooleanOperation::InsideA || operation == ExactBooleanOperation::OutsideA {
        ExactBooleanOperand::First
    } else {
        ExactBooleanOperand::Second
    }
}

/// The operand whose cut paths the result keeps.
pub fn result_cut_source_operand(operation: ExactBooleanOperation) -> (out: ExactBooleanOperand)
    ensures
        out == spec_result_cut_source_operand(operation),
        out == ExactBooleanOperand::Second <==> (operation == ExactBooleanOperation::Intersection || operation
            == ExactBooleanOperation::InsideB || operation == ExactBooleanOperation::OutsideB),
{
    if requires_stitched_result_cut(operation) {
        if operation == ExactBooleanOperation::Intersection {
            ExactBooleanOperand::Second
        } else {
            ExactBooleanOperand::First
        }
    } else if operation == ExactBooleanOperation::InsideA || operation == ExactBooleanOperation::OutsideA {
        ExactBooleanOperand::First
    } else {
        ExactBooleanOperand::Second
    }
}

/// Which side of the second operand the kept part of the first lies on:
/// inside for an intersection, the subtraction of the first and the inside
/// parts of the first, outside for a union, the subtraction of the second
/// and the outside parts of the first; no side when only the second is kept.
pub open spec fn spec_first_need_inside(operation: ExactBooleanOperation) -> Option<bool> {
    match operation {
        ExactBooleanOperation::Union | ExactBooleanOperation::DifferenceAB | ExactBooleanOperation::OutsideA => Some(false),
        ExactBooleanOperation::Intersection | ExactBooleanOperation::DifferenceBA | ExactBooleanOperation::InsideA => Some(
            true,
        ),
        ExactBooleanOperation::InsideB | ExactBooleanOperation::OutsideB => None,
    }
}

/// Which side of the first operand the kept part of the second lies on.
pub open spec fn spec_second_need_inside(operation: ExactBooleanOperation) -> Option<bool> {
    match operation {
        ExactBooleanOperation::Union | ExactBooleanOperation::DifferenceBA | ExactBooleanOperation::OutsideB => Some(false),
        ExactBooleanOperation::Intersection | ExactBooleanOperation::DifferenceAB | ExactBooleanOperation::InsideB => Some(
            true,
        ),
        ExactBooleanOperation::InsideA | ExactBooleanOperation::OutsideA => None,
    }
}

/// Whether the first operand's kept part lies inside the second; `None`
/// when the operation keeps nothing of the first.
pub fn first_need_inside(operation: ExactBooleanOperation) -> (out: Option<bool>)
    ensures
        out == spec_first_need_inside(operation),
{
    match operation {
        ExactBooleanOperation::Union | ExactBooleanOperation::DifferenceAB | ExactBooleanOperation::OutsideA => Some(false),
        ExactBooleanOperation::Intersection | ExactBooleanOperation::DifferenceBA | ExactBooleanOperation::InsideA => Some(
            true,
        ),
        ExactBooleanOperation::InsideB | ExactBooleanOperation::OutsideB => None,
    }
}

/// Whether the second operand's kept part lies inside the first; `None`
/// when the operation keeps nothing of the second.
pub fn second_need_inside(operation: ExactBooleanOperation) -> (out: Option<bool>)
    ensures
        out == spec_second_need_inside(operation),
{
    match operation {
        ExactBooleanOperation::Union | ExactBooleanOperation::DifferenceBA | ExactBooleanOperation::OutsideB => Some(false),
        ExactBooleanOperation::Intersection | ExactBooleanOperation::DifferenceAB | ExactBooleanOperation::InsideB => Some(
            true,
        ),
        ExactBooleanOperation::InsideA | ExactBooleanOperation::OutsideA => None,
    }
}

/// Whether the stitch paths run with the hole on their left: only for an
/// intersection.
pub fn paths_have_left_hole(operation: ExactBooleanOperation) -> (out: bool)
    ensures
        out == (operation == ExactBooleanOperation::Intersection),
{
    operation == ExactBooleanOperation::Intersection
}

/// The operand's name in diagnostics.
pub fn operand_label(operand: ExactBooleanOperand) -> (out: &'static str)
    ensures
        operand == ExactBooleanOperand::First ==> out@ == "first"@,
        operand == ExactBooleanOperand::Second ==> out@ == "second"@,
{
    match operand {
        ExactBooleanOperand::First => "first",
        ExactBooleanOperand::Second => "second",
    }
}

/// A stitched operation keeps a part of each operand.
pub proof fn lemma_stitched_operations_keep_both_operands(operation: ExactBooleanOperation)
    requires
        spec_requires_stitch(operation),
    ensures
        spec_first_need_inside(operation) is Some,
        spec_second_need_inside(operation) is Some,
{
}

/// The cut paths of one operand's cut, and which of them close.
pub struct CutPaths {
    pub cut_edge_paths: Vec<Vec<[usize; 2]>>,
    pub cut_edge_path_closed: Vec<bool>,
}

/// How many cut paths the result keeps, how many edges they have, and how
/// many close.
#[derive(Debug, Clone, Copy, PartialEq, Eq, Structural)]
pub struct MeshlibResultCutPathSummary {
    pub paths: usize,
    pub path_edges: usize,
    pub closed_paths: usize,
}

/// The cut paths the result keeps: those of the operand the operation takes
/// them from.
pub fn meshlib_result_cut_path_source<'a>(
    operation: ExactBooleanOperation,
    first_cut: &'a CutPaths,
    second_cut: &'a CutPaths,
) -> (out: &'a CutPaths)
    ensures
        out == (if spec_result_cut_source_operand(operation) == ExactBooleanOperand::First {
            first_cut
        } else {
            second_cut
        }),
        out == (if operation == ExactBooleanOperation::Intersection || operation == ExactBooleanOperation::InsideB
            || operation == ExactBooleanOperation::OutsideB {
            second_cut
        } else {
            first_cut
        }),
{
    if requires_topology_splice(operation) {
        if operation == ExactBooleanOperation::Intersection {
            second_cut
        } else {
            first_cut
        }
    } else if operation == ExactBooleanOperation::InsideA || operation == ExactBooleanOperation::OutsideA {
        first_cut
    } else {
        second_cut
    }
}

/// The number of edges over the first `n` paths.
pub open spec fn total_edges(paths: Seq<Vec<[usize; 2]>>, n: int) -> int
    decreases n,
{
    if n <= 0 {
        0
    } else {
        total_edges(paths, n - 1) + paths[n - 1]@.len()
    }
}

/// How many of the first `n` flags are set.
pub open spec fn count_true(flags: Seq<bool>, n: int) -> int
    decreases n,
{
    if n <= 0 {
        0
    } else {
        count_true(flags, n - 1) + if flags[n - 1] {
            1int
        } else {
            0int
        }
    }
}

/// The paths of the kept cut: how many, their edges, and how many close.
pub fn meshlib_result_cut_path_summary(
    operation: ExactBooleanOperation,
    first_cut: &CutPaths,
    second_cut: &CutPaths,
) -> (out: MeshlibResultCutPathSummary)
    requires
        total_edges(first_cut.cut_edge_paths@, first_cut.cut_edge_paths@.len() as int) <= usize::MAX,
        total_edges(second_cut.cut_edge_paths@, second_cut.cut_edge_paths@.len() as int) <= usize::MAX,
    ensures
        ({
            let kept = if spec_result_cut_source_operand(operation) == ExactBooleanOperand::First {
                first_cut
            } else {
                second_cut
            };
            &&& out.paths == kept.cut_edge_paths@.len()
            &&& out.path_edges == total_edges(kept.cut_edge_paths@, kept.cut_edge_paths@.len() as int)
            &&& out.closed_paths == count_true(kept.cut_edge_path_closed@, kept.cut_edge_path_closed@.len() as int)
        }),
{
    let kept = meshlib_result_cut_path_source(operation, first_cut, second_cut);
    let paths = &kept.cut_edge_paths;
    let mut edges: usize = 0;
    let mut i: usize = 0;
    while i < paths.len()
        invariant
            i <= paths@.len(),
            total_edges(paths@, paths@.len() as int) <= usize::MAX,
            edges == total_edges(paths@, i as int),
        decreases paths@.len() - i,
    {
        proof {
            lemma_total_edges_monotone(paths@, i as int + 1, paths@.len() as int);
        }
        edges += paths[i].len();
        i += 1;
    }
    let closed = &kept.cut_edge_path_closed;
    let mut closed_count: usize = 0;
    let mut j: usize = 0;
    while j < closed.len()
        invariant
            j <= closed@.len(),
            closed_count == count_true(closed@, j as int),
            closed_count <= j,
        decreases closed@.len() - j,
    {
        if closed[j] {
            closed_count += 1;
        }
        j += 1;
    }
    MeshlibResultCutPathSummary { paths: paths.len(), path_edges: edges, closed_paths: closed_count }
}

/// Edge totals grow with the number of paths counted.
proof fn lemma_total_edges_monotone(paths: Seq<Vec<[usize; 2]>>, a: int, b: int)
    requires
        0 <= a <= b,
    ensures
        total_edges(paths, a) <= total_edges(paths, b),
    decreases b - a,
{
    if a < b {
        lemma_total_edges_monotone(paths, a, b - 1);
    }
}

/// How many of the first `n` paths shared by both lists differ in length.
pub open spec fn length_mismatches(first: Seq<Vec<[usize; 2]>>, second: Seq<Vec<[usize; 2]>>, n: int) -> int
    decreases n,
{
    if n <= 0 {
        0
    } else {
        length_mismatches(first, second, n - 1) + if first[n - 1]@.len() != second[n - 1]@.len() {
            1int
        } else {
            0int
        }
    }
}

/// How many paths the two lists disagree on: paths at the same position of
/// different lengths, plus the paths only one list has.
pub fn cut_path_length_mismatches(first_paths: &Vec<Vec<[usize; 2]>>, second_paths: &Vec<Vec<[usize; 2]>>) -> (out: usize)
    ensures
        out == length_mismatches(
            first_paths@,
            second_paths@,
            if first_paths@.len() <= second_paths@.len() {
                first_paths@.len() as int
            } else {
                second_paths@.len() as int
            },
        ) + if first_paths@.len() <= second_paths@.len() {
            second_paths@.len() - first_paths@.len()
        } else {
            first_paths@.len() - second_paths@.len()
        },
{
    let shared = if first_paths.len() <= second_paths.len() {
        first_paths.len()
    } else {
        second_paths.len()
    };
    let mut mismatches: usize = 0;
    let mut i: usize = 0;
    while i < shared
        invariant
            i <= shared,
            shared <= first_paths@.len(),
            shared <= second_paths@.len(),
            mismatches == length_mismatches(first_paths@, second_paths@, i as int),
            mismatches <= i,
        decreases shared - i,
    {
        if first_paths[i].len() != second_paths[i].len() {
            mismatches += 1;
        }
        i += 1;
    }
    let extra = if first_paths.len() <= second_paths.len() {
        second_paths.len() - first_paths.len()
    } else {
        first_paths.len() - second_paths.len()
    };
    assert(mismatches + extra <= first_paths@.len() + second_paths@.len());
    mismatches + extra
}

/// The image of a vertex under a vertex map, when it has one.
pub open spec fn map_vertex(vertex_map: Seq<Option<usize>>, v: usize) -> Option<usize> {
    if v < vertex_map.len() {
        vertex_map[v as int]
    } else {
        None
    }
}

/// The image of a directed edge, when both ends have one.
pub open spec fn spec_mapped_directed(vertex_map: Seq<Option<usize>>, edge: [usize; 2]) -> Option<[usize; 2]> {
    match (map_vertex(vertex_map, edge[0]), map_vertex(vertex_map, edge[1])) {
        (Some(a), Some(b)) => Some([a, b]),
        _ => None,
    }
}

/// The image of a directed edge, when both ends have one.
pub fn mapped_directed_edge(vertex_map: &Vec<Option<usize>>, edge: [usize; 2]) -> (out: Option<[usize; 2]>)
    ensures
        out == spec_mapped_directed(vertex_map@, edge),
{
    let a = if edge[0] < vertex_map.len() {
        vertex_map[edge[0]]
    } else {
        None
    };
    let b = if edge[1] < vertex_map.len() {
        vertex_map[edge[1]]
    } else {
        None
    };
    match (a, b) {
        (Some(a), Some(b)) => Some([a, b]),
        _ => None,
    }
}

/// The image of an edge with its ends in ascending order.
pub fn mapped_ordered_edge(vertex_map: &Vec<Option<usize>>, edge: [usize; 2]) -> (out: Option<[usize; 2]>)
    ensures
        out == match spec_mapped_directed(vertex_map@, edge) {
            Some(e) => Some(spec_ordered(e)),
            None => None,
        },
{
    match mapped_directed_edge(vertex_map, edge) {
        Some(e) => Some(crate::edge::ordered_edge(e)),
        None => None,
    }
}

/// The corners of a signed face as indices, when each names one of
/// `vertex_count` vertices.
pub fn valid_face_vertices(face: [i64; 3], vertex_count: usize) -> (out: Option<[usize; 3]>)
    ensures
        out is Some <==> crate::mesh::face_ok(face, vertex_count),
        out matches Some(v) ==> v[0] == face[0] && v[1] == face[1] && v[2] == face[2],
{
    if face[0] < 0 || face[1] < 0 || face[2] < 0 {
        return None;
    }
    if face[0] as u64 >= vertex_count as u64 || face[1] as u64 >= vertex_count as u64 || face[2] as u64
        >= vertex_count as u64 {
        return None;
    }
    Some([face[0] as usize, face[1] as usize, face[2] as usize])
}

/// Whether the second stitch source carries on where the first ends, on
/// both operands' stitch edges.
pub open spec fn spec_contiguous(left: ExactBooleanStitchedEdgeSource, right: ExactBooleanStitchedEdgeSource) -> bool {
    match (left.first_stitch_edge, right.first_stitch_edge, left.second_stitch_edge, right.second_stitch_edge) {
        (Some(fl), Some(fr), Some(sl), Some(sr)) => fl[1] == fr[0] && sl[0] == sr[1],
        _ => false,
    }
}

/// Whether the second stitch source carries on where the first ends.
pub fn stitch_sources_are_contiguous(left: &ExactBooleanStitchedEdgeSource, right: &ExactBooleanStitchedEdgeSource) -> (out: bool)
    ensures
        out == spec_contiguous(*left, *right),
{
    match (left.first_stitch_edge, right.first_stitch_edge, left.second_stitch_edge, right.second_stitch_edge) {
        (Some(first_left), Some(first_right), Some(second_left), Some(second_right)) => {
            first_left[1] == first_right[0] && second_left[0] == second_right[1]
        },
        _ => false,
    }
}

/// Whether a segment of stitch sources closes: its last source leads back
/// to its first, on both operands' stitch edges.
pub open spec fn spec_segment_closed(segment: Seq<usize>, sources: Seq<ExactBooleanStitchedEdgeSource>) -> bool {
    segment.len() > 0 && segment[0] < sources.len() && segment.last() < sources.len() && match (
        sources[segment[0] as int].first_stitch_edge,
        sources[segment.last() as int].first_stitch_edge,
        sources[segment[0] as int].second_stitch_edge,
        sources[segment.last() as int].second_stitch_edge,
    ) {
        (Some(fs), Some(fe), Some(ss), Some(se)) => fe[1] == fs[0] && se[0] == ss[1],
        _ => false,
    }
}

/// Whether a segment of stitch sources closes on itself.
pub fn stitch_segment_is_closed(segment: &Vec<usize>, sources: &Vec<ExactBooleanStitchedEdgeSource>) -> (out: bool)
    ensures
        out == spec_segment_closed(segment@, sources@),
{
    if segment.len() == 0 {
        return false;
    }
    let first_index = segment[0];
    let last_index = segment[segment.len() - 1];
    if first_index >= sources.len() || last_index >= sources.len() {
        return false;
    }
    let first = &sources[first_index];
    let last = &sources[last_index];
    match (first.first_stitch_edge, last.first_stitch_edge, first.second_stitch_edge, last.second_stitch_edge) {
        (Some(first_start), Some(first_end), Some(second_start), Some(second_end)) => {
            first_end[1] == first_start[0] && second_end[0] == second_start[1]
        },
        _ => false,
    }
}

/// The stitch source of a pair: the output edge both mapped cut edges agree
/// on (or the one that maps), with the directed images and the stitch edges
/// of each side; none when neither maps or they disagree.
pub open spec fn spec_source_of(
    pair: ExactStitchEdgePair,
    first_map: Seq<Option<usize>>,
    second_map: Seq<Option<usize>>,
) -> Option<ExactBooleanStitchedEdgeSource> {
    let first_dir = spec_mapped_directed(first_map, pair.first_edge);
    let second_dir = spec_mapped_directed(second_map, pair.second_edge);
    let first_out = match first_dir {
        Some(e) => Some(spec_ordered(e)),
        None => None,
    };
    let second_out = match second_dir {
        Some(e) => Some(spec_ordered(e)),
        None => None,
    };
    let output = match (first_out, second_out) {
        (Some(a), Some(b)) => if a == b {
            Some(a)
        } else {
            None
        },
        (Some(a), None) => Some(a),
        (None, Some(b)) => Some(b),
        (None, None) => None,
    };
    match output {
        None => None,
        Some(output_edge) => {
            let first_stitch = match first_dir {
                Some(e) => Some(e),
                None => match second_dir {
                    Some(e) => Some(spec_reverse(e)),
                    None => None,
                },
            };
            let second_stitch = match first_stitch {
                Some(e) => Some(spec_reverse(e)),
                None => None,
            };
            Some(
                ExactBooleanStitchedEdgeSource {
                    output_edge,
                    first_output_edge: first_dir,
                    second_output_edge: second_dir,
                    first_stitch_edge: first_stitch,
                    second_stitch_edge: second_stitch,
                    first_stitch_edge_synthetic: first_dir is None && first_stitch is Some,
                    second_stitch_edge_synthetic: second_dir is None && second_stitch is Some,
                    first_edge_index: pair.first_edge_index,
                    second_edge_index: pair.second_edge_index,
                    first_cut_edge: pair.first_edge,
                    second_cut_edge: pair.second_edge,
                },
            )
        },
    }
}

/// The stitch source of one pair.
fn source_of_pair(
    pair: &ExactStitchEdgePair,
    first_vertex_map: &Vec<Option<usize>>,
    second_vertex_map: &Vec<Option<usize>>,
) -> (out: Option<ExactBooleanStitchedEdgeSource>)
    ensures
        out == spec_source_of(*pair, first_vertex_map@, second_vertex_map@),
{
    let first_output_edge = mapped_ordered_edge(first_vertex_map, pair.first_edge);
    let second_output_edge = mapped_ordered_edge(second_vertex_map, pair.second_edge);
    let first_directed = mapped_directed_edge(first_vertex_map, pair.first_edge);
    let second_directed = mapped_directed_edge(second_vertex_map, pair.second_edge);
    let output_edge = match (first_output_edge, second_output_edge) {
        (Some(first), Some(second)) => {
            if first[0] == second[0] && first[1] == second[1] {
                assert(first =~= second);
                first
            } else {
                assert(first != second);
                return None;
            }
        },
        (Some(first), None) => first,
        (None, Some(second)) => second,
        (None, None) => {
            return None;
        },
    };
    let first_stitch_edge = match first_directed {
        Some(e) => Some(e),
        None => match second_directed {
            Some(e) => Some(crate::edge::reverse_edge(e)),
            None => None,
        },
    };
    let second_stitch_edge = match first_stitch_edge {
        Some(e) => Some(crate::edge::reverse_edge(e)),
        None => None,
    };
    Some(
        ExactBooleanStitchedEdgeSource {
            output_edge,
            first_output_edge: first_directed,
            second_output_edge: second_directed,
            first_stitch_edge,
            second_stitch_edge,
            first_stitch_edge_synthetic: first_directed.is_none() && first_stitch_edge.is_some(),
            second_stitch_edge_synthetic: second_directed.is_none() && second_stitch_edge.is_some(),
            first_edge_index: pair.first_edge_index,
            second_edge_index: pair.second_edge_index,
            first_cut_edge: pair.first_edge,
            second_cut_edge: pair.second_edge,
        },
    )
}

/// The sources of the first `n` pairs that have one, in pair order.
pub open spec fn kept_sources(
    pairs: Seq<ExactStitchEdgePair>,
    first_map: Seq<Option<usize>>,
    second_map: Seq<Option<usize>>,
    n: int,
) -> Seq<ExactBooleanStitchedEdgeSource>
    decreases n,
{
    if n <= 0 {
        Seq::empty()
    } else {
        let before = kept_sources(pairs, first_map, second_map, n - 1);
        match spec_source_of(pairs[n - 1], first_map, second_map) {
            Some(source) => before.push(source),
            None => before,
        }
    }
}

/// For each pair, the position of its source among the kept sources.
pub open spec fn source_positions(
    pairs: Seq<ExactStitchEdgePair>,
    first_map: Seq<Option<usize>>,
    second_map: Seq<Option<usize>>,
) -> Seq<Option<usize>> {
    Seq::new(
        pairs.len(),
        |i: int|
            if spec_source_of(pairs[i], first_map, second_map) is Some {
                Some(kept_sources(pairs, first_map, second_map, i).len() as usize)
            } else {
                None
            },
    )
}

/// A stitch path as plain values: its pair positions and whether it closes.
pub open spec fn path_view(path: ExactStitchPath) -> (Seq<usize>, bool) {
    (path.pair_indices@, path.closed)
}

/// The paths so far with `segment` appended, when it is not empty: it closes
/// when the source path closes, the segment is the whole path, and its ends
/// meet.
pub open spec fn push_segment(
    out: Seq<(Seq<usize>, bool)>,
    segment: Seq<usize>,
    source: (Seq<usize>, bool),
    start: int,
    end: int,
    sources: Seq<ExactBooleanStitchedEdgeSource>,
) -> Seq<(Seq<usize>, bool)> {
    if segment.len() == 0 {
        out
    } else {
        out.push((segment, source.1 && start == 0 && end == source.0.len() && spec_segment_closed(segment, sources)))
    }
}

/// The state after the first `k` pairs of a path: the segments finished,
/// the segment being built, and where it starts. A pair with no source ends
/// the segment; a source that does not carry on from the last one starts a
/// new segment.
pub open spec fn segment_state(
    path: (Seq<usize>, bool),
    positions: Seq<Option<usize>>,
    sources: Seq<ExactBooleanStitchedEdgeSource>,
    out0: Seq<(Seq<usize>, bool)>,
    k: int,
) -> (Seq<(Seq<usize>, bool)>, Seq<usize>, int)
    decreases k,
{
    if k <= 0 {
        (out0, Seq::empty(), 0)
    } else {
        let prev = segment_state(path, positions, sources, out0, k - 1);
        let offset = k - 1;
        let pair_index = path.0[offset];
        let position = if pair_index < positions.len() {
            positions[pair_index as int]
        } else {
            None
        };
        match position {
            None => (push_segment(prev.0, prev.1, path, prev.2, offset, sources), Seq::empty(), offset + 1),
            Some(source_index) => if prev.1.len() > 0 && !spec_contiguous(sources[prev.1.last() as int], sources[source_index as int]) {
                (push_segment(prev.0, prev.1, path, prev.2, offset, sources), seq![source_index], offset)
            } else {
                (prev.0, prev.1.push(source_index), prev.2)
            },
        }
    }
}

/// The segments of the first `n` paths, each path split where a pair has no
/// source or two sources do not carry on.
pub open spec fn mapped_paths_upto(
    paths: Seq<ExactStitchPath>,
    positions: Seq<Option<usize>>,
    sources: Seq<ExactBooleanStitchedEdgeSource>,
    n: int,
) -> Seq<(Seq<usize>, bool)>
    decreases n,
{
    if n <= 0 {
        Seq::empty()
    } else {
        let before = mapped_paths_upto(paths, positions, sources, n - 1);
        let path = path_view(paths[n - 1]);
        let state = segment_state(path, positions, sources, before, path.0.len() as int);
        push_segment(state.0, state.1, path, state.2, path.0.len() as int, sources)
    }
}

/// Source positions name sources.
pub open spec fn positions_ok(positions: Seq<Option<usize>>, source_count: int) -> bool {
    forall|i: int| 0 <= i < positions.len() ==> (#[trigger] positions[i] matches Some(s) ==> s < source_count)
}

/// Appends the segment to the paths when it is not empty, and empties it.
pub fn push_mapped_stitch_segment(
    mapped_paths: &mut Vec<ExactStitchPath>,
    segment: &mut Vec<usize>,
    source_path: &ExactStitchPath,
    segment_start: usize,
    segment_end: usize,
    sources: &Vec<ExactBooleanStitchedEdgeSource>,
)
    ensures
        final(mapped_paths)@.map_values(|p: ExactStitchPath| path_view(p)) == push_segment(
            old(mapped_paths)@.map_values(|p: ExactStitchPath| path_view(p)),
            old(segment)@,
            path_view(*source_path),
            segment_start as int,
            segment_end as int,
            sources@,
        ),
        final(segment)@.len() == 0,
{
    if segment.len() == 0 {
        return;
    }
    let full_path = segment_start == 0 && segment_end == source_path.pair_indices.len();
    let closed = source_path.closed && full_path && stitch_segment_is_closed(segment, sources);
    let mut taken: Vec<usize> = Vec::new();
    std::mem::swap(&mut taken, segment);
    let ghost before = mapped_paths@;
    mapped_paths.push(ExactStitchPath { pair_indices: taken, closed });
    assert(mapped_paths@.map_values(|p: ExactStitchPath| path_view(p)) =~= before.map_values(
        |p: ExactStitchPath| path_view(p),
    ).push(path_view(mapped_paths@.last())));
}

/// Maps each stitch path onto the stitch sources, split into segments where
/// a pair has no source or two sources in a row do not carry on.
pub fn mapped_stitched_paths(
    paths: &Vec<ExactStitchPath>,
    pair_to_source: &Vec<Option<usize>>,
    sources: &Vec<ExactBooleanStitchedEdgeSource>,
) -> (out: Vec<ExactStitchPath>)
    requires
        positions_ok(pair_to_source@, sources@.len() as int),
    ensures
        out@.map_values(|p: ExactStitchPath| path_view(p)) == mapped_paths_upto(
            paths@,
            pair_to_source@,
            sources@,
            paths@.len() as int,
        ),
{
    let mut mapped_paths: Vec<ExactStitchPath> = Vec::new();
    let mut p: usize = 0;
    assert(mapped_paths@.map_values(|q: ExactStitchPath| path_view(q)) =~= Seq::<(Seq<usize>, bool)>::empty());
    while p < paths.len()
        invariant
            p <= paths@.len(),
            positions_ok(pair_to_source@, sources@.len() as int),
            mapped_paths@.map_values(|q: ExactStitchPath| path_view(q)) == mapped_paths_upto(
                paths@,
                pair_to_source@,
                sources@,
                p as int,
            ),
        decreases paths@.len() - p,
    {
        let path = &paths[p];
        let ghost view = path_view(*path);
        let ghost out0 = mapped_paths@.map_values(|q: ExactStitchPath| path_view(q));
        let mut segment: Vec<usize> = Vec::new();
        let mut segment_start: usize = 0;
        let mut offset: usize = 0;
        while offset < path.pair_indices.len()
            invariant
                p < paths@.len(),
                path == &paths@[p as int],
                view == path_view(*path),
                offset <= path.pair_indices@.len(),
                positions_ok(pair_to_source@, sources@.len() as int),
                forall|t: int| 0 <= t < segment@.len() ==> #[trigger] segment@[t] < sources@.len(),
                (mapped_paths@.map_values(|q: ExactStitchPath| path_view(q)), segment@, segment_start as int)
                    == segment_state(view, pair_to_source@, sources@, out0, offset as int),
            decreases path.pair_indices@.len() - offset,
        {
            let pair_index = path.pair_indices[offset];
            let position = if pair_index < pair_to_source.len() {
                pair_to_source[pair_index]
            } else {
                None
            };
            match position {
                None => {
                    push_mapped_stitch_segment(&mut mapped_paths, &mut segment, path, segment_start, offset, sources);
                    segment_start = offset + 1;
                    assert(segment@ =~= Seq::<usize>::empty());
                },
                Some(source_index) => {
                    proof {
                        if pair_index < pair_to_source@.len() {
                            assert(pair_to_source@[pair_index as int] == Some(source_index));
                        }
                    }
                    let n = segment.len();
                    if n > 0 && !stitch_sources_are_contiguous(&sources[segment[n - 1]], &sources[source_index]) {
                        push_mapped_stitch_segment(&mut mapped_paths, &mut segment, path, segment_start, offset, sources);
                        segment_start = offset;
                        segment.push(source_index);
                        assert(segment@ =~= seq![source_index]);
                    } else {
                        segment.push(source_index);
                    }
                },
            }
            offset += 1;
        }
        let ghost state = segment_state(view, pair_to_source@, sources@, out0, offset as int);
        push_mapped_stitch_segment(
            &mut mapped_paths,
            &mut segment,
            path,
            segment_start,
            path.pair_indices.len(),
            sources,
        );
        p += 1;
    }
    mapped_paths
}

/// The stitch sources of the stitch plan's pairs and its paths over them.
pub struct MappedStitchedEdges {
    pub sources: Vec<ExactBooleanStitchedEdgeSource>,
    pub paths: Vec<ExactStitchPath>,
}

/// Maps the stitch plan onto the output: the source of each pair that has
/// one, in pair order, and the plan's paths split into runs of sources that
/// carry on from each other.
pub fn stitched_edge_sources(
    stitch_plan: &ExactStitchPlan,
    first_vertex_map: &Vec<Option<usize>>,
    second_vertex_map: &Vec<Option<usize>>,
) -> (out: MappedStitchedEdges)
    ensures
        out.sources@ == kept_sources(
            stitch_plan.pairs@,
            first_vertex_map@,
            second_vertex_map@,
            stitch_plan.pairs@.len() as int,
        ),
        out.paths@.map_values(|p: ExactStitchPath| path_view(p)) == mapped_paths_upto(
            stitch_plan.paths@,
            source_positions(stitch_plan.pairs@, first_vertex_map@, second_vertex_map@),
            out.sources@,
            stitch_plan.paths@.len() as int,
        ),
{
    let pairs = &stitch_plan.pairs;
    let mut sources: Vec<ExactBooleanStitchedEdgeSource> = Vec::new();
    let mut pair_to_source: Vec<Option<usize>> = Vec::new();
    let mut i: usize = 0;
    while i < pairs.len()
        invariant
            i <= pairs@.len(),
            sources@ == kept_sources(pairs@, first_vertex_map@, second_vertex_map@, i as int),
            sources@.len() <= i,
            pair_to_source@ == source_positions(pairs@, first_vertex_map@, second_vertex_map@).subrange(0, i as int),
        decreases pairs@.len() - i,
    {
        let found = source_of_pair(&pairs[i], first_vertex_map, second_vertex_map);
        let ghost positions = source_positions(pairs@, first_vertex_map@, second_vertex_map@);
        match found {
            Some(source) => {
                pair_to_source.push(Some(sources.len()));
                sources.push(source);
            },
            None => {
                pair_to_source.push(None);
            },
        }
        assert(pair_to_source@ =~= positions.subrange(0, i as int + 1));
        i += 1;
    }
    proof {
        let positions = source_positions(pairs@, first_vertex_map@, second_vertex_map@);
        assert(pair_to_source@ =~= positions);
        assert forall|j: int| 0 <= j < positions.len() implies (#[trigger] positions[j] matches Some(s) ==> s < sources@.len()) by {
            if positions[j] is Some {
                lemma_kept_sources_grow(pairs@, first_vertex_map@, second_vertex_map@, j, pairs@.len() as int);
            }
        }
    }
    let paths = mapped_stitched_paths(&stitch_plan.paths, &pair_to_source, &sources);
    MappedStitchedEdges { sources, paths }
}

/// A pair with a source adds it after the sources of the pairs before it.
proof fn lemma_kept_sources_grow(
    pairs: Seq<ExactStitchEdgePair>,
    first_map: Seq<Option<usize>>,
    second_map: Seq<Option<usize>>,
    j: int,
    n: int,
)
    requires
        0 <= j < n <= pairs.len(),
        spec_source_of(pairs[j], first_map, second_map) is Some,
    ensures
        kept_sources(pairs, first_map, second_map, j).len() < kept_sources(pairs, first_map, second_map, n).len(),
    decreases n - j,
{
    if n > j + 1 {
        lemma_kept_sources_grow(pairs, first_map, second_map, j, n - 1);
    }
}

/// A map from directed edges to directed edges, each key once.
pub struct EdgeFallbacks {
    pub keys: Vec<[usize; 2]>,
    pub values: Vec<[usize; 2]>,
}

impl EdgeFallbacks {
    /// Keys and values pair up, and no key repeats.
    pub open spec fn wf(&self) -> bool {
        self.keys@.len() == self.values@.len() && self.keys@.no_duplicates()
    }

    /// The map the entries stand for.
    pub open spec fn view_map(&self) -> Map<[usize; 2], [usize; 2]> {
        Map::new(
            |k: [usize; 2]| self.keys@.contains(k),
            |k: [usize; 2]| self.values@[choose|i: int| 0 <= i < self.keys@.len() && self.keys@[i] == k],
        )
    }

    /// An empty map.
    pub fn new() -> (out: Self)
        ensures
            out.wf(),
            out.view_map() == Map::<[usize; 2], [usize; 2]>::empty(),
    {
        let out = EdgeFallbacks { keys: Vec::new(), values: Vec::new() };
        assert(out.view_map() =~= Map::<[usize; 2], [usize; 2]>::empty());
        out
    }

    /// Maps `key` to `value` unless `key` is already mapped.
    pub fn insert_if_absent(&mut self, key: [usize; 2], value: [usize; 2])
        requires
            old(self).wf(),
        ensures
            final(self).wf(),
            final(self).view_map() == if old(self).view_map().contains_key(key) {
                old(self).view_map()
            } else {
                old(self).view_map().insert(key, value)
            },
    {
        if crate::edge::contains_edge(&self.keys, key) {
            return;
        }
        let ghost before = *self;
        self.keys.push(key);
        self.values.push(value);
        proof {
            assert(self.keys@.no_duplicates()) by {
                assert forall|a: int, b: int| 0 <= a < b < self.keys@.len() implies self.keys@[a] != self.keys@[b] by {
                    if b == before.keys@.len() {
                        assert(before.keys@.contains(before.keys@[a]));
                    }
                }
            }
            assert(self.view_map() =~= before.view_map().insert(key, value)) by {
                assert forall|k: [usize; 2]| #[trigger] self.view_map().contains_key(k) implies self.view_map()[k]
                    == before.view_map().insert(key, value)[k] by {
                    let i = choose|i: int| 0 <= i < self.keys@.len() && self.keys@[i] == k;
                    if k == key {
                        assert(self.keys@[before.keys@.len() as int] == key);
                        assert(i == before.keys@.len());
                    } else {
                        assert(i < before.keys@.len());
                        assert(before.keys@[i] == k);
                        let j = choose|j: int| 0 <= j < before.keys@.len() && before.keys@[j] == k;
                        assert(i == j);
                    }
                }
                assert forall|k: [usize; 2]| before.view_map().insert(key, value).contains_key(k) implies #[trigger] self.view_map().contains_key(k) by {
                    if k == key {
                        assert(self.keys@[before.keys@.len() as int] == key);
                    } else if before.keys@.contains(k) {
                        let j = choose|j: int| 0 <= j < before.keys@.len() && before.keys@[j] == k;
                        assert(self.keys@[j] == k);
                    }
                }
                assert forall|k: [usize; 2]| #[trigger] self.view_map().contains_key(k) implies before.view_map().insert(key, value).contains_key(k) by {
                    if self.keys@.contains(k) {
                        let i = choose|i: int| 0 <= i < self.keys@.len() && self.keys@[i] == k;
                        if i < before.keys@.len() {
                            assert(before.keys@[i] == k);
                        }
                    }
                }
            }
        }
    }

    /// The edge `key` maps to.
    pub fn get(&self, key: [usize; 2]) -> (out: Option<[usize; 2]>)
        requires
            self.wf(),
        ensures
            out == if self.view_map().contains_key(key) {
                Some(self.view_map()[key])
            } else {
                None::<[usize; 2]>
            },
    {
        let i = crate::edge::find_edge(&self.keys, key);
        if i < self.keys.len() {
            proof {
                let j = choose|j: int| 0 <= j < self.keys@.len() && self.keys@[j] == key;
                assert(i == j);
            }
            Some(self.values[i])
        } else {
            None
        }
    }
}

/// Maps `source_edge` to `mapped_edge` and its reverse to the reverse, each
/// unless already mapped.
pub fn insert_stitch_fallback(fallbacks: &mut EdgeFallbacks, source_edge: [usize; 2], mapped_edge: [usize; 2])
    requires
        old(fallbacks).wf(),
    ensures
        final(fallbacks).wf(),
        final(fallbacks).view_map() == {
            let m1 = if old(fallbacks).view_map().contains_key(source_edge) {
                old(fallbacks).view_map()
            } else {
                old(fallbacks).view_map().insert(source_edge, mapped_edge)
            };
            if m1.contains_key(spec_reverse(source_edge)) {
                m1
            } else {
                m1.insert(spec_reverse(source_edge), spec_reverse(mapped_edge))
            }
        },
{
    fallbacks.insert_if_absent(source_edge, mapped_edge);
    fallbacks.insert_if_absent(crate::edge::reverse_edge(source_edge), crate::edge::reverse_edge(mapped_edge));
}

/// The fallback map after the first `n` pairs: each pair whose other side
/// maps gives its own cut edge the reverse of that image, first pair first.
pub open spec fn fallbacks_upto(
    source_operand: ExactBooleanOperand,
    pairs: Seq<ExactStitchEdgePair>,
    first_map: Seq<Option<usize>>,
    second_map: Seq<Option<usize>>,
    n: int,
) -> Map<[usize; 2], [usize; 2]>
    decreases n,
{
    if n <= 0 {
        Map::empty()
    } else {
        let m = fallbacks_upto(source_operand, pairs, first_map, second_map, n - 1);
        let pair = pairs[n - 1];
        let (own, other) = match source_operand {
            ExactBooleanOperand::First => (pair.first_edge, spec_mapped_directed(second_map, pair.second_edge)),
            ExactBooleanOperand::Second => (pair.second_edge, spec_mapped_directed(first_map, pair.first_edge)),
        };
        match other {
            None => m,
            Some(mapped) => {
                let m1 = if m.contains_key(own) {
                    m
                } else {
                    m.insert(own, spec_reverse(mapped))
                };
                if m1.contains_key(spec_reverse(own)) {
                    m1
                } else {
                    m1.insert(spec_reverse(own), spec_reverse(spec_reverse(mapped)))
                }
            },
        }
    }
}

/// For each cut edge of the kept operand along the stitch, the image of
/// its stitched counterpart, reversed; empty without a stitch plan.
pub fn result_cut_stitch_fallbacks(
    source_operand: ExactBooleanOperand,
    stitch_plan: Option<&ExactStitchPlan>,
    first_vertex_map: &Vec<Option<usize>>,
    second_vertex_map: &Vec<Option<usize>>,
) -> (out: EdgeFallbacks)
    ensures
        out.wf(),
        out.view_map() == match stitch_plan {
            None => Map::empty(),
            Some(plan) => fallbacks_upto(
                source_operand,
                plan.pairs@,
                first_vertex_map@,
                second_vertex_map@,
                plan.pairs@.len() as int,
            ),
        },
{
    let mut fallbacks = EdgeFallbacks::new();
    let plan = match stitch_plan {
        Some(plan) => plan,
        None => {
            return fallbacks;
        },
    };
    let mut i: usize = 0;
    while i < plan.pairs.len()
        invariant
            i <= plan.pairs@.len(),
            fallbacks.wf(),
            fallbacks.view_map() == fallbacks_upto(
                source_operand,
                plan.pairs@,
                first_vertex_map@,
                second_vertex_map@,
                i as int,
            ),
        decreases plan.pairs@.len() - i,
    {
        let pair = &plan.pairs[i];
        match source_operand {
            ExactBooleanOperand::First => {
                if let Some(mapped_second) = mapped_directed_edge(second_vertex_map, pair.second_edge) {
                    insert_stitch_fallback(&mut fallbacks, pair.first_edge, crate::edge::reverse_edge(mapped_second));
                }
            },
            ExactBooleanOperand::Second => {
                if let Some(mapped_first) = mapped_directed_edge(first_vertex_map, pair.first_edge) {
                    insert_stitch_fallback(&mut fallbacks, pair.second_edge, crate::edge::reverse_edge(mapped_first));
                }
            },
        }
        i += 1;
    }
    fallbacks
}

/// How many of the first `n` vertices have a number.
pub open spec fn numbered_count(numbers: Seq<Option<usize>>, n: int) -> nat
    decreases n,
{
    if n <= 0 {
        0
    } else {
        numbered_count(numbers, n - 1) + if numbers[n - 1] is Some {
            1nat
        } else {
            0nat
        }
    }
}

/// Gives vertex `v`, unless it has a number, the number of vertices
/// numbered so far.
pub open spec fn assign_vertex(numbers: Seq<Option<usize>>, v: usize) -> Seq<Option<usize>> {
    if numbers[v as int] is None {
        numbers.update(v as int, Some(numbered_count(numbers, numbers.len() as int) as usize))
    } else {
        numbers
    }
}

/// The numbering and edges after the first `k` prepared faces: the corners
/// of each valid prepared face get the next numbers in first-seen order,
/// and its three edges, ordered, join the edge set.
pub open spec fn prepared_state(
    vertex_count: usize,
    faces: Seq<[i64; 3]>,
    prepare_faces: Seq<usize>,
    k: int,
) -> (Seq<Option<usize>>, Set<[usize; 2]>)
    decreases k,
{
    if k <= 0 {
        (Seq::new(vertex_count as nat, |i: int| None::<usize>), Set::empty())
    } else {
        let prev = prepared_state(vertex_count, faces, prepare_faces, k - 1);
        let f = prepare_faces[k - 1];
        if f < faces.len() && crate::mesh::face_ok(faces[f as int], vertex_count) {
            let face = faces[f as int];
            let v = [face[0] as usize, face[1] as usize, face[2] as usize];
            let numbers = assign_vertex(assign_vertex(assign_vertex(prev.0, v[0]), v[1]), v[2]);
            (numbers, prev.1.insert(spec_ordered([v[0], v[1]])).insert(spec_ordered([v[1], v[2]])).insert(
                spec_ordered([v[2], v[0]]),
            ))
        } else {
            prev
        }
    }
}

/// The vertices and edges of the faces kept for the prepared part, with the
/// vertices numbered in the order they are first met.
pub struct PreparedPartMap {
    pub vertices: Vec<Option<usize>>,
    pub edges: Vec<[usize; 2]>,
}

/// How many vertices have a number.
fn count_numbered(vertices: &Vec<Option<usize>>) -> (out: usize)
    ensures
        out == numbered_count(vertices@, vertices@.len() as int),
{
    let mut count: usize = 0;
    let mut i: usize = 0;
    while i < vertices.len()
        invariant
            i <= vertices@.len(),
            count == numbered_count(vertices@, i as int),
            count <= i,
        decreases vertices@.len() - i,
    {
        if vertices[i].is_some() {
            count += 1;
        }
        i += 1;
    }
    count
}

/// Gives `v`, unless it has a number, the number of vertices numbered so far.
fn number_vertex(vertices: &mut Vec<Option<usize>>, v: usize)
    requires
        v < old(vertices)@.len(),
    ensures
        final(vertices)@ == assign_vertex(old(vertices)@, v),
{
    if vertices[v].is_none() {
        let next = count_numbered(vertices);
        vertices.set(v, Some(next));
    }
}

impl PreparedPartMap {
    /// The numbering of the vertices of the valid faces among
    /// `prepare_faces`, and their edges.
    pub fn new(vertex_count: usize, faces: &Vec<[i64; 3]>, prepare_faces: &Vec<usize>) -> (out: Self)
        ensures
            out.vertices@ == prepared_state(vertex_count, faces@, prepare_faces@, prepare_faces@.len() as int).0,
            crate::edge::edges_increasing(out.edges@),
            out.edges@.to_set() == prepared_state(vertex_count, faces@, prepare_faces@, prepare_faces@.len() as int).1,
    {
        let mut vertices: Vec<Option<usize>> = Vec::new();
        let mut i: usize = 0;
        while i < vertex_count
            invariant
                i <= vertex_count,
                vertices@.len() == i,
                forall|j: int| 0 <= j < i ==> (#[trigger] vertices@[j]) is None,
            decreases vertex_count - i,
        {
            vertices.push(None);
            i += 1;
        }
        assert(vertices@ =~= prepared_state(vertex_count, faces@, prepare_faces@, 0).0);
        let mut edges: Vec<[usize; 2]> = Vec::new();
        let mut k: usize = 0;
        assert(edges@.to_set() =~= Set::<[usize; 2]>::empty());
        while k < prepare_faces.len()
            invariant
                k <= prepare_faces@.len(),
                vertices@.len() == vertex_count,
                crate::edge::edges_increasing(edges@),
                (vertices@, edges@.to_set()) == prepared_state(vertex_count, faces@, prepare_faces@, k as int),
            decreases prepare_faces@.len() - k,
        {
            let f = prepare_faces[k];
            if f < faces.len() {
                if let Some(v) = valid_face_vertices(faces[f], vertex_count) {
                    assert(crate::mesh::face_ok(faces@[f as int], vertex_count));
                    number_vertex(&mut vertices, v[0]);
                    number_vertex(&mut vertices, v[1]);
                    number_vertex(&mut vertices, v[2]);
                    crate::edge::insert_sorted_edge(&mut edges, crate::edge::ordered_edge([v[0], v[1]]));
                    crate::edge::insert_sorted_edge(&mut edges, crate::edge::ordered_edge([v[1], v[2]]));
                    crate::edge::insert_sorted_edge(&mut edges, crate::edge::ordered_edge([v[2], v[0]]));
                    proof {
                        let face = faces@[f as int];
                        assert(v == [face[0] as usize, face[1] as usize, face[2] as usize]);
                    }
                }
            }
            k += 1;
        }
        PreparedPartMap { vertices, edges }
    }

    /// The image of a directed edge of the prepared part, when its ends map
    /// to two different vertices.
    pub fn mapped_directed_edge(&self, edge: [usize; 2]) -> (out: Option<[usize; 2]>)
        ensures
            out == if self.edges@.contains(spec_ordered(edge)) {
                match spec_mapped_directed(self.vertices@, edge) {
                    Some(m) => if m[0] != m[1] {
                        Some(m)
                    } else {
                        None
                    },
                    None => None,
                }
            } else {
                None
            },
    {
        if !crate::edge::contains_edge(&self.edges, crate::edge::ordered_edge(edge)) {
            return None;
        }
        match mapped_directed_edge(&self.vertices, edge) {
            Some(m) => if m[0] != m[1] {
                Some(m)
            } else {
                None
            },
            None => None,
        }
    }
}

/// Whether a paired coplanar candidate may be promoted to the result's
/// topology: only for a union or an intersection, and only when its
/// diagnostics call its topology promotable.
pub fn paired_coplanar_candidate_topology_promotable(operation: ExactBooleanOperation, topology_promotable: bool) -> (out: bool)
    ensures
        out == ((operation == ExactBooleanOperation::Union || operation == ExactBooleanOperation::Intersection)
            && topology_promotable),
{
    (operation == ExactBooleanOperation::Union || operation == ExactBooleanOperation::Intersection) && topology_promotable
}

/// The result keeps the cut paths of the first operand for a union, both
/// differences and the parts of the first operand, and those of the second
/// only for an intersection and the parts of the second; and it keeps the
/// cut paths of an operand whose part it keeps.
pub proof fn lemma_result_cut_source_operand(operation: ExactBooleanOperation)
    ensures
        spec_result_cut_source_operand(operation) == ExactBooleanOperand::Second <==> (operation
            == ExactBooleanOperation::Intersection || operation == ExactBooleanOperation::InsideB || operation
            == ExactBooleanOperation::OutsideB),
        operation == ExactBooleanOperation::Union ==> spec_result_cut_source_operand(operation) == ExactBooleanOperand::First,
        operation == ExactBooleanOperation::DifferenceAB ==> spec_result_cut_source_operand(operation) == ExactBooleanOperand::First,
        operation == ExactBooleanOperation::DifferenceBA ==> spec_result_cut_source_operand(operation) == ExactBooleanOperand::First,
        operation == ExactBooleanOperation::Intersection ==> spec_result_cut_source_operand(operation) == ExactBooleanOperand::Second,
        spec_result_cut_source_operand(operation) == ExactBooleanOperand::First ==> spec_first_need_inside(operation) is Some,
        spec_result_cut_source_operand(operation) == ExactBooleanOperand::Second ==> spec_second_need_inside(operation) is Some,
{
}

/// The stitch source of a pair, read from the images of its two cut edges:
/// there is one exactly when some cut edge maps and the two images, where
/// both exist, are the same undirected edge; its output edge is that
/// undirected image; each side records its own directed image; the first
/// side's stitch edge is its own image, or else the second side's image
/// reversed; the two stitch edges are reverses of each other; and a side's
/// stitch edge is synthetic exactly when its own cut edge does not map.
pub proof fn lemma_stitch_source_sides(
    pair: ExactStitchEdgePair,
    first_map: Seq<Option<usize>>,
    second_map: Seq<Option<usize>>,
)
    ensures
        ({
            let first_dir = spec_mapped_directed(first_map, pair.first_edge);
            let second_dir = spec_mapped_directed(second_map, pair.second_edge);
            let src = spec_source_of(pair, first_map, second_map);
            &&& src is Some <==> ((first_dir is Some || second_dir is Some) && (first_dir matches Some(a) ==> (second_dir matches Some(b)
                ==> spec_ordered(a) == spec_ordered(b))))
            &&& src matches Some(s) ==> {
                &&& s.first_output_edge == first_dir
                &&& s.second_output_edge == second_dir
                &&& (first_dir matches Some(a) ==> s.output_edge == spec_ordered(a) && s.first_stitch_edge == Some(a)
                    && s.second_stitch_edge == Some(spec_reverse(a)))
                &&& (first_dir is None ==> (second_dir matches Some(b) ==> s.output_edge == spec_ordered(b)
                    && s.second_stitch_edge == Some(b) && s.first_stitch_edge == Some(spec_reverse(b))))
                &&& s.first_stitch_edge_synthetic == (first_dir is None)
                &&& s.second_stitch_edge_synthetic == (second_dir is None)
                &&& s.first_edge_index == pair.first_edge_index
                &&& s.second_edge_index == pair.second_edge_index
                &&& s.first_cut_edge == pair.first_edge
                &&& s.second_cut_edge == pair.second_edge
            }
        }),
{
    let second_dir = spec_mapped_directed(second_map, pair.second_edge);
    if let Some(b) = second_dir {
        assert(spec_reverse(spec_reverse(b)) =~= b);
    }
}

} // verus!
