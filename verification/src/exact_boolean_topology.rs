//! Planning how one prepared operand's contour records are rewritten onto
//! the other's along the stitch.
use vstd::prelude::*;

use crate::edge::{spec_ordered, spec_reverse};
use crate::exact_boolean::{
    ExactBooleanOperand, ExactBooleanOperation, ExactBooleanOutputFaceSource, ExactBooleanStitchedEdgeSource,
};
use crate::source_details::signed_face_edges;
use crate::stitch_pairs::ExactStitchPath;

verus! {

/// What the rewrite plans read of an assembled boolean result: its vertex
/// count, its faces and where each came from, where each operand's cut
/// vertices went, the stitch sources and paths, and the faces of each
/// prepared operand.
pub struct AssemblyTopology {
    pub vertex_count: usize,
    pub faces: Vec<[i64; 3]>,
    pub face_sources: Vec<ExactBooleanOutputFaceSource>,
    pub first_output_vertex_for_cut_vertex: Vec<Option<usize>>,
    pub second_output_vertex_for_cut_vertex: Vec<Option<usize>>,
    pub stitched_edge_sources: Vec<ExactBooleanStitchedEdgeSource>,
    pub stitched_edge_paths: Vec<ExactStitchPath>,
    pub prepare_first_faces: Vec<usize>,
    pub prepare_second_faces: Vec<usize>,
}

/// One contour record of the base operand to rewrite from the incoming one.
#[derive(Debug, Clone, Copy, PartialEq, Eq)]
pub struct ExactMeshlibRecordRewriteCommand {
    pub stitch_pair_index: usize,
    pub this_operand: ExactBooleanOperand,
    pub from_operand: ExactBooleanOperand,
    pub output_edge: [usize; 2],
    pub this_contour_edge: [usize; 2],
    pub from_contour_edge: [usize; 2],
    pub this_source_edge_index: usize,
    pub from_source_edge_index: usize,
    pub this_source_edge: [usize; 2],
    pub from_source_edge: [usize; 2],
    pub this_side_synthetic: bool,
    pub from_side_synthetic: bool,
    pub synthetic_sides: usize,
}

/// The counts behind a topology rewrite, and whether each step is ready.
#[derive(Debug, Clone, PartialEq, Eq)]
pub struct ExactMeshlibTopologyRewritePlan {
    pub base_operand: ExactBooleanOperand,
    pub incoming_operand: ExactBooleanOperand,
    pub base_faces: usize,
    pub incoming_faces: usize,
    pub stitched_edges: usize,
    pub mapped_contour_edges: usize,
    pub missing_base_contour_edges: usize,
    pub missing_incoming_contour_edges: usize,
    pub contour_direction_mismatches: usize,
    pub mapped_stitch_contour_edges: usize,
    pub missing_stitch_contour_edges: usize,
    pub synthetic_stitch_contour_edges: usize,
    pub stitch_direction_mismatches: usize,
    pub stitch_metadata_ready: bool,
    pub materialized_stitch_contour_edges: usize,
    pub unmaterialized_stitch_contour_edges: usize,
    pub materialized_synthetic_stitch_sides: usize,
    pub stitch_materialization_direction_mismatches: usize,
    pub stitch_materialization_ready: bool,
    pub record_rewrite_commands: usize,
    pub record_rewrite_blocked_edges: usize,
    pub record_rewrite_synthetic_sides: usize,
    pub record_rewrite_direction_mismatches: usize,
    pub record_rewrite_ready: bool,
    pub record_rewrite_command_edges: Vec<ExactMeshlibRecordRewriteCommand>,
    pub open_stitch_paths: usize,
    pub open_stitch_near_edge_updates: usize,
    pub open_stitch_near_edge_blocked_updates: usize,
    pub open_stitch_near_edge_ready: bool,
    pub ready_for_rewrite: bool,
}

/// The base operand, then the incoming one connected onto it: for an
/// intersection the first comes onto the second, otherwise the second onto
/// the first.
pub open spec fn spec_connect_order(operation: ExactBooleanOperation) -> (ExactBooleanOperand, ExactBooleanOperand) {
    if operation == ExactBooleanOperation::Intersection {
        (ExactBooleanOperand::Second, ExactBooleanOperand::First)
    } else {
        (ExactBooleanOperand::First, ExactBooleanOperand::Second)
    }
}

/// The base and incoming operands of the connection.
pub fn meshlib_connect_order(operation: ExactBooleanOperation) -> (out: (ExactBooleanOperand, ExactBooleanOperand))
    ensures
        out == spec_connect_order(operation),
        out.0 != out.1,
        out.0 == ExactBooleanOperand::Second <==> operation == ExactBooleanOperation::Intersection,
{
    if operation == ExactBooleanOperation::Intersection {
        (ExactBooleanOperand::Second, ExactBooleanOperand::First)
    } else {
        (ExactBooleanOperand::First, ExactBooleanOperand::Second)
    }
}

/// How many faces the operand's prepared part has.
pub open spec fn spec_prepared_face_count(assembly: &AssemblyTopology, operand: ExactBooleanOperand) -> nat {
    match operand {
        ExactBooleanOperand::First => assembly.prepare_first_faces@.len(),
        ExactBooleanOperand::Second => assembly.prepare_second_faces@.len(),
    }
}

/// How many faces the operand's prepared part has.
pub fn prepared_face_count(assembly: &AssemblyTopology, operand: ExactBooleanOperand) -> (out: usize)
    ensures
        out == spec_prepared_face_count(assembly, operand),
{
    match operand {
        ExactBooleanOperand::First => assembly.prepare_first_faces.len(),
        ExactBooleanOperand::Second => assembly.prepare_second_faces.len(),
    }
}

/// The first edge, from face `start` on and in winding order, of a face of
/// `operand` whose ordered form is `key`; faces without a source do not count.
pub open spec fn first_operand_edge(
    faces: Seq<[i64; 3]>,
    sources: Seq<ExactBooleanOutputFaceSource>,
    operand: ExactBooleanOperand,
    key: [usize; 2],
    start: int,
) -> Option<[usize; 2]>
    decreases faces.len() - start,
{
    if start < 0 || start >= faces.len() || start >= sources.len() {
        None
    } else if sources[start].operand == operand && spec_ordered(signed_face_edges(faces[start])[0]) == key {
        Some(signed_face_edges(faces[start])[0])
    } else if sources[start].operand == operand && spec_ordered(signed_face_edges(faces[start])[1]) == key {
        Some(signed_face_edges(faces[start])[1])
    } else if sources[start].operand == operand && spec_ordered(signed_face_edges(faces[start])[2]) == key {
        Some(signed_face_edges(faces[start])[2])
    } else {
        first_operand_edge(faces, sources, operand, key, start + 1)
    }
}

/// The operand's contour edge for an output edge: the first face edge of
/// that operand over the same two vertices, as the face walks it.
pub open spec fn spec_directed_contour_edge(
    assembly: &AssemblyTopology,
    operand: ExactBooleanOperand,
    output_edge: [usize; 2],
) -> Option<[usize; 2]> {
    first_operand_edge(assembly.faces@, assembly.face_sources@, operand, spec_ordered(output_edge), 0)
}

/// The operand's contour edge for an output edge.
pub fn directed_contour_edge(assembly: &AssemblyTopology, operand: ExactBooleanOperand, output_edge: [usize; 2]) -> (out: Option<[usize; 2]>)
    ensures
        out == spec_directed_contour_edge(assembly, operand, output_edge),
{
    let key = crate::edge::ordered_edge(output_edge);
    let mut f: usize = 0;
    while f < assembly.faces.len() && f < assembly.face_sources.len()
        invariant
            key == spec_ordered(output_edge),
            first_operand_edge(assembly.faces@, assembly.face_sources@, operand, key, 0) == first_operand_edge(
                assembly.faces@,
                assembly.face_sources@,
                operand,
                key,
                f as int,
            ),
        decreases assembly.faces@.len() - f,
    {
        if assembly.face_sources[f].operand == operand {
            let face = assembly.faces[f];
            let edges = [
                [face[0] as usize, face[1] as usize],
                [face[1] as usize, face[2] as usize],
                [face[2] as usize, face[0] as usize],
            ];
            assert(edges[0] == signed_face_edges(face)[0]);
            assert(edges[1] == signed_face_edges(face)[1]);
            assert(edges[2] == signed_face_edges(face)[2]);
            if crate::edge::same_edge(crate::edge::ordered_edge(edges[0]), key) {
                return Some(edges[0]);
            }
            if crate::edge::same_edge(crate::edge::ordered_edge(edges[1]), key) {
                return Some(edges[1]);
            }
            if crate::edge::same_edge(crate::edge::ordered_edge(edges[2]), key) {
                return Some(edges[2]);
            }
        }
        f += 1;
    }
    None
}

/// The operand's stitch edge of a stitch source.
pub open spec fn spec_operand_stitch_edge(source: ExactBooleanStitchedEdgeSource, operand: ExactBooleanOperand) -> Option<[usize; 2]> {
    match operand {
        ExactBooleanOperand::First => source.first_stitch_edge,
        ExactBooleanOperand::Second => source.second_stitch_edge,
    }
}

/// Whether the operand's stitch edge was made up rather than mapped.
pub open spec fn spec_operand_synthetic(source: ExactBooleanStitchedEdgeSource, operand: ExactBooleanOperand) -> bool {
    match operand {
        ExactBooleanOperand::First => source.first_stitch_edge_synthetic,
        ExactBooleanOperand::Second => source.second_stitch_edge_synthetic,
    }
}

/// The operand's stitch edge of a stitch source.
pub fn operand_stitch_edge(source: &ExactBooleanStitchedEdgeSource, operand: ExactBooleanOperand) -> (out: Option<[usize; 2]>)
    ensures
        out == spec_operand_stitch_edge(*source, operand),
{
    match operand {
        ExactBooleanOperand::First => source.first_stitch_edge,
        ExactBooleanOperand::Second => source.second_stitch_edge,
    }
}

/// The operand's cut edge of a stitch source.
pub fn operand_source_edge(source: &ExactBooleanStitchedEdgeSource, operand: ExactBooleanOperand) -> (out: [usize; 2])
    ensures
        out == match operand {
            ExactBooleanOperand::First => source.first_cut_edge,
            ExactBooleanOperand::Second => source.second_cut_edge,
        },
{
    match operand {
        ExactBooleanOperand::First => source.first_cut_edge,
        ExactBooleanOperand::Second => source.second_cut_edge,
    }
}

/// The operand's cut edge index of a stitch source.
pub fn operand_source_edge_index(source: &ExactBooleanStitchedEdgeSource, operand: ExactBooleanOperand) -> (out: usize)
    ensures
        out == match operand {
            ExactBooleanOperand::First => source.first_edge_index,
            ExactBooleanOperand::Second => source.second_edge_index,
        },
{
    match operand {
        ExactBooleanOperand::First => source.first_edge_index,
        ExactBooleanOperand::Second => source.second_edge_index,
    }
}

/// One when the operand's stitch edge was made up, else zero.
pub fn operand_stitch_edge_synthetic(source: &ExactBooleanStitchedEdgeSource, operand: ExactBooleanOperand) -> (out: usize)
    ensures
        out == (if spec_operand_synthetic(*source, operand) {
            1usize
        } else {
            0usize
        }),
{
    let synthetic = match operand {
        ExactBooleanOperand::First => source.first_stitch_edge_synthetic,
        ExactBooleanOperand::Second => source.second_stitch_edge_synthetic,
    };
    if synthetic {
        1
    } else {
        0
    }
}

/// The edge the operand's contour record takes, and whether it is made up:
/// with a face edge, the stitch edge (else the face edge) as it is; without
/// one, a made-up stitch edge only.
pub open spec fn spec_materialized_operand_edge(
    source: ExactBooleanStitchedEdgeSource,
    operand: ExactBooleanOperand,
    face_edge: Option<[usize; 2]>,
) -> Option<([usize; 2], bool)> {
    let stitch_edge = spec_operand_stitch_edge(source, operand);
    if face_edge is Some {
        match stitch_edge {
            Some(e) => Some((e, false)),
            None => Some((face_edge.unwrap(), false)),
        }
    } else if spec_operand_synthetic(source, operand) {
        match stitch_edge {
            Some(e) => Some((e, true)),
            None => None,
        }
    } else {
        None
    }
}

/// The edge the operand's contour record takes, and whether it is made up.
pub fn materialized_operand_edge(
    source: &ExactBooleanStitchedEdgeSource,
    operand: ExactBooleanOperand,
    face_edge: Option<[usize; 2]>,
) -> (out: Option<([usize; 2], bool)>)
    ensures
        out == spec_materialized_operand_edge(*source, operand, face_edge),
{
    let stitch_edge = operand_stitch_edge(source, operand);
    if let Some(f) = face_edge {
        return match stitch_edge {
            Some(e) => Some((e, false)),
            None => Some((f, false)),
        };
    }
    if operand_stitch_edge_synthetic(source, operand) > 0 {
        match stitch_edge {
            Some(e) => Some((e, true)),
            None => None,
        }
    } else {
        None
    }
}

/// Whether a stitch source's contour records can be written on both sides.
#[derive(Debug, Clone, Copy, PartialEq, Eq)]
pub enum ExactMeshlibMaterializedContourPair {
    Ready { base_edge: [usize; 2], incoming_edge: [usize; 2], base_synthetic: bool, incoming_synthetic: bool },
    Blocked,
}

/// Both sides' records when both can be written and one side has a face edge.
pub open spec fn spec_materialized_pair(
    source: ExactBooleanStitchedEdgeSource,
    base_operand: ExactBooleanOperand,
    incoming_operand: ExactBooleanOperand,
    base_face_edge: Option<[usize; 2]>,
    incoming_face_edge: Option<[usize; 2]>,
) -> ExactMeshlibMaterializedContourPair {
    let base = spec_materialized_operand_edge(source, base_operand, base_face_edge);
    let incoming = spec_materialized_operand_edge(source, incoming_operand, incoming_face_edge);
    let anchored = base_face_edge is Some || incoming_face_edge is Some;
    match (base, incoming) {
        (Some(b), Some(i)) => if anchored {
            ExactMeshlibMaterializedContourPair::Ready {
                base_edge: b.0,
                incoming_edge: i.0,
                base_synthetic: b.1,
                incoming_synthetic: i.1,
            }
        } else {
            ExactMeshlibMaterializedContourPair::Blocked
        },
        _ => ExactMeshlibMaterializedContourPair::Blocked,
    }
}

/// Both sides' records when both can be written and one side has a face edge.
pub fn materialized_contour_pair(
    source: &ExactBooleanStitchedEdgeSource,
    base_operand: ExactBooleanOperand,
    incoming_operand: ExactBooleanOperand,
    base_face_edge: Option<[usize; 2]>,
    incoming_face_edge: Option<[usize; 2]>,
) -> (out: ExactMeshlibMaterializedContourPair)
    ensures
        out == spec_materialized_pair(*source, base_operand, incoming_operand, base_face_edge, incoming_face_edge),
{
    let base = materialized_operand_edge(source, base_operand, base_face_edge);
    let incoming = materialized_operand_edge(source, incoming_operand, incoming_face_edge);
    let anchored = base_face_edge.is_some() || incoming_face_edge.is_some();
    match (base, incoming) {
        (Some((base_edge, base_synthetic)), Some((incoming_edge, incoming_synthetic))) => if anchored {
            ExactMeshlibMaterializedContourPair::Ready { base_edge, incoming_edge, base_synthetic, incoming_synthetic }
        } else {
            ExactMeshlibMaterializedContourPair::Blocked
        },
        _ => ExactMeshlibMaterializedContourPair::Blocked,
    }
}

/// The near-edge updates of the open stitch paths: how many open paths, and
/// of their end pairs (each end counted, so a one-pair path counts twice) how
/// many have written records and how many do not.
#[derive(Debug, Clone, Copy, PartialEq, Eq)]
pub struct ExactMeshlibOpenStitchNearEdgePlan {
    pub open_paths: usize,
    pub updates: usize,
    pub blocked_updates: usize,
    pub ready: bool,
}

/// Whether the stitch source at `x` had its records written.
pub open spec fn flag_at(flags: Seq<bool>, x: usize) -> bool {
    x < flags.len() && flags[x as int]
}

/// Over the first `n` stitch paths: the open paths (`which` 0), the end
/// pairs with written records (1), and those without (2).
pub open spec fn near_tally(paths: Seq<ExactStitchPath>, flags: Seq<bool>, which: int, n: int) -> nat
    decreases n,
{
    if n <= 0 {
        0
    } else {
        let path = paths[n - 1];
        let term: nat = if path.closed || path.pair_indices@.len() == 0 {
            0
        } else {
            let first = flag_at(flags, path.pair_indices@[0]);
            let last = flag_at(flags, path.pair_indices@.last());
            if which == 0 {
                1
            } else if which == 1 {
                (if first { 1nat } else { 0nat }) + (if last { 1nat } else { 0nat })
            } else {
                (if first { 0nat } else { 1nat }) + (if last { 0nat } else { 1nat })
            }
        };
        near_tally(paths, flags, which, n - 1) + term
    }
}

/// The near-edge updates of the open stitch paths.
pub fn open_stitch_near_edge_plan(assembly: &AssemblyTopology, materialized_stitch_pairs: &Vec<bool>) -> (out: ExactMeshlibOpenStitchNearEdgePlan)
    requires
        assembly.stitched_edge_paths@.len() <= usize::MAX / 2,
    ensures
        out.open_paths == near_tally(assembly.stitched_edge_paths@, materialized_stitch_pairs@, 0, assembly.stitched_edge_paths@.len() as int),
        out.updates == near_tally(assembly.stitched_edge_paths@, materialized_stitch_pairs@, 1, assembly.stitched_edge_paths@.len() as int),
        out.blocked_updates == near_tally(assembly.stitched_edge_paths@, materialized_stitch_pairs@, 2, assembly.stitched_edge_paths@.len() as int),
        out.ready == (out.blocked_updates == 0),
{
    let paths = &assembly.stitched_edge_paths;
    let mut open_paths: usize = 0;
    let mut updates: usize = 0;
    let mut blocked_updates: usize = 0;
    let mut p: usize = 0;
    while p < paths.len()
        invariant
            p <= paths@.len(),
            paths@.len() <= usize::MAX / 2,
            open_paths == near_tally(paths@, materialized_stitch_pairs@, 0, p as int),
            updates == near_tally(paths@, materialized_stitch_pairs@, 1, p as int),
            blocked_updates == near_tally(paths@, materialized_stitch_pairs@, 2, p as int),
            open_paths <= p,
            updates + blocked_updates <= 2 * p,
        decreases paths@.len() - p,
    {
        let path = &paths[p];
        if !path.closed && path.pair_indices.len() > 0 {
            open_paths += 1;
            let first = path.pair_indices[0];
            let last = path.pair_indices[path.pair_indices.len() - 1];
            if first < materialized_stitch_pairs.len() && materialized_stitch_pairs[first] {
                updates += 1;
            } else {
                blocked_updates += 1;
            }
            if last < materialized_stitch_pairs.len() && materialized_stitch_pairs[last] {
                updates += 1;
            } else {
                blocked_updates += 1;
            }
        }
        p += 1;
    }
    ExactMeshlibOpenStitchNearEdgePlan { open_paths, updates, blocked_updates, ready: blocked_updates == 0 }
}

/// Stitch source `i`'s part of a count of the rewrite plan, chosen by
/// `which`: 0 both contour edges found, 1 no base contour edge, 2 no
/// incoming contour edge, 3 found contour edges that do not run opposite,
/// 4 both stitch edges known, 5 a stitch edge unknown, 6 made-up stitch
/// edges, 7 known stitch edges that do not run opposite, 8 records written,
/// 9 records blocked, 10 made-up sides among written records, 11 written
/// records that do not run opposite.
pub open spec fn source_term(
    assembly: &AssemblyTopology,
    base: ExactBooleanOperand,
    incoming: ExactBooleanOperand,
    which: int,
    i: int,
) -> nat {
    let source = assembly.stitched_edge_sources@[i];
    let base_edge = spec_directed_contour_edge(assembly, base, source.output_edge);
    let incoming_edge = spec_directed_contour_edge(assembly, incoming, source.output_edge);
    let base_stitch = spec_operand_stitch_edge(source, base);
    let incoming_stitch = spec_operand_stitch_edge(source, incoming);
    let pair = spec_materialized_pair(source, base, incoming, base_edge, incoming_edge);
    let flag = if which == 0 {
        base_edge is Some && incoming_edge is Some
    } else if which == 1 {
        base_edge is None
    } else if which == 2 {
        incoming_edge is None
    } else if which == 3 {
        base_edge is Some && incoming_edge is Some && spec_reverse(base_edge.unwrap()) != incoming_edge.unwrap()
    } else if which == 4 {
        base_stitch is Some && incoming_stitch is Some
    } else if which == 5 {
        base_stitch is None || incoming_stitch is None
    } else if which == 7 {
        base_stitch is Some && incoming_stitch is Some && spec_reverse(base_stitch.unwrap())
            != incoming_stitch.unwrap()
    } else if which == 8 {
        pair is Ready
    } else if which == 9 {
        pair is Blocked
    } else if which == 11 {
        pair matches ExactMeshlibMaterializedContourPair::Ready { base_edge, incoming_edge, .. } && spec_reverse(
            base_edge,
        ) != incoming_edge
    } else {
        false
    };
    if which == 6 {
        (if spec_operand_synthetic(source, base) { 1nat } else { 0nat }) + (if spec_operand_synthetic(source, incoming) {
            1nat
        } else {
            0nat
        })
    } else if which == 10 {
        match pair {
            ExactMeshlibMaterializedContourPair::Ready { base_synthetic, incoming_synthetic, .. } => (if base_synthetic {
                1nat
            } else {
                0nat
            }) + (if incoming_synthetic {
                1nat
            } else {
                0nat
            }),
            ExactMeshlibMaterializedContourPair::Blocked => 0nat,
        }
    } else if flag {
        1nat
    } else {
        0nat
    }
}

/// The count chosen by `which` over the first `n` stitch sources.
pub open spec fn source_tally(
    assembly: &AssemblyTopology,
    base: ExactBooleanOperand,
    incoming: ExactBooleanOperand,
    which: int,
    n: int,
) -> nat
    decreases n,
{
    if n <= 0 {
        0
    } else {
        source_tally(assembly, base, incoming, which, n - 1) + source_term(assembly, base, incoming, which, n - 1)
    }
}

/// The rewrite command of stitch source `i`, when its records are written.
pub open spec fn rewrite_command(
    assembly: &AssemblyTopology,
    base: ExactBooleanOperand,
    incoming: ExactBooleanOperand,
    i: int,
) -> Option<ExactMeshlibRecordRewriteCommand> {
    let source = assembly.stitched_edge_sources@[i];
    let base_edge = spec_directed_contour_edge(assembly, base, source.output_edge);
    let incoming_edge = spec_directed_contour_edge(assembly, incoming, source.output_edge);
    match spec_materialized_pair(source, base, incoming, base_edge, incoming_edge) {
        ExactMeshlibMaterializedContourPair::Ready { base_edge, incoming_edge, base_synthetic, incoming_synthetic } => Some(
            ExactMeshlibRecordRewriteCommand {
                stitch_pair_index: i as usize,
                this_operand: base,
                from_operand: incoming,
                output_edge: source.output_edge,
                this_contour_edge: base_edge,
                from_contour_edge: incoming_edge,
                this_source_edge_index: match base {
                    ExactBooleanOperand::First => source.first_edge_index,
                    ExactBooleanOperand::Second => source.second_edge_index,
                },
                from_source_edge_index: match incoming {
                    ExactBooleanOperand::First => source.first_edge_index,
                    ExactBooleanOperand::Second => source.second_edge_index,
                },
                this_source_edge: match base {
                    ExactBooleanOperand::First => source.first_cut_edge,
                    ExactBooleanOperand::Second => source.second_cut_edge,
                },
                from_source_edge: match incoming {
                    ExactBooleanOperand::First => source.first_cut_edge,
                    ExactBooleanOperand::Second => source.second_cut_edge,
                },
                this_side_synthetic: base_synthetic,
                from_side_synthetic: incoming_synthetic,
                synthetic_sides: ((if base_synthetic { 1nat } else { 0nat }) + (if incoming_synthetic {
                    1nat
                } else {
                    0nat
                })) as usize,
            },
        ),
        ExactMeshlibMaterializedContourPair::Blocked => None,
    }
}

/// The rewrite commands of the first `n` stitch sources, in order.
pub open spec fn rewrite_commands(
    assembly: &AssemblyTopology,
    base: ExactBooleanOperand,
    incoming: ExactBooleanOperand,
    n: int,
) -> Seq<ExactMeshlibRecordRewriteCommand>
    decreases n,
{
    if n <= 0 {
        Seq::empty()
    } else {
        match rewrite_command(assembly, base, incoming, n - 1) {
            Some(c) => rewrite_commands(assembly, base, incoming, n - 1).push(c),
            None => rewrite_commands(assembly, base, incoming, n - 1),
        }
    }
}

/// For each stitch source, whether its records are written.
pub open spec fn written_flags(
    assembly: &AssemblyTopology,
    base: ExactBooleanOperand,
    incoming: ExactBooleanOperand,
) -> Seq<bool> {
    Seq::new(assembly.stitched_edge_sources@.len(), |i: int| rewrite_command(assembly, base, incoming, i) is Some)
}

/// One when `b`, else zero.
fn indicator(b: bool) -> (out: usize)
    ensures
        out == (if b { 1nat } else { 0nat }),
{
    if b {
        1
    } else {
        0
    }
}

/// Whether two directed edges run opposite ways along the same vertices.
fn runs_opposite(a: [usize; 2], b: [usize; 2]) -> (out: bool)
    ensures
        out == (spec_reverse(a) == b),
{
    crate::edge::same_edge(crate::edge::reverse_edge(a), b)
}

/// Stitch source `i`'s part of each count, and its rewrite command.
fn source_terms(
    assembly: &AssemblyTopology,
    base: ExactBooleanOperand,
    incoming: ExactBooleanOperand,
    i: usize,
) -> (out: ([usize; 12], Option<ExactMeshlibRecordRewriteCommand>))
    requires
        i < assembly.stitched_edge_sources@.len(),
    ensures
        forall|w: int| 0 <= w < 12 ==> out.0[w] == source_term(assembly, base, incoming, w, i as int) && out.0[w] <= 2,
        out.0[9] <= 1,
        out.0[11] <= 1,
        out.1 == rewrite_command(assembly, base, incoming, i as int),
{
    let source = &assembly.stitched_edge_sources[i];
    let base_edge = directed_contour_edge(assembly, base, source.output_edge);
    let incoming_edge = directed_contour_edge(assembly, incoming, source.output_edge);
    let base_stitch = operand_stitch_edge(source, base);
    let incoming_stitch = operand_stitch_edge(source, incoming);
    let pair = materialized_contour_pair(source, base, incoming, base_edge, incoming_edge);
    let contour_mismatch = match (base_edge, incoming_edge) {
        (Some(b), Some(c)) => !runs_opposite(b, c),
        _ => false,
    };
    let stitch_mismatch = match (base_stitch, incoming_stitch) {
        (Some(b), Some(c)) => !runs_opposite(b, c),
        _ => false,
    };
    let (written, written_synthetic, written_mismatch, command) = match pair {
        ExactMeshlibMaterializedContourPair::Ready { base_edge, incoming_edge, base_synthetic, incoming_synthetic } => {
            let sides = indicator(base_synthetic) + indicator(incoming_synthetic);
            let command = ExactMeshlibRecordRewriteCommand {
                stitch_pair_index: i,
                this_operand: base,
                from_operand: incoming,
                output_edge: source.output_edge,
                this_contour_edge: base_edge,
                from_contour_edge: incoming_edge,
                this_source_edge_index: operand_source_edge_index(source, base),
                from_source_edge_index: operand_source_edge_index(source, incoming),
                this_source_edge: operand_source_edge(source, base),
                from_source_edge: operand_source_edge(source, incoming),
                this_side_synthetic: base_synthetic,
                from_side_synthetic: incoming_synthetic,
                synthetic_sides: sides,
            };
            (true, sides, !runs_opposite(base_edge, incoming_edge), Some(command))
        },
        ExactMeshlibMaterializedContourPair::Blocked => (false, 0, false, None),
    };
    let terms = [
        indicator(base_edge.is_some() && incoming_edge.is_some()),
        indicator(base_edge.is_none()),
        indicator(incoming_edge.is_none()),
        indicator(contour_mismatch),
        indicator(base_stitch.is_some() && incoming_stitch.is_some()),
        indicator(base_stitch.is_none() || incoming_stitch.is_none()),
        operand_stitch_edge_synthetic(source, base) + operand_stitch_edge_synthetic(source, incoming),
        indicator(stitch_mismatch),
        indicator(written),
        indicator(!written),
        written_synthetic,
        indicator(written_mismatch),
    ];
    proof {
        assert(terms[0] == source_term(assembly, base, incoming, 0, i as int));
        assert(terms[1] == source_term(assembly, base, incoming, 1, i as int));
        assert(terms[2] == source_term(assembly, base, incoming, 2, i as int));
        assert(terms[3] == source_term(assembly, base, incoming, 3, i as int));
        assert(terms[4] == source_term(assembly, base, incoming, 4, i as int));
        assert(terms[5] == source_term(assembly, base, incoming, 5, i as int));
        assert(terms[6] == source_term(assembly, base, incoming, 6, i as int));
        assert(terms[7] == source_term(assembly, base, incoming, 7, i as int));
        assert(terms[8] == source_term(assembly, base, incoming, 8, i as int));
        assert(terms[9] == source_term(assembly, base, incoming, 9, i as int));
        assert(terms[10] == source_term(assembly, base, incoming, 10, i as int));
        assert(terms[11] == source_term(assembly, base, incoming, 11, i as int));
    }
    (terms, command)
}

/// The plan's counts are those of the stitch sources, and the readiness
/// flags follow from them.
pub open spec fn plan_ok(assembly: &AssemblyTopology, operation: ExactBooleanOperation, plan: ExactMeshlibTopologyRewritePlan) -> bool {
    let (base, incoming) = spec_connect_order(operation);
    let n = assembly.stitched_edge_sources@.len() as int;
    let paths = assembly.stitched_edge_paths@;
    let flags = written_flags(assembly, base, incoming);
    let none = n == 0;
    &&& plan.base_operand == base
    &&& plan.incoming_operand == incoming
    &&& plan.base_faces == spec_prepared_face_count(assembly, base)
    &&& plan.incoming_faces == spec_prepared_face_count(assembly, incoming)
    &&& plan.stitched_edges == n
    &&& plan.mapped_contour_edges == source_tally(assembly, base, incoming, 0, n)
    &&& plan.missing_base_contour_edges == source_tally(assembly, base, incoming, 1, n)
    &&& plan.missing_incoming_contour_edges == source_tally(assembly, base, incoming, 2, n)
    &&& plan.contour_direction_mismatches == source_tally(assembly, base, incoming, 3, n)
    &&& plan.mapped_stitch_contour_edges == source_tally(assembly, base, incoming, 4, n)
    &&& plan.missing_stitch_contour_edges == source_tally(assembly, base, incoming, 5, n)
    &&& plan.synthetic_stitch_contour_edges == source_tally(assembly, base, incoming, 6, n)
    &&& plan.stitch_direction_mismatches == source_tally(assembly, base, incoming, 7, n)
    &&& plan.stitch_metadata_ready == (!none && plan.missing_stitch_contour_edges == 0
        && plan.synthetic_stitch_contour_edges == 0 && plan.stitch_direction_mismatches == 0)
    &&& plan.materialized_stitch_contour_edges == source_tally(assembly, base, incoming, 8, n)
    &&& plan.unmaterialized_stitch_contour_edges == source_tally(assembly, base, incoming, 9, n)
    &&& plan.materialized_synthetic_stitch_sides == source_tally(assembly, base, incoming, 10, n)
    &&& plan.stitch_materialization_direction_mismatches == source_tally(assembly, base, incoming, 11, n)
    &&& plan.stitch_materialization_ready == (!none && plan.unmaterialized_stitch_contour_edges == 0
        && plan.stitch_materialization_direction_mismatches == 0)
    &&& plan.record_rewrite_command_edges@ == rewrite_commands(assembly, base, incoming, n)
    &&& plan.record_rewrite_commands == plan.record_rewrite_command_edges@.len()
    &&& plan.record_rewrite_blocked_edges == plan.unmaterialized_stitch_contour_edges
        + plan.stitch_materialization_direction_mismatches
    &&& plan.record_rewrite_synthetic_sides == plan.materialized_synthetic_stitch_sides
    &&& plan.record_rewrite_direction_mismatches == plan.stitch_materialization_direction_mismatches
    &&& plan.open_stitch_paths == near_tally(paths, flags, 0, paths.len() as int)
    &&& plan.open_stitch_near_edge_updates == near_tally(paths, flags, 1, paths.len() as int)
    &&& plan.open_stitch_near_edge_blocked_updates == near_tally(paths, flags, 2, paths.len() as int)
    &&& plan.open_stitch_near_edge_ready == (plan.open_stitch_near_edge_blocked_updates == 0)
    &&& plan.record_rewrite_ready == (!none && plan.record_rewrite_blocked_edges == 0
        && plan.open_stitch_near_edge_ready)
    &&& plan.ready_for_rewrite == (!none && plan.missing_base_contour_edges == 0
        && plan.missing_incoming_contour_edges == 0 && plan.contour_direction_mismatches == 0
        && plan.open_stitch_near_edge_ready)
}

/// The plan for rewriting the incoming operand's contour records onto the
/// base operand's along the stitch: per stitch source, whether each side's
/// contour edge and stitch edge are known and run opposite, whether both
/// sides' records can be written, the rewrite commands, and the near-edge
/// updates at the ends of open stitch paths.
pub fn meshlib_topology_rewrite_plan(assembly: &AssemblyTopology, operation: ExactBooleanOperation) -> (plan: ExactMeshlibTopologyRewritePlan)
    requires
        assembly.stitched_edge_sources@.len() <= usize::MAX / 2,
        assembly.stitched_edge_paths@.len() <= usize::MAX / 2,
    ensures
        plan_ok(assembly, operation, plan),
{
    let (base_operand, incoming_operand) = meshlib_connect_order(operation);
    let base_faces = prepared_face_count(assembly, base_operand);
    let incoming_faces = prepared_face_count(assembly, incoming_operand);
    let n = assembly.stitched_edge_sources.len();
    let mut counts: [usize; 12] = [0; 12];
    let mut commands: Vec<ExactMeshlibRecordRewriteCommand> = Vec::new();
    let mut written: Vec<bool> = Vec::new();
    let mut i: usize = 0;
    while i < n
        invariant
            n == assembly.stitched_edge_sources@.len(),
            n <= usize::MAX / 2,
            i <= n,
            forall|w: int| 0 <= w < 12 ==> counts[w] == source_tally(assembly, base_operand, incoming_operand, w, i as int)
                && counts[w] <= 2 * i,
            counts[9] <= i,
            counts[11] <= i,
            commands@ == rewrite_commands(assembly, base_operand, incoming_operand, i as int),
            written@ == written_flags(assembly, base_operand, incoming_operand).subrange(0, i as int),
        decreases n - i,
    {
        let (terms, command) = source_terms(assembly, base_operand, incoming_operand, i);
        let ghost before = counts;
        let mut w: usize = 0;
        while w < 12
            invariant
                w <= 12,
                i < n,
                n <= usize::MAX / 2,
                forall|v: int| 0 <= v < 12 ==> terms[v] <= 2 && before[v] <= 2 * i,
                terms[9] <= 1,
                terms[11] <= 1,
                before[9] <= i,
                before[11] <= i,
                forall|v: int| 0 <= v < w ==> counts[v] == before[v] + terms[v],
                forall|v: int| w <= v < 12 ==> counts[v] == before[v],
            decreases 12 - w,
        {
            counts[w] = counts[w] + terms[w];
            w += 1;
        }
        let is_written = command.is_some();
        if let Some(c) = command {
            commands.push(c);
        }
        written.push(is_written);
        proof {
            assert(written@ =~= written_flags(assembly, base_operand, incoming_operand).subrange(0, i as int + 1));
        }
        i += 1;
    }
    proof {
        assert(written@ =~= written_flags(assembly, base_operand, incoming_operand));
    }
    let near = open_stitch_near_edge_plan(assembly, &written);
    let none = n == 0;
    let stitch_metadata_ready = !none && counts[5] == 0 && counts[6] == 0 && counts[7] == 0;
    let stitch_materialization_ready = !none && counts[9] == 0 && counts[11] == 0;
    let record_rewrite_blocked_edges = counts[9] + counts[11];
    let record_rewrite_ready = !none && record_rewrite_blocked_edges == 0 && near.ready;
    let record_rewrite_commands = commands.len();
    ExactMeshlibTopologyRewritePlan {
        base_operand,
        incoming_operand,
        base_faces,
        incoming_faces,
        stitched_edges: n,
        mapped_contour_edges: counts[0],
        missing_base_contour_edges: counts[1],
        missing_incoming_contour_edges: counts[2],
        contour_direction_mismatches: counts[3],
        mapped_stitch_contour_edges: counts[4],
        missing_stitch_contour_edges: counts[5],
        synthetic_stitch_contour_edges: counts[6],
        stitch_direction_mismatches: counts[7],
        stitch_metadata_ready,
        materialized_stitch_contour_edges: counts[8],
        unmaterialized_stitch_contour_edges: counts[9],
        materialized_synthetic_stitch_sides: counts[10],
        stitch_materialization_direction_mismatches: counts[11],
        stitch_materialization_ready,
        record_rewrite_commands,
        record_rewrite_blocked_edges,
        record_rewrite_synthetic_sides: counts[10],
        record_rewrite_direction_mismatches: counts[11],
        record_rewrite_ready,
        record_rewrite_command_edges: commands,
        open_stitch_paths: near.open_paths,
        open_stitch_near_edge_updates: near.updates,
        open_stitch_near_edge_blocked_updates: near.blocked_updates,
        open_stitch_near_edge_ready: near.ready,
        ready_for_rewrite: !none && counts[1] == 0 && counts[2] == 0 && counts[3] == 0 && near.ready,
    }
}

/// The connection takes two different operands, and connects the first
/// onto the second exactly for an intersection: for a union and both
/// differences the second comes onto the first. For every operation that
/// stitches both operands, the base is the operand whose cut paths the
/// result keeps.
pub proof fn lemma_connect_order(operation: ExactBooleanOperation)
    ensures
        spec_connect_order(operation).0 != spec_connect_order(operation).1,
        spec_connect_order(operation) == (ExactBooleanOperand::Second, ExactBooleanOperand::First) <==> operation
            == ExactBooleanOperation::Intersection,
        operation == ExactBooleanOperation::DifferenceAB ==> spec_connect_order(operation) == (
            ExactBooleanOperand::First,
            ExactBooleanOperand::Second,
        ),
        operation == ExactBooleanOperation::DifferenceBA ==> spec_connect_order(operation) == (
            ExactBooleanOperand::First,
            ExactBooleanOperand::Second,
        ),
        operation == ExactBooleanOperation::Union ==> spec_connect_order(operation) == (
            ExactBooleanOperand::First,
            ExactBooleanOperand::Second,
        ),
        crate::exact_boolean::spec_requires_stitch(operation) ==> spec_connect_order(operation).0
            == crate::exact_boolean::spec_result_cut_source_operand(operation),
{
}

} // verus!
