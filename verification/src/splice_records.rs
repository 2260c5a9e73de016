//! The rewrite's own records of what it did to each contour record, each
//! relinked edge and each copied face, read into the diagnostics records.
use vstd::prelude::*;

use crate::exact_boolean::{operand_label, ExactBooleanOperand};
use crate::exact_boolean_topology::ExactMeshlibRecordRewriteCommand;
use crate::source_cut2origin::copy_items;
use crate::meshlib_diagnostics::{
    MeshlibCopiedFaceRecordCandidateDiagnostic, MeshlibCopiedFaceRecordDiagnostic,
    MeshlibCopiedPrevNextEdgeUpdateDiagnostic, MeshlibFaceExportFailureDiagnostic, MeshlibPreparedSourceRecordReplayDiagnostic,
    MeshlibRecordRewriteFailedCommandDiagnostic, MeshlibRecordRewriteTargetDiagnostic,
};

verus! {

/// What the rewrite recorded of one contour record target, before and after.
#[derive(Debug, Clone, Copy, PartialEq, Eq)]
pub struct ExactMeshlibRecordRewriteTargetDiagnostic {
    pub stitch_pair_index: usize,
    pub target_edge_id: usize,
    pub target_was_near_stitch_target: bool,
    pub target_origin_before: Option<usize>,
    pub target_left_before: Option<usize>,
    pub target_right_before: Option<usize>,
    pub target_next_edge_id_before: usize,
    pub target_prev_edge_id_before: usize,
    pub target_origin_after: Option<usize>,
    pub target_left_after: Option<usize>,
    pub target_right_after: Option<usize>,
    pub target_next_edge_id_after: usize,
    pub target_prev_edge_id_after: usize,
    pub record_next_edge_id: usize,
    pub record_left: Option<usize>,
    pub record_sym_prev_edge_id: usize,
}

/// The diagnostics record of a rewrite target: every field carried over.
pub open spec fn spec_record_rewrite_target_detail(detail: ExactMeshlibRecordRewriteTargetDiagnostic) -> MeshlibRecordRewriteTargetDiagnostic {
    MeshlibRecordRewriteTargetDiagnostic {
        stitch_pair_index: detail.stitch_pair_index,
        target_edge_id: detail.target_edge_id,
        target_was_near_stitch_target: detail.target_was_near_stitch_target,
        target_origin_before: detail.target_origin_before,
        target_left_before: detail.target_left_before,
        target_right_before: detail.target_right_before,
        target_next_edge_id_before: detail.target_next_edge_id_before,
        target_prev_edge_id_before: detail.target_prev_edge_id_before,
        target_origin_after: detail.target_origin_after,
        target_left_after: detail.target_left_after,
        target_right_after: detail.target_right_after,
        target_next_edge_id_after: detail.target_next_edge_id_after,
        target_prev_edge_id_after: detail.target_prev_edge_id_after,
        record_next_edge_id: detail.record_next_edge_id,
        record_left: detail.record_left,
        record_sym_prev_edge_id: detail.record_sym_prev_edge_id,
    }
}

/// The diagnostics record of a rewrite target.
pub fn record_rewrite_target_detail(detail: &ExactMeshlibRecordRewriteTargetDiagnostic) -> (out: MeshlibRecordRewriteTargetDiagnostic)
    ensures
        out == spec_record_rewrite_target_detail(*detail),
{
    MeshlibRecordRewriteTargetDiagnostic {
        stitch_pair_index: detail.stitch_pair_index,
        target_edge_id: detail.target_edge_id,
        target_was_near_stitch_target: detail.target_was_near_stitch_target,
        target_origin_before: detail.target_origin_before,
        target_left_before: detail.target_left_before,
        target_right_before: detail.target_right_before,
        target_next_edge_id_before: detail.target_next_edge_id_before,
        target_prev_edge_id_before: detail.target_prev_edge_id_before,
        target_origin_after: detail.target_origin_after,
        target_left_after: detail.target_left_after,
        target_right_after: detail.target_right_after,
        target_next_edge_id_after: detail.target_next_edge_id_after,
        target_prev_edge_id_after: detail.target_prev_edge_id_after,
        record_next_edge_id: detail.record_next_edge_id,
        record_left: detail.record_left,
        record_sym_prev_edge_id: detail.record_sym_prev_edge_id,
    }
}

/// What the rewrite recorded of one source record replayed onto the prepared base.
#[derive(Debug, Clone, Copy, PartialEq, Eq)]
pub struct ExactMeshlibPreparedSourceRecordReplayDiagnostic {
    pub target_edge_id: usize,
    pub target_was_near_stitch_target: bool,
    pub target_origin_before: Option<usize>,
    pub target_left_before: Option<usize>,
    pub target_right_before: Option<usize>,
    pub target_origin_after: Option<usize>,
    pub target_left_after: Option<usize>,
    pub target_right_after: Option<usize>,
    pub record_next_edge_id: usize,
    pub record_left: Option<usize>,
    pub record_sym_prev_edge_id: usize,
    pub applied: bool,
    pub skipped_reason: Option<&'static str>,
}

/// The diagnostics record of a replayed source record: every field carried over.
pub open spec fn spec_mapped_source_record_replay_detail(detail: ExactMeshlibPreparedSourceRecordReplayDiagnostic) -> MeshlibPreparedSourceRecordReplayDiagnostic {
    MeshlibPreparedSourceRecordReplayDiagnostic {
        target_edge_id: detail.target_edge_id,
        target_was_near_stitch_target: detail.target_was_near_stitch_target,
        target_origin_before: detail.target_origin_before,
        target_left_before: detail.target_left_before,
        target_right_before: detail.target_right_before,
        target_origin_after: detail.target_origin_after,
        target_left_after: detail.target_left_after,
        target_right_after: detail.target_right_after,
        record_next_edge_id: detail.record_next_edge_id,
        record_left: detail.record_left,
        record_sym_prev_edge_id: detail.record_sym_prev_edge_id,
        applied: detail.applied,
        skipped_reason: detail.skipped_reason,
    }
}

/// The diagnostics record of a replayed source record.
pub fn mapped_source_record_replay_detail(detail: &ExactMeshlibPreparedSourceRecordReplayDiagnostic) -> (out: MeshlibPreparedSourceRecordReplayDiagnostic)
    ensures
        out == spec_mapped_source_record_replay_detail(*detail),
{
    MeshlibPreparedSourceRecordReplayDiagnostic {
        target_edge_id: detail.target_edge_id,
        target_was_near_stitch_target: detail.target_was_near_stitch_target,
        target_origin_before: detail.target_origin_before,
        target_left_before: detail.target_left_before,
        target_right_before: detail.target_right_before,
        target_origin_after: detail.target_origin_after,
        target_left_after: detail.target_left_after,
        target_right_after: detail.target_right_after,
        record_next_edge_id: detail.record_next_edge_id,
        record_left: detail.record_left,
        record_sym_prev_edge_id: detail.record_sym_prev_edge_id,
        applied: detail.applied,
        skipped_reason: detail.skipped_reason,
    }
}

/// What the rewrite recorded of one relinking of a copied contour edge.
#[derive(Debug, Clone, Copy, PartialEq, Eq)]
pub struct ExactMeshlibCopiedPrevNextEdgeUpdateDiagnostic {
    pub source_contour_edge_id: Option<usize>,
    pub target_contour_edge_id: Option<usize>,
    pub walked_source_edge_id: Option<usize>,
    pub update_kind: Option<&'static str>,
    pub previous_edge_id: usize,
    pub next_edge_id: usize,
    pub previous_origin: Option<usize>,
    pub next_origin: Option<usize>,
    pub previous_left: Option<usize>,
    pub next_right: Option<usize>,
    pub applied: bool,
    pub skipped_reason: Option<&'static str>,
}

/// The diagnostics record of a relinking: every field carried over.
pub open spec fn spec_copied_prev_next_edge_update_detail(detail: ExactMeshlibCopiedPrevNextEdgeUpdateDiagnostic) -> MeshlibCopiedPrevNextEdgeUpdateDiagnostic {
    MeshlibCopiedPrevNextEdgeUpdateDiagnostic {
        source_contour_edge_id: detail.source_contour_edge_id,
        target_contour_edge_id: detail.target_contour_edge_id,
        walked_source_edge_id: detail.walked_source_edge_id,
        update_kind: detail.update_kind,
        previous_edge_id: detail.previous_edge_id,
        next_edge_id: detail.next_edge_id,
        previous_origin: detail.previous_origin,
        next_origin: detail.next_origin,
        previous_left: detail.previous_left,
        next_right: detail.next_right,
        applied: detail.applied,
        skipped_reason: detail.skipped_reason,
    }
}

/// The diagnostics record of a relinking of a copied contour edge.
pub fn copied_prev_next_edge_update_detail(detail: &ExactMeshlibCopiedPrevNextEdgeUpdateDiagnostic) -> (out: MeshlibCopiedPrevNextEdgeUpdateDiagnostic)
    ensures
        out == spec_copied_prev_next_edge_update_detail(*detail),
{
    MeshlibCopiedPrevNextEdgeUpdateDiagnostic {
        source_contour_edge_id: detail.source_contour_edge_id,
        target_contour_edge_id: detail.target_contour_edge_id,
        walked_source_edge_id: detail.walked_source_edge_id,
        update_kind: detail.update_kind,
        previous_edge_id: detail.previous_edge_id,
        next_edge_id: detail.next_edge_id,
        previous_origin: detail.previous_origin,
        next_origin: detail.next_origin,
        previous_left: detail.previous_left,
        next_right: detail.next_right,
        applied: detail.applied,
        skipped_reason: detail.skipped_reason,
    }
}

/// What the rewrite recorded of one candidate record edge of a copied face.
#[derive(Debug, Clone, PartialEq, Eq)]
pub struct ExactMeshlibCopiedFaceRecordCandidateDiagnostic {
    pub source_edge_id: usize,
    pub source_edge_vertices: Option<[usize; 2]>,
    pub source_edge_left: Option<usize>,
    pub source_edge_right: Option<usize>,
    pub source_next_edge_id: usize,
    pub source_prev_edge_id: usize,
    pub mapped_edge_id: Option<usize>,
    pub face_edge_id: Option<usize>,
    pub face_edge_origin: Option<usize>,
    pub face_edge_destination: Option<usize>,
    pub face_edge_left: Option<usize>,
    pub face_edge_right: Option<usize>,
    pub face_edge_next_edge_id: Option<usize>,
    pub face_edge_prev_edge_id: Option<usize>,
    pub face_edge_sym_next_edge_id: Option<usize>,
    pub face_edge_sym_prev_edge_id: Option<usize>,
    pub face_edge_left_ring_next_edge_id: Option<usize>,
    pub left_ring_valid: bool,
    pub left_ring_error: Option<&'static str>,
}

/// The diagnostics record of a candidate record edge: every field carried over.
pub open spec fn spec_copied_face_record_candidate_detail(detail: ExactMeshlibCopiedFaceRecordCandidateDiagnostic) -> MeshlibCopiedFaceRecordCandidateDiagnostic {
    MeshlibCopiedFaceRecordCandidateDiagnostic {
        source_edge_id: detail.source_edge_id,
        source_edge_vertices: detail.source_edge_vertices,
        source_edge_left: detail.source_edge_left,
        source_edge_right: detail.source_edge_right,
        source_next_edge_id: detail.source_next_edge_id,
        source_prev_edge_id: detail.source_prev_edge_id,
        mapped_edge_id: detail.mapped_edge_id,
        face_edge_id: detail.face_edge_id,
        face_edge_origin: detail.face_edge_origin,
        face_edge_destination: detail.face_edge_destination,
        face_edge_left: detail.face_edge_left,
        face_edge_right: detail.face_edge_right,
        face_edge_next_edge_id: detail.face_edge_next_edge_id,
        face_edge_prev_edge_id: detail.face_edge_prev_edge_id,
        face_edge_sym_next_edge_id: detail.face_edge_sym_next_edge_id,
        face_edge_sym_prev_edge_id: detail.face_edge_sym_prev_edge_id,
        face_edge_left_ring_next_edge_id: detail.face_edge_left_ring_next_edge_id,
        left_ring_valid: detail.left_ring_valid,
        left_ring_error: detail.left_ring_error,
    }
}

/// The diagnostics record of a candidate record edge.
pub fn copied_face_record_candidate_detail(detail: &ExactMeshlibCopiedFaceRecordCandidateDiagnostic) -> (out: MeshlibCopiedFaceRecordCandidateDiagnostic)
    ensures
        out == spec_copied_face_record_candidate_detail(*detail),
{
    MeshlibCopiedFaceRecordCandidateDiagnostic {
        source_edge_id: detail.source_edge_id,
        source_edge_vertices: detail.source_edge_vertices,
        source_edge_left: detail.source_edge_left,
        source_edge_right: detail.source_edge_right,
        source_next_edge_id: detail.source_next_edge_id,
        source_prev_edge_id: detail.source_prev_edge_id,
        mapped_edge_id: detail.mapped_edge_id,
        face_edge_id: detail.face_edge_id,
        face_edge_origin: detail.face_edge_origin,
        face_edge_destination: detail.face_edge_destination,
        face_edge_left: detail.face_edge_left,
        face_edge_right: detail.face_edge_right,
        face_edge_next_edge_id: detail.face_edge_next_edge_id,
        face_edge_prev_edge_id: detail.face_edge_prev_edge_id,
        face_edge_sym_next_edge_id: detail.face_edge_sym_next_edge_id,
        face_edge_sym_prev_edge_id: detail.face_edge_sym_prev_edge_id,
        face_edge_left_ring_next_edge_id: detail.face_edge_left_ring_next_edge_id,
        left_ring_valid: detail.left_ring_valid,
        left_ring_error: detail.left_ring_error,
    }
}

/// What the rewrite recorded of the record edge chosen for a copied face.
#[derive(Debug, Clone, PartialEq, Eq)]
pub struct ExactMeshlibCopiedFaceRecordDiagnostic {
    pub output_face: usize,
    pub cut_face: usize,
    pub source_face: Option<usize>,
    pub selected_edge_id: usize,
    pub selected_source_edge_id: usize,
    pub selected_source_edge_vertices: Option<[usize; 2]>,
    pub selected_by_valid_left_ring: bool,
    pub selected_left_ring_valid: bool,
    pub selected_left_ring_error: Option<&'static str>,
    pub candidates: Vec<ExactMeshlibCopiedFaceRecordCandidateDiagnostic>,
}

/// The diagnostics record of a copied face: every field carried over, each
/// candidate read as `copied_face_record_candidate_detail` reads it.
pub fn copied_face_record_detail(detail: &ExactMeshlibCopiedFaceRecordDiagnostic) -> (out: MeshlibCopiedFaceRecordDiagnostic)
    ensures
        out.output_face == detail.output_face,
        out.cut_face == detail.cut_face,
        out.source_face == detail.source_face,
        out.selected_edge_id == detail.selected_edge_id,
        out.selected_source_edge_id == detail.selected_source_edge_id,
        out.selected_source_edge_vertices == detail.selected_source_edge_vertices,
        out.selected_by_valid_left_ring == detail.selected_by_valid_left_ring,
        out.selected_left_ring_valid == detail.selected_left_ring_valid,
        out.selected_left_ring_error == detail.selected_left_ring_error,
        out.candidates@.len() == detail.candidates@.len(),
        forall|i: int|
            0 <= i < detail.candidates@.len() ==> #[trigger] out.candidates@[i] == spec_copied_face_record_candidate_detail(
                detail.candidates@[i],
            ),
{
    let mut candidates: Vec<MeshlibCopiedFaceRecordCandidateDiagnostic> = Vec::new();
    let mut i: usize = 0;
    while i < detail.candidates.len()
        invariant
            i <= detail.candidates@.len(),
            candidates@.len() == i,
            forall|j: int|
                0 <= j < i ==> #[trigger] candidates@[j] == spec_copied_face_record_candidate_detail(detail.candidates@[j]),
        decreases detail.candidates.len() - i,
    {
        candidates.push(copied_face_record_candidate_detail(&detail.candidates[i]));
        i += 1;
    }
    MeshlibCopiedFaceRecordDiagnostic {
        output_face: detail.output_face,
        cut_face: detail.cut_face,
        source_face: detail.source_face,
        selected_edge_id: detail.selected_edge_id,
        selected_source_edge_id: detail.selected_source_edge_id,
        selected_source_edge_vertices: detail.selected_source_edge_vertices,
        selected_by_valid_left_ring: detail.selected_by_valid_left_ring,
        selected_left_ring_valid: detail.selected_left_ring_valid,
        selected_left_ring_error: detail.selected_left_ring_error,
        candidates,
    }
}

/// One rewrite command as the rewrite applied it: the command, the reason
/// it failed, if it did, and what it did to its target, if it reached one.
#[derive(Debug, Clone, Copy, PartialEq, Eq)]
pub struct ExactMeshlibRecordRewriteApplyEntry {
    pub command: ExactMeshlibRecordRewriteCommand,
    pub error: Option<&'static str>,
    pub target_diagnostic: Option<ExactMeshlibRecordRewriteTargetDiagnostic>,
}

/// The operand's name in diagnostics, as a value.
pub open spec fn operand_name(operand: ExactBooleanOperand) -> Seq<char> {
    match operand {
        ExactBooleanOperand::First => "first"@,
        ExactBooleanOperand::Second => "second"@,
    }
}

/// `out` is the diagnostics record of the failed rewrite command `entry`.
pub open spec fn failed_command_ok(entry: ExactMeshlibRecordRewriteApplyEntry, out: MeshlibRecordRewriteFailedCommandDiagnostic) -> bool {
    &&& out.stitch_pair_index == entry.command.stitch_pair_index
    &&& entry.error matches Some(e) ==> out.error == e
    &&& entry.error is None ==> out.error@ == "unknown MeshLib rewrite failure"@
    &&& out.this_operand@ == operand_name(entry.command.this_operand)
    &&& out.from_operand@ == operand_name(entry.command.from_operand)
    &&& out.output_edge == entry.command.output_edge
    &&& out.this_contour_edge == entry.command.this_contour_edge
    &&& out.from_contour_edge == entry.command.from_contour_edge
    &&& out.this_source_edge_index == entry.command.this_source_edge_index
    &&& out.from_source_edge_index == entry.command.from_source_edge_index
    &&& out.this_source_edge == entry.command.this_source_edge
    &&& out.from_source_edge == entry.command.from_source_edge
    &&& out.this_side_synthetic == entry.command.this_side_synthetic
    &&& out.from_side_synthetic == entry.command.from_side_synthetic
    &&& out.synthetic_sides == entry.command.synthetic_sides
}

/// The diagnostics record of a failed rewrite command: the command's fields,
/// its operands by name, and its reason, or an unknown-failure reason when
/// none was recorded.
pub fn record_rewrite_failed_command_detail(entry: &ExactMeshlibRecordRewriteApplyEntry) -> (out: MeshlibRecordRewriteFailedCommandDiagnostic)
    ensures
        failed_command_ok(*entry, out),
{
    let command = entry.command;
    let error = match entry.error {
        Some(e) => e,
        None => "unknown MeshLib rewrite failure",
    };
    MeshlibRecordRewriteFailedCommandDiagnostic {
        stitch_pair_index: command.stitch_pair_index,
        error,
        this_operand: operand_label(command.this_operand),
        from_operand: operand_label(command.from_operand),
        output_edge: command.output_edge,
        this_contour_edge: command.this_contour_edge,
        from_contour_edge: command.from_contour_edge,
        this_source_edge_index: command.this_source_edge_index,
        from_source_edge_index: command.from_source_edge_index,
        this_source_edge: command.this_source_edge,
        from_source_edge: command.from_source_edge,
        this_side_synthetic: command.this_side_synthetic,
        from_side_synthetic: command.from_side_synthetic,
        synthetic_sides: command.synthetic_sides,
    }
}

/// The target records of the entries that reached a target, in order.
pub open spec fn target_details_of(entries: Seq<ExactMeshlibRecordRewriteApplyEntry>) -> Seq<MeshlibRecordRewriteTargetDiagnostic>
    decreases entries.len(),
{
    if entries.len() == 0 {
        Seq::empty()
    } else {
        let before = target_details_of(entries.drop_last());
        match entries.last().target_diagnostic {
            Some(d) => before.push(spec_record_rewrite_target_detail(d)),
            None => before,
        }
    }
}

/// The entries whose command failed, in order.
pub open spec fn failed_entries(entries: Seq<ExactMeshlibRecordRewriteApplyEntry>) -> Seq<ExactMeshlibRecordRewriteApplyEntry>
    decreases entries.len(),
{
    if entries.len() == 0 {
        Seq::empty()
    } else {
        let before = failed_entries(entries.drop_last());
        if entries.last().error is Some {
            before.push(entries.last())
        } else {
            before
        }
    }
}

/// The target records of the rewrite's entries: one for each entry that
/// reached a target, in order.
pub fn record_rewrite_target_details(entries: &Vec<ExactMeshlibRecordRewriteApplyEntry>) -> (out: Vec<MeshlibRecordRewriteTargetDiagnostic>)
    ensures
        out@ == target_details_of(entries@),
{
    let mut out: Vec<MeshlibRecordRewriteTargetDiagnostic> = Vec::new();
    let mut i: usize = 0;
    while i < entries.len()
        invariant
            i <= entries@.len(),
            out@ == target_details_of(entries@.take(i as int)),
        decreases entries.len() - i,
    {
        proof {
            assert(entries@.take(i as int + 1).drop_last() =~= entries@.take(i as int));
            assert(entries@.take(i as int + 1).last() == entries@[i as int]);
        }
        match &entries[i].target_diagnostic {
            Some(d) => out.push(record_rewrite_target_detail(d)),
            None => {},
        }
        i += 1;
    }
    proof {
        assert(entries@.take(entries@.len() as int) =~= entries@);
    }
    out
}

/// The records of the rewrite's failed commands, in order.
pub fn record_rewrite_failed_command_details(entries: &Vec<ExactMeshlibRecordRewriteApplyEntry>) -> (out: Vec<MeshlibRecordRewriteFailedCommandDiagnostic>)
    ensures
        out@.len() == failed_entries(entries@).len(),
        forall|k: int| 0 <= k < out@.len() ==> failed_command_ok(failed_entries(entries@)[k], #[trigger] out@[k]),
{
    let mut out: Vec<MeshlibRecordRewriteFailedCommandDiagnostic> = Vec::new();
    let mut i: usize = 0;
    while i < entries.len()
        invariant
            i <= entries@.len(),
            out@.len() == failed_entries(entries@.take(i as int)).len(),
            forall|k: int| 0 <= k < out@.len() ==> failed_command_ok(failed_entries(entries@.take(i as int))[k], #[trigger] out@[k]),
        decreases entries.len() - i,
    {
        proof {
            assert(entries@.take(i as int + 1).drop_last() =~= entries@.take(i as int));
            assert(entries@.take(i as int + 1).last() == entries@[i as int]);
        }
        if entries[i].error.is_some() {
            out.push(record_rewrite_failed_command_detail(&entries[i]));
        }
        i += 1;
    }
    proof {
        assert(entries@.take(entries@.len() as int) =~= entries@);
    }
    out
}

/// How many target records show a near-stitch target whose left face was
/// missing before the rewrite and is there after it.
pub open spec fn left_closures(details: Seq<MeshlibRecordRewriteTargetDiagnostic>) -> nat
    decreases details.len(),
{
    if details.len() == 0 {
        0
    } else {
        let d = details.last();
        left_closures(details.drop_last()) + if d.target_was_near_stitch_target && d.target_left_before is None
            && d.target_left_after is Some {
            1nat
        } else {
            0nat
        }
    }
}

/// How many target records show a near-stitch target whose right face was
/// missing before the rewrite and is there after it.
pub open spec fn right_closures(details: Seq<MeshlibRecordRewriteTargetDiagnostic>) -> nat
    decreases details.len(),
{
    if details.len() == 0 {
        0
    } else {
        let d = details.last();
        right_closures(details.drop_last()) + if d.target_was_near_stitch_target && d.target_right_before is None
            && d.target_right_after is Some {
            1nat
        } else {
            0nat
        }
    }
}

proof fn lemma_closures_bound(details: Seq<MeshlibRecordRewriteTargetDiagnostic>)
    ensures
        left_closures(details) <= details.len(),
        right_closures(details) <= details.len(),
    decreases details.len(),
{
    if details.len() > 0 {
        lemma_closures_bound(details.drop_last());
    }
}

/// The near-stitch targets whose left and whose right face the rewrite
/// closed, counted over the target records.
pub fn near_stitch_target_closures(details: &Vec<MeshlibRecordRewriteTargetDiagnostic>) -> (out: (usize, usize))
    ensures
        out.0 == left_closures(details@),
        out.1 == right_closures(details@),
{
    let mut left: usize = 0;
    let mut right: usize = 0;
    let mut i: usize = 0;
    while i < details.len()
        invariant
            i <= details@.len(),
            left == left_closures(details@.take(i as int)),
            right == right_closures(details@.take(i as int)),
        decreases details.len() - i,
    {
        proof {
            assert(details@.take(i as int + 1).drop_last() =~= details@.take(i as int));
            assert(details@.take(i as int + 1).last() == details@[i as int]);
            lemma_closures_bound(details@.take(i as int + 1));
        }
        let d = &details[i];
        if d.target_was_near_stitch_target && d.target_left_before.is_none() && d.target_left_after.is_some() {
            left += 1;
        }
        if d.target_was_near_stitch_target && d.target_right_before.is_none() && d.target_right_after.is_some() {
            right += 1;
        }
        i += 1;
    }
    proof {
        assert(details@.take(details@.len() as int) =~= details@);
    }
    (left, right)
}

/// What the rewrite recorded of a face it could not export, with the rings
/// around it.
#[derive(Debug, Clone, PartialEq, Eq)]
pub struct ExactMeshlibFaceExportFailure {
    pub face_index: usize,
    pub face_edge_id: usize,
    pub face_operand: Option<ExactBooleanOperand>,
    pub face_cut_face: Option<usize>,
    pub face_source_face: Option<usize>,
    pub error: &'static str,
    pub left_ring_edge_ids: Vec<usize>,
    pub left_ring_record_next_edge_ids: Vec<usize>,
    pub left_ring_record_prev_edge_ids: Vec<usize>,
    pub left_ring_next_edge_ids: Vec<usize>,
    pub left_ring_origins: Vec<Option<usize>>,
    pub left_ring_destinations: Vec<Option<usize>>,
    pub left_ring_left_faces: Vec<Option<usize>>,
    pub left_ring_right_faces: Vec<Option<usize>>,
    pub same_left_face_edge_ids: Vec<usize>,
    pub same_left_face_record_next_edge_ids: Vec<usize>,
    pub same_left_face_record_prev_edge_ids: Vec<usize>,
    pub same_left_face_next_edge_ids: Vec<usize>,
    pub same_left_face_origins: Vec<Option<usize>>,
    pub same_left_face_destinations: Vec<Option<usize>>,
    pub same_left_face_right_faces: Vec<Option<usize>>,
    pub left_ring_repeated_edge_id: Option<usize>,
    pub left_ring_returned_to_start: bool,
}

/// `out` is the diagnostics record of the face export failure `detail`.
pub open spec fn export_failure_ok(detail: ExactMeshlibFaceExportFailure, out: MeshlibFaceExportFailureDiagnostic) -> bool {
    &&& out.face_index == detail.face_index
    &&& out.face_edge_id == detail.face_edge_id
    &&& detail.face_operand matches Some(op) ==> out.face_operand matches Some(name) && name@ == operand_name(op)
    &&& detail.face_operand is None ==> out.face_operand is None
    &&& out.face_cut_face == detail.face_cut_face
    &&& out.face_source_face == detail.face_source_face
    &&& out.error == detail.error
    &&& out.left_ring_edge_ids@ == detail.left_ring_edge_ids@
    &&& out.left_ring_record_next_edge_ids@ == detail.left_ring_record_next_edge_ids@
    &&& out.left_ring_record_prev_edge_ids@ == detail.left_ring_record_prev_edge_ids@
    &&& out.left_ring_next_edge_ids@ == detail.left_ring_next_edge_ids@
    &&& out.left_ring_origins@ == detail.left_ring_origins@
    &&& out.left_ring_destinations@ == detail.left_ring_destinations@
    &&& out.left_ring_left_faces@ == detail.left_ring_left_faces@
    &&& out.left_ring_right_faces@ == detail.left_ring_right_faces@
    &&& out.same_left_face_edge_ids@ == detail.same_left_face_edge_ids@
    &&& out.same_left_face_record_next_edge_ids@ == detail.same_left_face_record_next_edge_ids@
    &&& out.same_left_face_record_prev_edge_ids@ == detail.same_left_face_record_prev_edge_ids@
    &&& out.same_left_face_next_edge_ids@ == detail.same_left_face_next_edge_ids@
    &&& out.same_left_face_origins@ == detail.same_left_face_origins@
    &&& out.same_left_face_destinations@ == detail.same_left_face_destinations@
    &&& out.same_left_face_right_faces@ == detail.same_left_face_right_faces@
    &&& out.left_ring_repeated_edge_id == detail.left_ring_repeated_edge_id
    &&& out.left_ring_returned_to_start == detail.left_ring_returned_to_start
}

fn face_export_failure_detail(detail: &ExactMeshlibFaceExportFailure) -> (out: MeshlibFaceExportFailureDiagnostic)
    ensures
        export_failure_ok(*detail, out),
{
    let face_operand = match detail.face_operand {
        Some(op) => Some(operand_label(op)),
        None => None,
    };
    MeshlibFaceExportFailureDiagnostic {
        face_index: detail.face_index,
        face_edge_id: detail.face_edge_id,
        face_operand,
        face_cut_face: detail.face_cut_face,
        face_source_face: detail.face_source_face,
        error: detail.error,
        left_ring_edge_ids: copy_items(&detail.left_ring_edge_ids),
        left_ring_record_next_edge_ids: copy_items(&detail.left_ring_record_next_edge_ids),
        left_ring_record_prev_edge_ids: copy_items(&detail.left_ring_record_prev_edge_ids),
        left_ring_next_edge_ids: copy_items(&detail.left_ring_next_edge_ids),
        left_ring_origins: copy_items(&detail.left_ring_origins),
        left_ring_destinations: copy_items(&detail.left_ring_destinations),
        left_ring_left_faces: copy_items(&detail.left_ring_left_faces),
        left_ring_right_faces: copy_items(&detail.left_ring_right_faces),
        same_left_face_edge_ids: copy_items(&detail.same_left_face_edge_ids),
        same_left_face_record_next_edge_ids: copy_items(&detail.same_left_face_record_next_edge_ids),
        same_left_face_record_prev_edge_ids: copy_items(&detail.same_left_face_record_prev_edge_ids),
        same_left_face_next_edge_ids: copy_items(&detail.same_left_face_next_edge_ids),
        same_left_face_origins: copy_items(&detail.same_left_face_origins),
        same_left_face_destinations: copy_items(&detail.same_left_face_destinations),
        same_left_face_right_faces: copy_items(&detail.same_left_face_right_faces),
        left_ring_repeated_edge_id: detail.left_ring_repeated_edge_id,
        left_ring_returned_to_start: detail.left_ring_returned_to_start,
    }
}

/// The diagnostics records of the faces the rewrite could not export, in
/// order, each operand by name.
pub fn face_export_failure_details(details: &Vec<ExactMeshlibFaceExportFailure>) -> (out: Vec<MeshlibFaceExportFailureDiagnostic>)
    ensures
        out@.len() == details@.len(),
        forall|i: int| 0 <= i < details@.len() ==> export_failure_ok(details@[i], #[trigger] out@[i]),
{
    let mut out: Vec<MeshlibFaceExportFailureDiagnostic> = Vec::new();
    let mut i: usize = 0;
    while i < details.len()
        invariant
            i <= details@.len(),
            out@.len() == i,
            forall|j: int| 0 <= j < i ==> export_failure_ok(details@[j], #[trigger] out@[j]),
        decreases details.len() - i,
    {
        out.push(face_export_failure_detail(&details[i]));
        i += 1;
    }
    out
}

} // verus!
