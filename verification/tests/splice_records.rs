use zennah_geometry_core::exact_boolean::{
    paired_coplanar_candidate_topology_promotable, ExactBooleanOperand, ExactBooleanOperation,
};
use zennah_geometry_core::exact_boolean_topology::ExactMeshlibRecordRewriteCommand;
use zennah_geometry_core::prepared_parts::directed_face_edges;
use zennah_geometry_core::splice_records::{
    face_export_failure_details, ExactMeshlibFaceExportFailure,
    copied_face_record_detail, copied_prev_next_edge_update_detail, mapped_source_record_replay_detail,
    near_stitch_target_closures, record_rewrite_failed_command_detail, record_rewrite_failed_command_details,
    record_rewrite_target_detail, record_rewrite_target_details, ExactMeshlibCopiedFaceRecordCandidateDiagnostic,
    ExactMeshlibCopiedFaceRecordDiagnostic, ExactMeshlibCopiedPrevNextEdgeUpdateDiagnostic,
    ExactMeshlibPreparedSourceRecordReplayDiagnostic, ExactMeshlibRecordRewriteApplyEntry,
    ExactMeshlibRecordRewriteTargetDiagnostic,
};

fn command() -> ExactMeshlibRecordRewriteCommand {
    ExactMeshlibRecordRewriteCommand {
        stitch_pair_index: 4,
        this_operand: ExactBooleanOperand::Second,
        from_operand: ExactBooleanOperand::First,
        output_edge: [1, 2],
        this_contour_edge: [3, 4],
        from_contour_edge: [5, 6],
        this_source_edge_index: 7,
        from_source_edge_index: 8,
        this_source_edge: [9, 10],
        from_source_edge: [11, 12],
        this_side_synthetic: true,
        from_side_synthetic: false,
        synthetic_sides: 1,
    }
}

#[test]
fn failed_command_detail_names_operands_and_reason() {
    let detail = record_rewrite_failed_command_detail(&ExactMeshlibRecordRewriteApplyEntry {
        command: command(),
        error: Some("missing target"),
        target_diagnostic: None,
    });
    assert_eq!(detail.stitch_pair_index, 4);
    assert_eq!(detail.error, "missing target");
    assert_eq!(detail.this_operand, "second");
    assert_eq!(detail.from_operand, "first");
    assert_eq!(detail.output_edge, [1, 2]);
    assert_eq!(detail.from_source_edge, [11, 12]);
    assert!(detail.this_side_synthetic);
    assert_eq!(detail.synthetic_sides, 1);
    let unknown = record_rewrite_failed_command_detail(&ExactMeshlibRecordRewriteApplyEntry {
        command: command(),
        error: None,
        target_diagnostic: None,
    });
    assert_eq!(unknown.error, "unknown MeshLib rewrite failure");
}

#[test]
fn target_and_replay_details_carry_every_field() {
    let target = record_rewrite_target_detail(&ExactMeshlibRecordRewriteTargetDiagnostic {
        stitch_pair_index: 1,
        target_edge_id: 2,
        target_was_near_stitch_target: true,
        target_origin_before: Some(3),
        target_left_before: None,
        target_right_before: Some(4),
        target_next_edge_id_before: 5,
        target_prev_edge_id_before: 6,
        target_origin_after: Some(7),
        target_left_after: Some(8),
        target_right_after: None,
        target_next_edge_id_after: 9,
        target_prev_edge_id_after: 10,
        record_next_edge_id: 11,
        record_left: Some(12),
        record_sym_prev_edge_id: 13,
    });
    assert_eq!(target.target_edge_id, 2);
    assert_eq!(target.target_right_before, Some(4));
    assert_eq!(target.target_prev_edge_id_after, 10);
    assert_eq!(target.record_sym_prev_edge_id, 13);
    let replay = mapped_source_record_replay_detail(&ExactMeshlibPreparedSourceRecordReplayDiagnostic {
        target_edge_id: 20,
        target_was_near_stitch_target: false,
        target_origin_before: None,
        target_left_before: Some(1),
        target_right_before: None,
        target_origin_after: Some(2),
        target_left_after: None,
        target_right_after: Some(3),
        record_next_edge_id: 4,
        record_left: None,
        record_sym_prev_edge_id: 5,
        applied: false,
        skipped_reason: Some("closed target"),
    });
    assert_eq!(replay.target_edge_id, 20);
    assert_eq!(replay.target_right_after, Some(3));
    assert_eq!(replay.skipped_reason, Some("closed target"));
}

#[test]
fn prev_next_and_face_details_carry_every_field() {
    let update = copied_prev_next_edge_update_detail(&ExactMeshlibCopiedPrevNextEdgeUpdateDiagnostic {
        source_contour_edge_id: Some(1),
        target_contour_edge_id: None,
        walked_source_edge_id: Some(2),
        update_kind: Some("previous"),
        previous_edge_id: 3,
        next_edge_id: 4,
        previous_origin: Some(5),
        next_origin: None,
        previous_left: Some(6),
        next_right: None,
        applied: true,
        skipped_reason: None,
    });
    assert_eq!(update.walked_source_edge_id, Some(2));
    assert_eq!(update.update_kind, Some("previous"));
    assert_eq!(update.next_edge_id, 4);
    assert!(update.applied);
    let candidate = ExactMeshlibCopiedFaceRecordCandidateDiagnostic {
        source_edge_id: 1,
        source_edge_vertices: Some([2, 3]),
        source_edge_left: Some(4),
        source_edge_right: None,
        source_next_edge_id: 5,
        source_prev_edge_id: 6,
        mapped_edge_id: Some(7),
        face_edge_id: None,
        face_edge_origin: Some(8),
        face_edge_destination: Some(9),
        face_edge_left: None,
        face_edge_right: Some(10),
        face_edge_next_edge_id: None,
        face_edge_prev_edge_id: Some(11),
        face_edge_sym_next_edge_id: None,
        face_edge_sym_prev_edge_id: Some(12),
        face_edge_left_ring_next_edge_id: None,
        left_ring_valid: false,
        left_ring_error: Some("ring too long"),
    };
    let face = copied_face_record_detail(&ExactMeshlibCopiedFaceRecordDiagnostic {
        output_face: 1,
        cut_face: 2,
        source_face: Some(3),
        selected_edge_id: 4,
        selected_source_edge_id: 5,
        selected_source_edge_vertices: Some([6, 7]),
        selected_by_valid_left_ring: true,
        selected_left_ring_valid: true,
        selected_left_ring_error: None,
        candidates: vec![candidate.clone(), candidate],
    });
    assert_eq!(face.output_face, 1);
    assert_eq!(face.selected_source_edge_vertices, Some([6, 7]));
    assert_eq!(face.candidates.len(), 2);
    assert_eq!(face.candidates[1].source_edge_vertices, Some([2, 3]));
    assert_eq!(face.candidates[0].left_ring_error, Some("ring too long"));
    assert_eq!(face.candidates[0].face_edge_sym_prev_edge_id, Some(12));
}

#[test]
fn directed_face_edges_go_corner_to_corner() {
    assert_eq!(directed_face_edges([4, 7, 9]), [[4, 7], [7, 9], [9, 4]]);
}

#[test]
fn only_union_and_intersection_candidates_promote() {
    assert!(paired_coplanar_candidate_topology_promotable(ExactBooleanOperation::Union, true));
    assert!(paired_coplanar_candidate_topology_promotable(ExactBooleanOperation::Intersection, true));
    assert!(!paired_coplanar_candidate_topology_promotable(ExactBooleanOperation::Union, false));
    assert!(!paired_coplanar_candidate_topology_promotable(ExactBooleanOperation::DifferenceAB, true));
}

fn target(near: bool, left: (Option<usize>, Option<usize>), right: (Option<usize>, Option<usize>)) -> ExactMeshlibRecordRewriteTargetDiagnostic {
    ExactMeshlibRecordRewriteTargetDiagnostic {
        stitch_pair_index: 0,
        target_edge_id: 1,
        target_was_near_stitch_target: near,
        target_origin_before: None,
        target_left_before: left.0,
        target_right_before: right.0,
        target_next_edge_id_before: 0,
        target_prev_edge_id_before: 0,
        target_origin_after: None,
        target_left_after: left.1,
        target_right_after: right.1,
        target_next_edge_id_after: 0,
        target_prev_edge_id_after: 0,
        record_next_edge_id: 0,
        record_left: None,
        record_sym_prev_edge_id: 0,
    }
}

#[test]
fn rewrite_entries_give_target_records_failures_and_closures() {
    let entries = vec![
        ExactMeshlibRecordRewriteApplyEntry {
            command: command(),
            error: None,
            target_diagnostic: Some(target(true, (None, Some(2)), (Some(1), Some(1)))),
        },
        ExactMeshlibRecordRewriteApplyEntry { command: command(), error: Some("missing source"), target_diagnostic: None },
        ExactMeshlibRecordRewriteApplyEntry {
            command: command(),
            error: None,
            target_diagnostic: Some(target(true, (None, Some(3)), (None, Some(4)))),
        },
        ExactMeshlibRecordRewriteApplyEntry {
            command: command(),
            error: Some("closed target"),
            target_diagnostic: Some(target(false, (None, Some(5)), (None, Some(6)))),
        },
    ];
    let targets = record_rewrite_target_details(&entries);
    assert_eq!(targets.len(), 3);
    assert_eq!(targets[1].target_right_after, Some(4));
    let failures = record_rewrite_failed_command_details(&entries);
    assert_eq!(failures.len(), 2);
    assert_eq!(failures[0].error, "missing source");
    assert_eq!(failures[1].error, "closed target");
    assert_eq!(near_stitch_target_closures(&targets), (2, 1));
}

#[test]
fn face_export_failures_name_their_operand() {
    let failure = ExactMeshlibFaceExportFailure {
        face_index: 3,
        face_edge_id: 9,
        face_operand: Some(ExactBooleanOperand::First),
        face_cut_face: Some(2),
        face_source_face: None,
        error: "left ring not closed",
        left_ring_edge_ids: vec![9, 10, 11, 12],
        left_ring_record_next_edge_ids: vec![10, 11, 12, 13],
        left_ring_record_prev_edge_ids: vec![8, 9, 10, 11],
        left_ring_next_edge_ids: vec![10, 11, 12, 13],
        left_ring_origins: vec![Some(0), Some(1), None, Some(3)],
        left_ring_destinations: vec![Some(1), None, Some(3), Some(0)],
        left_ring_left_faces: vec![Some(3), Some(3), Some(3), None],
        left_ring_right_faces: vec![None, Some(4), None, None],
        same_left_face_edge_ids: vec![9, 10, 11],
        same_left_face_record_next_edge_ids: vec![10, 11, 9],
        same_left_face_record_prev_edge_ids: vec![11, 9, 10],
        same_left_face_next_edge_ids: vec![10, 11, 9],
        same_left_face_origins: vec![Some(0), Some(1), Some(2)],
        same_left_face_destinations: vec![Some(1), Some(2), Some(0)],
        same_left_face_right_faces: vec![None, None, Some(5)],
        left_ring_repeated_edge_id: None,
        left_ring_returned_to_start: false,
    };
    let mut second = failure.clone();
    second.face_operand = None;
    let details = face_export_failure_details(&vec![failure, second]);
    assert_eq!(details.len(), 2);
    assert_eq!(details[0].face_operand, Some("first"));
    assert_eq!(details[1].face_operand, None);
    assert_eq!(details[0].error, "left ring not closed");
    assert_eq!(details[0].left_ring_origins, vec![Some(0), Some(1), None, Some(3)]);
    assert_eq!(details[0].same_left_face_right_faces, vec![None, None, Some(5)]);
    assert_eq!(details[0].face_index, 3);
}
