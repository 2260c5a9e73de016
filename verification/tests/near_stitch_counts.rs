use zennah_geometry_core::meshlib_diagnostics::{
    near_stitch_next_right_copied_source_edges, near_stitch_previous_left_copied_source_edges,
    MeshlibCopiedSourceEdgeLookupDiagnostic, MeshlibNearStitchCandidateDiagnostics, MeshlibNearStitchFailureDiagnostic,
    MeshlibNearStitchSourceLookupDiagnostic,
};

fn copied(output_left: Option<usize>, output_right: Option<usize>) -> MeshlibCopiedSourceEdgeLookupDiagnostic {
    MeshlibCopiedSourceEdgeLookupDiagnostic {
        status: "matched",
        matched_source_edge: Some([1, 2]),
        source_halfedge: Some(3),
        source_origin: Some(1),
        source_left: None,
        source_right: None,
        source_left_mapped_face: None,
        source_right_mapped_face: None,
        source_next_halfedge: None,
        source_prev_halfedge: None,
        output_edge_id: Some(4),
        output_origin: Some(5),
        output_left,
        output_right,
        output_next_edge_id: None,
        output_prev_edge_id: None,
        matching_statuses: 1,
    }
}

fn lookup(copied_source_edge: Option<MeshlibCopiedSourceEdgeLookupDiagnostic>) -> MeshlibNearStitchSourceLookupDiagnostic {
    MeshlibNearStitchSourceLookupDiagnostic {
        requested_halfedge: None,
        requested_key_face: None,
        requested_key_edge: None,
        requested_source_edge: None,
        fallback_edge: [0, 1],
        exact_key_candidates: 0,
        same_edge_key_candidates: 0,
        halfedge_candidates: 0,
        source_edge_candidates: 0,
        topology_candidates: 0,
        total_candidates: 0,
        copied_source_edge,
    }
}

fn failure(
    error: &'static str,
    previous: Option<MeshlibNearStitchSourceLookupDiagnostic>,
    next: Option<MeshlibNearStitchSourceLookupDiagnostic>,
) -> MeshlibNearStitchFailureDiagnostic {
    MeshlibNearStitchFailureDiagnostic {
        stitch_pair_index: Some(0),
        endpoint: Some("start"),
        source_operand: Some("first"),
        previous_source_halfedge: None,
        next_source_halfedge: None,
        previous_source_halfedge_key_face: None,
        previous_source_halfedge_key_edge: None,
        next_source_halfedge_key_face: None,
        next_source_halfedge_key_edge: None,
        previous_source_edge: None,
        next_source_edge: None,
        previous_edge: [0, 1],
        next_edge: [1, 2],
        strict_source_identity: true,
        error,
        candidate_diagnostics: Some(MeshlibNearStitchCandidateDiagnostics {
            attempt: "strict",
            previous_candidates: 1,
            next_candidates: 1,
            failures: Vec::new(),
            fallback_from: None,
            previous_source_lookup: previous,
            next_source_lookup: next,
        }),
    }
}

#[test]
fn near_stitch_counts_need_the_error_and_the_copied_face() {
    let previous_left = "previous near stitch edge must not have a left face";
    let next_right = "next near stitch edge must not have a right face";
    let details = vec![
        failure(previous_left, Some(lookup(Some(copied(Some(7), None)))), None),
        failure(previous_left, Some(lookup(Some(copied(None, Some(8))))), None),
        failure(previous_left, Some(lookup(None)), None),
        failure(next_right, Some(lookup(Some(copied(Some(7), None)))), Some(lookup(Some(copied(None, Some(8)))))),
        failure("origin mismatch", Some(lookup(Some(copied(Some(7), Some(8))))), Some(lookup(Some(copied(Some(7), Some(8)))))),
        failure(next_right, None, Some(lookup(Some(copied(None, Some(2)))))),
    ];
    assert_eq!(near_stitch_previous_left_copied_source_edges(&details), 1);
    assert_eq!(near_stitch_next_right_copied_source_edges(&details), 2);
    assert_eq!(near_stitch_previous_left_copied_source_edges(&Vec::new()), 0);
}
