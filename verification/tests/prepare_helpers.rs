use zennah_geometry_core::exact_boolean::{ExactBooleanOperand, ExactBooleanOperation};
use zennah_geometry_core::exact_boolean_topology::AssemblyTopology;
use zennah_geometry_core::exact_cut::ExactCutMeshRecords;
use zennah_geometry_core::prepare_helpers::{
    cut_with_shadow_repair_paths, cut_without_trailing_shadow_repair_paths,
    faces_in_added_ranges, faces_in_valid_cut_faces, first_path_source_face_count_deltas, source_face_count_deltas, lifecycle_slot_export_coverage,
    lifecycle_slot_export_groups, lifecycle_slot_face_coverage, lifecycle_slot_face_groups,
    meshlib_valid_cut_faces, non_empty_projected_cut_edge_paths,
    preserve_projected_coplanar_difference_prepare_masks,
    projected_result_cut_edge_paths_without_shadow_repairs, replacement_need_inside,
    shadow_repair_path_source_faces, synthetic_contact_edges, ExactCutShadowRepairPath,
};
use zennah_geometry_core::source_cut2origin::{ExactCutHoleFillPlan, ExactCutHoleFillResult};

fn assembly(first: Vec<usize>, second: Vec<usize>) -> AssemblyTopology {
    AssemblyTopology {
        vertex_count: 0,
        faces: Vec::new(),
        face_sources: Vec::new(),
        first_output_vertex_for_cut_vertex: Vec::new(),
        second_output_vertex_for_cut_vertex: Vec::new(),
        stitched_edge_sources: Vec::new(),
        stitched_edge_paths: Vec::new(),
        prepare_first_faces: first,
        prepare_second_faces: second,
    }
}

fn filled_cut() -> ExactCutHoleFillResult {
    ExactCutHoleFillResult {
        mesh: ExactCutMeshRecords {
            faces: vec![[0, 1, 2], [0, 2, 3], [2, 1, 4], [4, 5, 6]],
            cut_edges: vec![[0, 1], [1, 2]],
            cut_edge_paths: vec![vec![[0, 1]], vec![[1, 2], [2, 3]]],
            cut_edge_path_closed: vec![false, true],
            cut_edge_path_source_faces: vec![vec![Some(0)], vec![Some(1), None]],
            collapsed_cut_segment_path_source_faces: Vec::new(),
            source_face_for_faces: vec![0, 1, 1, 1],
            cut_face_source_events: Vec::new(),
        },
        fill_plans: vec![ExactCutHoleFillPlan {
            representative_edge: [1, 2],
            boundary_edges: vec![[1, 2], [2, 4], [4, 1]],
            source_face: 1,
            source_face_for_faces: vec![1, 1],
            num_tris: 2,
        }],
        added_face_ranges: vec![[2, 4]],
    }
}

#[test]
fn faces_in_added_ranges_keeps_appended_faces_in_order() {
    let faces = faces_in_added_ranges(&vec![5, 0, 2, 3, 7], &vec![[2, 4], [6, 8]]);
    assert_eq!(faces, vec![2, 3, 7]);
    assert_eq!(faces_in_added_ranges(&vec![1, 2], &Vec::new()), Vec::<usize>::new());
}

#[test]
fn faces_in_valid_cut_faces_keeps_listed_faces_in_order() {
    assert_eq!(faces_in_valid_cut_faces(&vec![4, 1, 3, 1], &vec![1, 4]), vec![4, 1, 1]);
}

#[test]
fn difference_masks_replace_only_the_subtracted_operand() {
    let raw = assembly(vec![0, 1, 2], vec![3, 4, 5]);
    let mut projected = assembly(vec![9], vec![8]);
    preserve_projected_coplanar_difference_prepare_masks(
        &mut projected,
        &raw,
        &vec![1],
        &vec![4, 5],
        ExactBooleanOperation::DifferenceAB,
    );
    assert_eq!(projected.prepare_first_faces, vec![9]);
    assert_eq!(projected.prepare_second_faces, vec![4, 5]);

    let mut projected = assembly(vec![9], vec![8]);
    preserve_projected_coplanar_difference_prepare_masks(
        &mut projected,
        &raw,
        &vec![1],
        &vec![4, 5],
        ExactBooleanOperation::DifferenceBA,
    );
    assert_eq!(projected.prepare_first_faces, vec![1]);
    assert_eq!(projected.prepare_second_faces, vec![8]);

    let mut projected = assembly(vec![9], vec![8]);
    preserve_projected_coplanar_difference_prepare_masks(
        &mut projected,
        &raw,
        &vec![1],
        &vec![4, 5],
        ExactBooleanOperation::Union,
    );
    assert_eq!(projected.prepare_first_faces, vec![9]);
    assert_eq!(projected.prepare_second_faces, vec![8]);
}

#[test]
fn replacement_need_inside_follows_the_operation() {
    assert!(!replacement_need_inside(ExactBooleanOperation::Union, true));
    assert!(replacement_need_inside(ExactBooleanOperation::Intersection, false));
    assert!(!replacement_need_inside(ExactBooleanOperation::DifferenceAB, true));
    assert!(replacement_need_inside(ExactBooleanOperation::DifferenceAB, false));
    assert!(replacement_need_inside(ExactBooleanOperation::DifferenceBA, true));
    assert!(!replacement_need_inside(ExactBooleanOperation::OutsideA, true));
}

#[test]
fn lifecycle_slot_coverage_counts_slots_in_each_run() {
    let paths = vec![vec![[1, 2, 3, 4, 5, 6, 0, 3], [7, 8, 9, 10, 11, 12, 3, 5]]];
    let slots = vec![0, 4, 2, 3, 9, 2];
    assert_eq!(
        lifecycle_slot_face_coverage(&paths, &slots),
        vec![[1, 2, 3, 4, 5, 6, 0, 3, 3], [7, 8, 9, 10, 11, 12, 3, 5, 2]]
    );
    assert_eq!(lifecycle_slot_face_groups(&paths, &slots), vec![vec![0, 2, 2], vec![4, 3]]);
    assert!(lifecycle_slot_face_coverage(&Vec::new(), &slots).is_empty());
}

#[test]
fn lifecycle_slot_export_keeps_the_operand_faces() {
    let paths = vec![vec![[0, 0, 0, 0, 0, 0, 0, 2], [0, 0, 0, 0, 0, 0, 2, 10]]];
    let operands = vec![
        Some(ExactBooleanOperand::First),
        Some(ExactBooleanOperand::Second),
        Some(ExactBooleanOperand::First),
        None,
        Some(ExactBooleanOperand::First),
    ];
    let cut_faces = vec![Some(1), Some(0), Some(5), Some(2), None];
    assert_eq!(
        lifecycle_slot_export_coverage(&paths, &operands, &cut_faces, ExactBooleanOperand::First),
        vec![[0, 0, 0, 0, 0, 0, 0, 2, 1], [0, 0, 0, 0, 0, 0, 2, 10, 1]]
    );
    assert_eq!(
        lifecycle_slot_export_groups(&paths, &operands, &cut_faces, ExactBooleanOperand::Second),
        vec![vec![0], Vec::<usize>::new()]
    );
}

#[test]
fn meshlib_valid_cut_faces_skips_removed_owners_and_keeps_appended_faces() {
    let valid = meshlib_valid_cut_faces(4, &vec![vec![0, 0, 1, 2, 3, 3]], &vec![vec![1, 3, 9]]);
    assert_eq!(valid, vec![0, 2, 4, 5]);
    assert!(meshlib_valid_cut_faces(4, &Vec::new(), &vec![vec![1]]).is_empty());
    assert_eq!(meshlib_valid_cut_faces(2, &vec![vec![0, 1]], &Vec::new()), vec![0, 1]);
}

#[test]
fn projected_paths_drop_trailing_shadow_repairs() {
    let paths = vec![vec![[0, 1]], vec![[1, 2]], vec![[2, 3]]];
    assert_eq!(projected_result_cut_edge_paths_without_shadow_repairs(&paths, 1), vec![vec![[0, 1]], vec![[1, 2]]]);
    assert!(projected_result_cut_edge_paths_without_shadow_repairs(&paths, 5).is_empty());
    assert!(non_empty_projected_cut_edge_paths(&paths).is_some());
    assert!(non_empty_projected_cut_edge_paths(&Vec::new()).is_none());
}

#[test]
fn shadow_repair_paths_round_trip_through_the_cut() {
    let cut = filled_cut();
    let repairs = vec![ExactCutShadowRepairPath {
        path: vec![[2, 4], [1, 2]],
        source_faces: vec![Some(1), None],
    }];
    assert_eq!(shadow_repair_path_source_faces(&repairs), vec![vec![1]]);

    let with = cut_with_shadow_repair_paths(&cut, &repairs);
    assert_eq!(with.mesh.cut_edges, vec![[0, 1], [1, 2], [2, 4]]);
    assert_eq!(with.mesh.cut_edge_paths.len(), 3);
    assert_eq!(with.mesh.cut_edge_paths[2], vec![[2, 4], [1, 2]]);
    assert_eq!(with.mesh.cut_edge_path_closed, vec![false, true, false]);
    assert_eq!(with.mesh.cut_edge_path_source_faces[2], vec![Some(1), None]);
    assert_eq!(with.added_face_ranges, vec![[2, 4]]);

    let without = cut_without_trailing_shadow_repair_paths(&with, &repairs);
    assert_eq!(without.mesh.cut_edge_paths, cut.mesh.cut_edge_paths);
    assert_eq!(without.mesh.cut_edge_path_closed, cut.mesh.cut_edge_path_closed);
    assert_eq!(without.mesh.cut_edge_path_source_faces, cut.mesh.cut_edge_path_source_faces);
    assert_eq!(without.mesh.cut_edges, vec![[0, 1], [1, 2], [2, 4]]);
}

#[test]
fn trailing_shadow_repairs_stop_at_the_first_mismatch() {
    let cut = filled_cut();
    let repairs = vec![ExactCutShadowRepairPath {
        path: vec![[5, 6]],
        source_faces: vec![None],
    }];
    let without = cut_without_trailing_shadow_repair_paths(&cut, &repairs);
    assert_eq!(without.mesh.cut_edge_paths, cut.mesh.cut_edge_paths);
}

#[test]
fn synthetic_contact_edges_are_shared_by_appended_and_kept_faces() {
    let cut = filled_cut();
    assert_eq!(synthetic_contact_edges(&cut), vec![[1, 2]]);
}

#[test]
fn source_face_count_deltas_list_changed_faces_ascending() {
    let materialized = vec![[3, 2], [1, 1], [3, 1]];
    let preserving = vec![[1, 1], [2, 4], [3, 1]];
    assert_eq!(source_face_count_deltas(&materialized, &preserving), vec![[2, -4], [3, 2]]);
    assert!(source_face_count_deltas(&Vec::new(), &Vec::new()).is_empty());
    assert_eq!(
        first_path_source_face_count_deltas(&materialized, &vec![preserving, vec![[9, 9]]]),
        vec![[2, -4], [3, 2]]
    );
    assert!(first_path_source_face_count_deltas(&materialized, &Vec::new()).is_empty());
}

#[test]
fn swapping_count_lists_negates_every_delta() {
    let materialized = vec![[3, 2], [1, 1], [3, 1], [7, 5]];
    let preserving = vec![[1, 1], [2, 4], [3, 1]];
    let forward = source_face_count_deltas(&materialized, &preserving);
    let backward = source_face_count_deltas(&preserving, &materialized);
    assert_eq!(forward, vec![[2, -4], [3, 2], [7, 5]]);
    assert_eq!(backward, vec![[2, 4], [3, -2], [7, -5]]);
}
