use zennah_geometry_core::assembly::{
    assemble_classified_boolean, BooleanAssemblyBuilder, ExactComponentClassification, ExactMeshPartClassification,
};
use zennah_geometry_core::exact_boolean::{ExactBooleanOperand, ExactBooleanOperation, ExactBooleanOutputFaceSource};
use zennah_geometry_core::exact_cut::ExactCutMeshRecords;
use zennah_geometry_core::result_cut_paths::coincident_output_vertices;

fn tetrahedron_with_paths(cut_edge_paths: Vec<Vec<[usize; 2]>>, cut_edge_path_closed: Vec<bool>) -> ExactCutMeshRecords {
    ExactCutMeshRecords {
        faces: vec![[0, 2, 1], [0, 1, 3], [1, 2, 3], [2, 0, 3]],
        cut_edges: Vec::new(),
        cut_edge_paths,
        cut_edge_path_closed,
        cut_edge_path_source_faces: Vec::new(),
        collapsed_cut_segment_path_source_faces: Vec::new(),
        source_face_for_faces: vec![0, 1, 2, 3],
        cut_face_source_events: Vec::new(),
    }
}

fn tetrahedron() -> ExactCutMeshRecords {
    tetrahedron_with_paths(Vec::new(), Vec::new())
}

fn classification(selected_faces: Vec<usize>, cut_paths_consistent: bool) -> ExactMeshPartClassification {
    ExactMeshPartClassification {
        components: Vec::new(),
        selected_faces,
        used_cut_path_sides: false,
        cut_paths_consistent,
        cut_left_components: 0,
        cut_right_components: 0,
        cut_path_overlap_components: 0,
    }
}

fn no_matches(count: usize) -> Vec<Vec<usize>> {
    vec![Vec::new(); count]
}

#[test]
fn exact_assemble_boolean_difference_flips_subtracted_inside_part() {
    let first = tetrahedron();
    let second = tetrahedron();
    let first_classification = classification(vec![0, 1, 2, 3], true);
    let second_classification = classification(vec![0, 1, 2, 3], true);

    let result = assemble_classified_boolean(
        &first,
        4,
        &second,
        4,
        Some(&first_classification),
        Some(&second_classification),
        ExactBooleanOperation::DifferenceAB,
        &no_matches(4),
        &no_matches(4),
    );

    assert_eq!(result.selected_first_faces, vec![0, 1, 2, 3]);
    assert_eq!(result.selected_second_faces, vec![0, 1, 2, 3]);
    assert!(!result.flipped_first);
    assert!(result.flipped_second);
    assert_eq!(result.faces[4][1], 6);
    assert_eq!(result.faces[4][2], 5);
    assert_eq!(
        result.face_sources[4],
        ExactBooleanOutputFaceSource {
            operand: ExactBooleanOperand::Second,
            cut_face: 0,
            source_face: 0,
        }
    );
}

#[test]
fn assembly_numbers_vertices_at_first_use() {
    let first = tetrahedron();
    let second = tetrahedron();
    let first_classification = classification(vec![3, 0, 1, 2, 0], true);
    let result = assemble_classified_boolean(
        &first,
        4,
        &second,
        4,
        Some(&first_classification),
        None,
        ExactBooleanOperation::OutsideA,
        &no_matches(4),
        &no_matches(4),
    );
    assert_eq!(result.faces, vec![[0, 1, 2], [0, 2, 3], [2, 1, 3], [1, 0, 3]]);
    assert_eq!(result.first_output_vertex_for_cut_vertex, vec![Some(0), Some(2), Some(1), Some(3)]);
    assert_eq!(result.second_output_vertex_for_cut_vertex, vec![None, None, None, None]);
    assert_eq!(
        result.vertex_sources,
        vec![
            (ExactBooleanOperand::First, 0),
            (ExactBooleanOperand::First, 2),
            (ExactBooleanOperand::First, 1),
            (ExactBooleanOperand::First, 3),
        ]
    );
    assert_eq!(result.selected_first_faces, vec![3, 0, 1, 2, 0]);
    assert!(result.selected_second_faces.is_empty());
    assert_eq!(result.face_sources.len(), 4);
    assert!(result.stitched_edge_sources.is_empty());
    assert!(result.stitched_edge_paths.is_empty());
}

#[test]
fn intersection_appends_second_operand_first() {
    let first = tetrahedron();
    let second = tetrahedron();
    let first_classification = classification(vec![1], true);
    let second_classification = classification(vec![2], true);
    let result = assemble_classified_boolean(
        &first,
        4,
        &second,
        4,
        Some(&first_classification),
        Some(&second_classification),
        ExactBooleanOperation::Intersection,
        &no_matches(4),
        &no_matches(4),
    );
    assert_eq!(result.faces, vec![[0, 1, 2], [3, 4, 5]]);
    assert_eq!(result.second_output_vertex_for_cut_vertex, vec![None, Some(0), Some(1), Some(2)]);
    assert_eq!(result.first_output_vertex_for_cut_vertex, vec![Some(3), Some(4), None, Some(5)]);
    assert_eq!(result.face_sources[0].operand, ExactBooleanOperand::Second);
    assert_eq!(result.face_sources[1].operand, ExactBooleanOperand::First);
    assert!(!result.flipped_first);
    assert!(!result.flipped_second);
}

#[test]
fn difference_ba_flips_first_operand() {
    let first = tetrahedron();
    let second = tetrahedron();
    let first_classification = classification(vec![0], true);
    let result = assemble_classified_boolean(
        &first,
        4,
        &second,
        4,
        Some(&first_classification),
        None,
        ExactBooleanOperation::DifferenceBA,
        &no_matches(4),
        &no_matches(4),
    );
    assert!(result.flipped_first);
    assert!(!result.flipped_second);
    assert_eq!(result.faces, vec![[0, 2, 1]]);
}

#[test]
fn inconsistent_cut_paths_prepare_no_faces() {
    let first = tetrahedron();
    let second = tetrahedron();
    let mut first_classification = classification(vec![0, 1], false);
    first_classification.cut_left_components = 2;
    first_classification.cut_right_components = 1;
    first_classification.cut_path_overlap_components = 1;
    let second_classification = classification(vec![2], true);
    let result = assemble_classified_boolean(
        &first,
        4,
        &second,
        4,
        Some(&first_classification),
        Some(&second_classification),
        ExactBooleanOperation::Union,
        &no_matches(4),
        &no_matches(4),
    );
    assert!(result.prepare_first_faces.is_empty());
    assert_eq!(result.prepare_second_faces, vec![2]);
    assert!(!result.first_cut_paths_consistent);
    assert!(result.second_cut_paths_consistent);
    assert_eq!(result.first_cut_path_side_components, [2, 1]);
    assert_eq!(result.second_cut_path_side_components, [0, 0]);
    assert_eq!(result.first_cut_path_overlap_components, 1);
    assert_eq!(result.second_cut_path_overlap_components, 0);
}

#[test]
fn result_cut_paths_follow_the_vertex_map() {
    let first = tetrahedron_with_paths(vec![vec![[0, 1], [1, 2]]], vec![false]);
    let second = tetrahedron();
    let first_classification = classification(vec![0, 1, 2, 3], true);
    let result = assemble_classified_boolean(
        &first,
        4,
        &second,
        4,
        Some(&first_classification),
        None,
        ExactBooleanOperation::Union,
        &no_matches(4),
        &no_matches(4),
    );
    assert_eq!(result.result_cut_paths, vec![vec![[0, 2], [2, 1]]]);
    assert_eq!(result.result_cut_path_closed, vec![false]);
    assert!(result.result_cut_paths_complete);
}

#[test]
fn result_cut_paths_split_where_a_vertex_has_no_output() {
    let first = tetrahedron_with_paths(vec![vec![[0, 1], [1, 2]]], vec![false]);
    let second = tetrahedron();
    let first_classification = classification(vec![1], true);
    let result = assemble_classified_boolean(
        &first,
        4,
        &second,
        4,
        Some(&first_classification),
        None,
        ExactBooleanOperation::Union,
        &no_matches(4),
        &no_matches(4),
    );
    assert_eq!(result.result_cut_paths, vec![vec![[0, 1]]]);
    assert_eq!(result.result_cut_path_closed, vec![false]);
    assert!(!result.result_cut_paths_complete);
}

#[test]
fn result_cut_paths_use_a_coincident_output_vertex() {
    let first = tetrahedron_with_paths(vec![vec![[0, 1], [1, 2]]], vec![false]);
    let second = tetrahedron();
    let first_classification = classification(vec![1], true);
    let second_classification = classification(vec![0], true);
    let close_first = vec![vec![0], vec![1], vec![2], vec![3]];
    let close_second = vec![Vec::new(), Vec::new(), vec![0], Vec::new()];
    let result = assemble_classified_boolean(
        &first,
        4,
        &second,
        4,
        Some(&first_classification),
        Some(&second_classification),
        ExactBooleanOperation::Union,
        &close_first,
        &close_second,
    );
    assert_eq!(result.second_output_vertex_for_cut_vertex[0], Some(3));
    assert_eq!(result.result_cut_paths, vec![vec![[0, 1], [1, 3]]]);
    assert!(result.result_cut_paths_complete);
}

#[test]
fn coincident_vertices_prefer_the_first_operand() {
    let close_first = vec![vec![2, 0], vec![1], Vec::new()];
    let close_second = vec![vec![0], vec![5, 1], Vec::new()];
    let first_map = vec![Some(7), None, None];
    let second_map = vec![Some(4), Some(9)];
    let out = coincident_output_vertices(&close_first, &close_second, &first_map, &second_map);
    assert_eq!(out, vec![Some(7), Some(9), None]);
}

#[test]
fn append_selected_uses_preassigned_vertices() {
    let mut builder = BooleanAssemblyBuilder { vertex_sources: Vec::new(), faces: Vec::new(), face_sources: Vec::new() };
    let faces = vec![[0, 1, 2], [2, 1, 3]];
    let preassigned = vec![None, Some(10), None, None];
    let map = builder.append_selected(
        4,
        &faces,
        &vec![5],
        &vec![1, 0],
        false,
        ExactBooleanOperand::Second,
        Some(&preassigned),
    );
    assert_eq!(map, vec![Some(0), Some(10), Some(1), Some(2)]);
    assert_eq!(builder.faces, vec![[0, 10, 1], [1, 10, 2]]);
    assert_eq!(
        builder.vertex_sources,
        vec![(ExactBooleanOperand::Second, 0), (ExactBooleanOperand::Second, 2), (ExactBooleanOperand::Second, 3)]
    );
    assert_eq!(
        builder.face_sources,
        vec![
            ExactBooleanOutputFaceSource { operand: ExactBooleanOperand::Second, cut_face: 0, source_face: 5 },
            ExactBooleanOutputFaceSource { operand: ExactBooleanOperand::Second, cut_face: 1, source_face: 1 },
        ]
    );
}

#[test]
fn component_classification_holds_its_faces() {
    let component = ExactComponentClassification {
        component_index: 1,
        face_indices: vec![2, 3],
        inside_other: true,
        selected: false,
    };
    let part = ExactMeshPartClassification {
        components: vec![component],
        selected_faces: Vec::new(),
        used_cut_path_sides: true,
        cut_paths_consistent: true,
        cut_left_components: 1,
        cut_right_components: 1,
        cut_path_overlap_components: 0,
    };
    assert_eq!(part.components[0].face_indices, vec![2, 3]);
}
