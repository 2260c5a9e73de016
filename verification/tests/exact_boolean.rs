use zennah_geometry_core::exact_boolean::{
    cut_path_length_mismatches, first_need_inside, mapped_directed_edge, operand_label, paths_have_left_hole, second_need_inside, mapped_ordered_edge,
    meshlib_result_cut_path_summary, requires_topology_splice, result_cut_source_operand,
    stitch_segment_is_closed, stitch_sources_are_contiguous, stitched_edge_sources,
    valid_face_vertices, CutPaths, ExactBooleanOperand, ExactBooleanOperation,
    ExactBooleanStitchedEdgeSource, MeshlibResultCutPathSummary, PreparedPartMap,
};
use zennah_geometry_core::stitch_pairs::{ExactStitchEdgePair, ExactStitchPath, ExactStitchPlan};

fn cut_fill_with_paths(cut_edge_paths: Vec<Vec<[usize; 2]>>, cut_edge_path_closed: Vec<bool>) -> CutPaths {
    CutPaths {
        cut_edge_paths,
        cut_edge_path_closed,
    }
}

#[test]
fn meshlib_result_cut_path_summary_follows_optional_out_cut_contract() {
    let first = cut_fill_with_paths(vec![vec![[0, 1]], vec![[1, 2], [2, 0]]], vec![false, true]);
    let second = cut_fill_with_paths(vec![vec![[10, 11], [11, 12], [12, 10]]], vec![true]);

    assert_eq!(
        meshlib_result_cut_path_summary(ExactBooleanOperation::Union, &first, &second),
        MeshlibResultCutPathSummary {
            paths: 2,
            path_edges: 3,
            closed_paths: 1,
        }
    );
    assert_eq!(
        meshlib_result_cut_path_summary(ExactBooleanOperation::Intersection, &first, &second),
        MeshlibResultCutPathSummary {
            paths: 1,
            path_edges: 3,
            closed_paths: 1,
        }
    );
    assert_eq!(
        meshlib_result_cut_path_summary(ExactBooleanOperation::InsideA, &first, &second).paths,
        2
    );
    assert_eq!(
        meshlib_result_cut_path_summary(ExactBooleanOperation::OutsideB, &first, &second).paths,
        1
    );
}

#[test]
fn result_cut_operand_and_splice_by_operation() {
    assert_eq!(result_cut_source_operand(ExactBooleanOperation::Intersection), ExactBooleanOperand::Second);
    assert_eq!(result_cut_source_operand(ExactBooleanOperation::DifferenceBA), ExactBooleanOperand::First);
    assert_eq!(result_cut_source_operand(ExactBooleanOperation::OutsideA), ExactBooleanOperand::First);
    assert_eq!(result_cut_source_operand(ExactBooleanOperation::InsideB), ExactBooleanOperand::Second);
    assert!(requires_topology_splice(ExactBooleanOperation::DifferenceAB));
    assert!(!requires_topology_splice(ExactBooleanOperation::InsideA));
}

#[test]
fn path_length_mismatches_count_extra_paths() {
    let first = vec![vec![[0, 1]], vec![[1, 2], [2, 3]]];
    let second = vec![vec![[5, 6]], vec![[6, 7]], vec![[7, 8]]];
    assert_eq!(cut_path_length_mismatches(&first, &second), 2);
    assert_eq!(cut_path_length_mismatches(&second, &first), 2);
}

#[test]
fn vertex_maps_map_edges_and_faces() {
    let map = vec![Some(4), None, Some(2)];
    assert_eq!(mapped_directed_edge(&map, [0, 2]), Some([4, 2]));
    assert_eq!(mapped_ordered_edge(&map, [0, 2]), Some([2, 4]));
    assert_eq!(mapped_directed_edge(&map, [0, 1]), None);
    assert_eq!(mapped_directed_edge(&map, [0, 7]), None);
    assert_eq!(valid_face_vertices([0, 1, 2], 3), Some([0, 1, 2]));
    assert_eq!(valid_face_vertices([0, -1, 2], 3), None);
    assert_eq!(valid_face_vertices([0, 1, 3], 3), None);
}

fn source(first: Option<[usize; 2]>, second: Option<[usize; 2]>) -> ExactBooleanStitchedEdgeSource {
    ExactBooleanStitchedEdgeSource {
        output_edge: [0, 0],
        first_output_edge: None,
        second_output_edge: None,
        first_stitch_edge: first,
        second_stitch_edge: second,
        first_stitch_edge_synthetic: false,
        second_stitch_edge_synthetic: false,
        first_edge_index: 0,
        second_edge_index: 0,
        first_cut_edge: [0, 0],
        second_cut_edge: [0, 0],
    }
}

#[test]
fn stitch_sources_chain_and_close() {
    let a = source(Some([0, 1]), Some([1, 0]));
    let b = source(Some([1, 2]), Some([2, 1]));
    let c = source(Some([2, 0]), Some([0, 2]));
    assert!(stitch_sources_are_contiguous(&a, &b));
    assert!(!stitch_sources_are_contiguous(&a, &c));
    let sources = vec![a, b, c];
    assert!(stitch_segment_is_closed(&vec![0, 1, 2], &sources));
    assert!(!stitch_segment_is_closed(&vec![0, 1], &sources));
    assert!(!stitch_segment_is_closed(&vec![], &sources));
}

#[test]
fn stitched_edge_sources_mark_synthetic_sides() {
    let plan = ExactStitchPlan {
        pairs: vec![ExactStitchEdgePair {
            first_edge_index: 0,
            second_edge_index: 0,
            first_edge: [0, 1],
            second_edge: [1, 0],
            second_reversed: true,
        }],
        paths: vec![ExactStitchPath {
            pair_indices: vec![0],
            closed: false,
        }],
        unmatched_first_edges: Vec::new(),
        unmatched_second_edges: Vec::new(),
        compatible: true,
    };
    let mapped = stitched_edge_sources(&plan, &vec![Some(0), Some(1)], &vec![]);
    assert_eq!(mapped.sources.len(), 1);
    assert_eq!(mapped.sources[0].output_edge, [0, 1]);
    assert_eq!(mapped.sources[0].first_stitch_edge, Some([0, 1]));
    assert_eq!(mapped.sources[0].second_stitch_edge, Some([1, 0]));
    assert!(mapped.sources[0].second_stitch_edge_synthetic);
    assert!(!mapped.sources[0].first_stitch_edge_synthetic);
    assert_eq!(mapped.paths, vec![ExactStitchPath { pair_indices: vec![0], closed: false }]);
}

#[test]
fn prepared_part_numbers_vertices_in_first_seen_order() {
    let faces = vec![[2, 3, 1], [0, 1, 9], [1, 0, 3]];
    let map = PreparedPartMap::new(4, &faces, &vec![0, 1, 2, 7]);
    assert_eq!(map.vertices, vec![Some(3), Some(2), Some(0), Some(1)]);
    assert_eq!(map.mapped_directed_edge([1, 3]), Some([2, 1]));
    assert_eq!(map.mapped_directed_edge([0, 2]), None);
}

#[test]
fn need_inside_tables_follow_the_operation() {
    assert_eq!(first_need_inside(ExactBooleanOperation::Union), Some(false));
    assert_eq!(second_need_inside(ExactBooleanOperation::Union), Some(false));
    assert_eq!(first_need_inside(ExactBooleanOperation::Intersection), Some(true));
    assert_eq!(second_need_inside(ExactBooleanOperation::Intersection), Some(true));
    assert_eq!(first_need_inside(ExactBooleanOperation::DifferenceAB), Some(false));
    assert_eq!(second_need_inside(ExactBooleanOperation::DifferenceAB), Some(true));
    assert_eq!(first_need_inside(ExactBooleanOperation::DifferenceBA), Some(true));
    assert_eq!(second_need_inside(ExactBooleanOperation::DifferenceBA), Some(false));
    assert_eq!(first_need_inside(ExactBooleanOperation::InsideA), Some(true));
    assert_eq!(second_need_inside(ExactBooleanOperation::InsideA), None);
    assert_eq!(first_need_inside(ExactBooleanOperation::OutsideB), None);
    assert_eq!(second_need_inside(ExactBooleanOperation::OutsideB), Some(false));
}

#[test]
fn left_hole_paths_and_operand_labels() {
    assert!(paths_have_left_hole(ExactBooleanOperation::Intersection));
    assert!(!paths_have_left_hole(ExactBooleanOperation::Union));
    assert_eq!(operand_label(ExactBooleanOperand::First), "first");
    assert_eq!(operand_label(ExactBooleanOperand::Second), "second");
}
