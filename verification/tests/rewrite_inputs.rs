use zennah_geometry_core::exact_boolean::ExactBooleanOperand;
use zennah_geometry_core::exact_boolean_topology::AssemblyTopology;
use zennah_geometry_core::exact_cut::ExactCutMeshRecords;
use zennah_geometry_core::rewrite_inputs::{
    cut_path_edge_source_indices, face_in_ranges, filtered_prepared_faces,
    stitch_pair_edge_for_operand, stitch_pair_edge_index_for_operand, CutEdgeOccurrenceLookup,
};
use zennah_geometry_core::stitch_pairs::ExactStitchEdgePair;

fn cut_mesh(cut_edges: Vec<[usize; 2]>, cut_edge_paths: Vec<Vec<[usize; 2]>>) -> ExactCutMeshRecords {
    ExactCutMeshRecords {
        faces: Vec::new(),
        cut_edges,
        cut_edge_paths,
        cut_edge_path_closed: Vec::new(),
        cut_edge_path_source_faces: Vec::new(),
        collapsed_cut_segment_path_source_faces: Vec::new(),
        source_face_for_faces: Vec::new(),
        cut_face_source_events: Vec::new(),
    }
}

#[test]
fn lookup_prefers_the_same_direction_and_takes_each_edge_once() {
    let mut lookup = CutEdgeOccurrenceLookup::new(&vec![[1, 0], [0, 1], [0, 1]]);
    assert_eq!(lookup.take([0, 1]), Some(1));
    assert_eq!(lookup.take([0, 1]), Some(2));
    assert_eq!(lookup.take([0, 1]), Some(0));
    assert_eq!(lookup.take([0, 1]), None);
    assert_eq!(lookup.take([2, 3]), None);
}

#[test]
fn take_from_indices_takes_the_first_free_index() {
    let mut lookup = CutEdgeOccurrenceLookup::new(&vec![[0, 1], [1, 2], [2, 3]]);
    assert_eq!(lookup.take_from_indices(&vec![2, 0]), Some(2));
    assert_eq!(lookup.take_from_indices(&vec![2, 0]), Some(0));
    assert_eq!(lookup.take_from_indices(&vec![2, 0]), None);
    assert_eq!(lookup.take_from_indices(&Vec::new()), None);
    assert_eq!(lookup.used, vec![true, false, true]);
}

#[test]
fn cut_path_edges_claim_cut_edges_path_after_path() {
    let mesh = cut_mesh(
        vec![[0, 1], [1, 2], [2, 0]],
        vec![vec![[0, 1], [2, 1]], vec![[1, 0], [0, 2], [5, 6]]],
    );
    assert_eq!(cut_path_edge_source_indices(&mesh), vec![Some(0), Some(1), None, Some(2), None]);
}

#[test]
fn face_in_ranges_uses_half_open_ranges() {
    let ranges = vec![[2, 4], [7, 8]];
    assert!(face_in_ranges(2, &ranges));
    assert!(face_in_ranges(3, &ranges));
    assert!(!face_in_ranges(4, &ranges));
    assert!(face_in_ranges(7, &ranges));
    assert!(!face_in_ranges(8, &ranges));
    assert!(!face_in_ranges(0, &Vec::new()));
}

#[test]
fn filtered_prepared_faces_drop_appended_faces() {
    let assembly = AssemblyTopology {
        vertex_count: 0,
        faces: Vec::new(),
        face_sources: Vec::new(),
        first_output_vertex_for_cut_vertex: Vec::new(),
        second_output_vertex_for_cut_vertex: Vec::new(),
        stitched_edge_sources: Vec::new(),
        stitched_edge_paths: Vec::new(),
        prepare_first_faces: vec![0, 1, 2, 3, 4],
        prepare_second_faces: vec![5, 1, 0],
    };
    let first_ranges = vec![[1, 3]];
    let second_ranges = vec![[0, 2]];
    assert_eq!(
        filtered_prepared_faces(&assembly, &first_ranges, &second_ranges, ExactBooleanOperand::First),
        vec![0, 3, 4]
    );
    assert_eq!(
        filtered_prepared_faces(&assembly, &first_ranges, &second_ranges, ExactBooleanOperand::Second),
        vec![5]
    );
}

#[test]
fn stitch_pair_sides_follow_the_operand() {
    let pair = ExactStitchEdgePair {
        first_edge_index: 3,
        second_edge_index: 7,
        first_edge: [1, 2],
        second_edge: [9, 8],
        second_reversed: true,
    };
    assert_eq!(stitch_pair_edge_for_operand(&pair, ExactBooleanOperand::First), [1, 2]);
    assert_eq!(stitch_pair_edge_for_operand(&pair, ExactBooleanOperand::Second), [9, 8]);
    assert_eq!(stitch_pair_edge_index_for_operand(&pair, ExactBooleanOperand::First), 3);
    assert_eq!(stitch_pair_edge_index_for_operand(&pair, ExactBooleanOperand::Second), 7);
}
