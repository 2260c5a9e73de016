use zennah_geometry_core::edge::ordered_point_edge;
use zennah_geometry_core::exact_cut::ExactCutMeshRecords;
use zennah_geometry_core::exact_boolean::{ExactBooleanOperand, ExactBooleanOutputFaceSource};
use zennah_geometry_core::source_details::{
    boundary_misses, duplicate_source_faces, face_source_summary, flat_path_edges,
};

fn cut(faces: Vec<[i64; 3]>, paths: Vec<Vec<[usize; 2]>>) -> ExactCutMeshRecords {
    ExactCutMeshRecords {
        faces,
        cut_edges: Vec::new(),
        cut_edge_paths: paths,
        cut_edge_path_closed: Vec::new(),
        cut_edge_path_source_faces: Vec::new(),
        collapsed_cut_segment_path_source_faces: Vec::new(),
        source_face_for_faces: Vec::new(),
        cut_face_source_events: Vec::new(),
    }
}

#[test]
fn flat_path_edges_concatenate_paths() {
    assert_eq!(
        flat_path_edges(&vec![vec![[0, 1], [1, 2]], Vec::new(), vec![[5, 6]]]),
        vec![[0, 1], [1, 2], [5, 6]]
    );
}

#[test]
fn boundary_misses_count_each_operand_and_selection() {
    let first = cut(vec![[0, 1, 2], [0, 2, 3]], vec![vec![[0, 2]], vec![[1, 2]]]);
    let second = cut(vec![[0, 1, 2]], vec![vec![[0, 1], [1, 2], [2, 0]]]);
    let misses = boundary_misses(&first, &second, &vec![0], &Vec::new(), &vec![0, 1], &vec![0]);
    assert_eq!(misses, [[0, 3], [1, 0]]);
}

#[test]
fn ordered_point_edge_puts_the_smaller_key_first() {
    assert_eq!(ordered_point_edge([1, 2, 3], [1, 2, 4]), ([1, 2, 3], [1, 2, 4]));
    assert_eq!(ordered_point_edge([1, 5, 0], [1, 2, 9]), ([1, 2, 9], [1, 5, 0]));
    assert_eq!(ordered_point_edge([-1, 0, 0], [0, -9, -9]), ([-1, 0, 0], [0, -9, -9]));
    assert_eq!(ordered_point_edge([2, 2, 2], [2, 2, 2]), ([2, 2, 2], [2, 2, 2]));
}

#[test]
fn duplicate_source_faces_count_groups_and_extra_faces() {
    let source = |operand, source_face| ExactBooleanOutputFaceSource { operand, cut_face: 0, source_face };
    let first = ExactBooleanOperand::First;
    let second = ExactBooleanOperand::Second;
    let sources = vec![
        source(first, 5),
        source(first, 5),
        source(first, 5),
        source(second, 5),
        source(first, 7),
        source(second, 2),
        source(second, 2),
        source(first, 7),
    ];
    assert_eq!(duplicate_source_faces(&sources, first), (2, 3));
    assert_eq!(duplicate_source_faces(&sources, second), (1, 1));
    let summary = face_source_summary(&sources, &vec![0, 1, 2], &vec![4]);
    assert_eq!(summary.selected_first_faces, 3);
    assert_eq!(summary.selected_second_faces, 1);
    assert_eq!((summary.first_source_face_groups, summary.duplicate_first_source_faces), (2, 3));
    assert_eq!((summary.second_source_face_groups, summary.duplicate_second_source_faces), (1, 1));
}
