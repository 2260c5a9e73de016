use zennah_geometry_core::exact_cut::{
    contour_segment_pairs, edge_key, shared_source_faces, CutTopology, ExactCutPrimitive,
};

#[test]
fn closed_two_point_contour_keeps_single_precut_segment() {
    assert_eq!(contour_segment_pairs(&vec![2, 5], true), vec![(2, 5)]);
    assert_eq!(
        contour_segment_pairs(&vec![2, 5, 8], true),
        vec![(2, 5), (5, 8), (8, 2)]
    );
}

#[test]
fn open_contour_segments_do_not_wrap() {
    assert_eq!(contour_segment_pairs(&vec![2, 5, 8], false), vec![(2, 5), (5, 8)]);
    assert!(contour_segment_pairs(&vec![7], true).is_empty());
}

#[test]
fn primitive_faces_and_shared_faces() {
    let topology = CutTopology::new(&vec![[0, 1, 2], [0, 2, 3], [4, 5, 6]]);
    assert_eq!(topology.primitive_faces(&ExactCutPrimitive::Vertex(0)), vec![0, 1]);
    assert_eq!(topology.primitive_faces(&ExactCutPrimitive::Edge([2, 0])), vec![0, 1]);
    assert_eq!(topology.primitive_faces(&ExactCutPrimitive::Face(9)), vec![9]);
    assert_eq!(
        shared_source_faces(&ExactCutPrimitive::Vertex(1), &ExactCutPrimitive::Vertex(3), &topology),
        vec![0, 1]
    );
    assert_eq!(
        shared_source_faces(&ExactCutPrimitive::Vertex(2), &ExactCutPrimitive::Vertex(3), &topology),
        vec![1]
    );
    assert_eq!(edge_key([5, 2]), (2, 5));
}
