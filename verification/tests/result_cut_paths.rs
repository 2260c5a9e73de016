use zennah_geometry_core::exact_boolean::ExactBooleanOperation;
use zennah_geometry_core::exact_cut::ExactCutMeshRecords;
use zennah_geometry_core::result_cut_paths::{
    first_preassigned_vertices,
    mapped_prepare_result_cut_paths, mapped_result_cut_paths, split_mapped_paths,
    ResultCutVertexLookup,
};
use zennah_geometry_core::stitch_pairs::{ExactStitchEdgePair, ExactStitchPlan};

fn cut(faces: Vec<[i64; 3]>, paths: Vec<Vec<[usize; 2]>>, closed: Vec<bool>) -> ExactCutMeshRecords {
    ExactCutMeshRecords {
        faces,
        cut_edges: Vec::new(),
        cut_edge_paths: paths,
        cut_edge_path_closed: closed,
        cut_edge_path_source_faces: Vec::new(),
        collapsed_cut_segment_path_source_faces: Vec::new(),
        source_face_for_faces: Vec::new(),
        cut_face_source_events: Vec::new(),
    }
}

#[test]
fn split_mapped_paths_cuts_runs_at_unmapped_edges() {
    let mapped = vec![
        vec![Some([0, 1]), None, Some([2, 3]), Some([3, 4])],
        Vec::new(),
        vec![None],
        vec![Some([5, 6])],
    ];
    let out = split_mapped_paths(&mapped, &vec![true, true, true, true]);
    assert_eq!(out.paths, vec![vec![[0, 1]], vec![[2, 3], [3, 4]], Vec::new(), vec![[5, 6]]]);
    assert_eq!(out.closed, vec![false, false, true, true]);
    assert!(!out.complete);
    let whole = split_mapped_paths(&vec![vec![Some([1, 2])]], &Vec::new());
    assert_eq!(whole.paths, vec![vec![[1, 2]]]);
    assert_eq!(whole.closed, vec![false]);
    assert!(whole.complete);
}

#[test]
fn prepare_result_cut_paths_follow_the_prepared_faces() {
    let first = cut(
        vec![[0, 1, 2], [0, 2, 3]],
        vec![vec![[0, 1], [1, 2]], vec![[2, 3], [3, 4]]],
        vec![true, true],
    );
    let second = cut(Vec::new(), Vec::new(), Vec::new());
    let out = mapped_prepare_result_cut_paths(
        ExactBooleanOperation::Union,
        &first,
        5,
        &second,
        0,
        &vec![0],
        &Vec::new(),
    );
    assert_eq!(out.paths, vec![vec![[0, 1], [1, 2]]]);
    assert_eq!(out.closed, vec![true]);
    assert!(!out.complete);
}

#[test]
fn vertex_lookup_prefers_the_vertex_map() {
    let lookup = ResultCutVertexLookup {
        source_map: vec![Some(4), None],
        coincident: vec![Some(9), Some(5), Some(6)],
    };
    assert_eq!(lookup.mapped_source_vertex(0), Some(4));
    assert_eq!(lookup.mapped_source_vertex(1), Some(5));
    assert_eq!(lookup.mapped_source_vertex(2), Some(6));
    assert_eq!(lookup.mapped_source_vertex(3), None);
    assert_eq!(lookup.mapped_source_edge([0, 1]), Some([4, 5]));
    assert_eq!(lookup.mapped_source_edge([3, 1]), None);
}

#[test]
fn result_cut_paths_use_vertex_map_then_lookup_then_stitch() {
    let first = cut(Vec::new(), Vec::new(), Vec::new());
    let second = cut(Vec::new(), vec![vec![[0, 1], [1, 2], [2, 3]]], vec![true]);
    let mut first_vertex_map = vec![None; 9];
    first_vertex_map[7] = Some(20);
    first_vertex_map[8] = Some(21);
    let plan = ExactStitchPlan {
        pairs: vec![ExactStitchEdgePair {
            first_edge_index: 0,
            second_edge_index: 0,
            first_edge: [7, 8],
            second_edge: [2, 3],
            second_reversed: false,
        }],
        paths: Vec::new(),
        unmatched_first_edges: Vec::new(),
        unmatched_second_edges: Vec::new(),
        compatible: true,
    };
    let out = mapped_result_cut_paths(
        ExactBooleanOperation::Intersection,
        &first,
        &second,
        Some(&plan),
        &first_vertex_map,
        &vec![Some(10), Some(11), None, None],
        &vec![None, None, Some(12), None],
    );
    assert_eq!(out.paths, vec![vec![[10, 11], [11, 12], [21, 20]]]);
    assert_eq!(out.closed, vec![true]);
    assert!(out.complete);
}

fn stitch(pairs: Vec<ExactStitchEdgePair>) -> ExactStitchPlan {
    ExactStitchPlan {
        pairs,
        paths: Vec::new(),
        unmatched_first_edges: Vec::new(),
        unmatched_second_edges: Vec::new(),
        compatible: true,
    }
}

fn pair(first_edge: [usize; 2], second_edge: [usize; 2], second_reversed: bool) -> ExactStitchEdgePair {
    ExactStitchEdgePair {
        first_edge_index: 0,
        second_edge_index: 0,
        first_edge,
        second_edge,
        second_reversed,
    }
}

#[test]
fn first_preassigned_vertices_follow_stitch_endpoints() {
    let mut second_map = vec![None; 8];
    second_map[5] = Some(50);
    second_map[6] = Some(60);
    let plan = stitch(vec![pair([0, 1], [5, 6], false), pair([1, 2], [7, 6], true)]);
    assert_eq!(first_preassigned_vertices(&plan, 4, &second_map), Some(vec![Some(50), Some(60), None, None]));
    let conflict = stitch(vec![pair([0, 1], [5, 6], false), pair([1, 2], [7, 6], true), pair([2, 3], [8, 9], false)]);
    assert_eq!(first_preassigned_vertices(&conflict, 4, &second_map), None);
    let outside = stitch(vec![pair([0, 9], [5, 6], false)]);
    assert_eq!(first_preassigned_vertices(&outside, 4, &second_map), None);
}

#[test]
fn complete_mapping_keeps_paths_one_for_one() {
    let mapped = vec![vec![Some([0, 1]), Some([1, 2])], Vec::new(), vec![Some([7, 8])]];
    let out = split_mapped_paths(&mapped, &vec![true, false]);
    assert!(out.complete);
    assert_eq!(out.paths, vec![vec![[0, 1], [1, 2]], Vec::new(), vec![[7, 8]]]);
    assert_eq!(out.closed, vec![true, false, false]);
}
