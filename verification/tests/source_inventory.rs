use zennah_geometry_core::exact_cut::{ExactCutFaceSourceEvent, ExactCutMeshRecords};
use zennah_geometry_core::source_inventory::{
    closed_path_meshlib_removed_face_owner_candidates, cut_edge_adjacent_source_faces,
    cut_edge_meshlib_removed_face_owner_candidates_by_index, cut_edge_side_source_faces,
    cut_edge_source_faces_by_index, cut_path_inventory, stitch_result_cut_source_inventory,
    DirectedEdgeSide,
};
use zennah_geometry_core::stitch_pairs::{ExactStitchEdgePair, ExactStitchPath, ExactStitchPlan};

#[test]
fn stitch_result_cut_source_inventory_follows_stitch_pair_order() {
    let first = cut_mesh(
        vec![[0, 1], [1, 2], [2, 3]],
        vec![vec![[0, 1], [1, 2], [2, 3]]],
        vec![vec![Some(10), Some(10), Some(20)]],
    );
    let second = cut_mesh(
        vec![[0, 1], [1, 2], [2, 3]],
        vec![vec![[0, 1], [1, 2], [2, 3]]],
        vec![vec![Some(30), Some(40), Some(40)]],
    );
    let stitch_plan = ExactStitchPlan {
        pairs: vec![
            stitch_pair(0, [0, 1], 0, [0, 1]),
            stitch_pair(1, [1, 2], 1, [1, 2]),
            stitch_pair(2, [2, 3], 2, [2, 3]),
        ],
        paths: vec![
            ExactStitchPath {
                pair_indices: vec![0, 1],
                closed: false,
            },
            ExactStitchPath {
                pair_indices: vec![2],
                closed: false,
            },
        ],
        unmatched_first_edges: Vec::new(),
        unmatched_second_edges: Vec::new(),
        compatible: true,
    };

    let inventory = stitch_result_cut_source_inventory(&first, &second, &stitch_plan);

    assert_eq!(inventory.path_lengths, vec![2, 1]);
    assert_eq!(
        inventory.first_path_source_faces,
        vec![vec![10, 10], vec![20]]
    );
    assert_eq!(
        inventory.second_path_source_faces,
        vec![vec![30, 40], vec![40]]
    );
    assert_eq!(
        inventory.first_path_source_face_runs,
        vec![vec![[10, 2]], vec![[20, 1]]]
    );
    assert_eq!(
        inventory.second_path_source_face_runs,
        vec![vec![[30, 1], [40, 1]], vec![[40, 1]]]
    );
    assert_eq!(inventory.first_source_faces, vec![10, 10, 20]);
    assert_eq!(inventory.second_source_faces, vec![30, 40, 40]);
    assert_eq!(inventory.first_source_face_runs, vec![[10, 2], [20, 1]]);
    assert_eq!(inventory.second_source_face_runs, vec![[30, 1], [40, 2]]);
    assert_eq!(inventory.missing_source_records, [0, 0]);
    assert_eq!(inventory.edge_grouped_path_lengths, vec![3]);
    assert_eq!(inventory.edge_grouped_closed_paths, 0);
    assert_eq!(
        inventory.first_edge_grouped_path_source_faces,
        vec![vec![10, 10, 20]]
    );
    assert_eq!(
        inventory.second_edge_grouped_path_source_faces,
        vec![vec![30, 40, 40]]
    );
    assert_eq!(
        inventory.first_edge_grouped_path_source_face_runs,
        vec![vec![[10, 2], [20, 1]]]
    );
    assert_eq!(
        inventory.second_edge_grouped_path_source_face_runs,
        vec![vec![[30, 1], [40, 2]]]
    );
    assert_eq!(inventory.first_edge_grouped_source_faces, vec![10, 10, 20]);
    assert_eq!(inventory.second_edge_grouped_source_faces, vec![30, 40, 40]);
    assert_eq!(
        inventory.first_edge_grouped_source_face_runs,
        vec![[10, 2], [20, 1]]
    );
    assert_eq!(
        inventory.second_edge_grouped_source_face_runs,
        vec![[30, 1], [40, 2]]
    );
    assert_eq!(inventory.edge_grouped_missing_source_records, [0, 0]);
}

#[test]
fn cut_path_inventory_tracks_meshlib_removed_face_owner_candidates() {
    let cut = ExactCutMeshRecords {
        faces: vec![[0, 1, 4], [2, 1, 4], [2, 3, 4], [0, 3, 4]],
        cut_edges: Vec::new(),
        cut_edge_paths: vec![vec![[0, 1], [1, 2], [2, 3], [3, 0]]],
        cut_edge_path_closed: vec![true],
        cut_edge_path_source_faces: vec![vec![Some(10), Some(20), Some(30), Some(40)]],
        collapsed_cut_segment_path_source_faces: Vec::new(),
        source_face_for_faces: vec![10, 92, 30, 93],
        cut_face_source_events: Vec::<ExactCutFaceSourceEvent>::new(),
    };

    let inventory = cut_path_inventory(&cut);

    assert_eq!(
        inventory.closed_path_meshlib_removed_face_owner_candidates,
        vec![vec![92, 30, 30, 40]]
    );
    assert_eq!(
        inventory.closed_path_meshlib_removed_face_owner_candidate_runs,
        vec![vec![[92, 1], [30, 2], [40, 1]]]
    );
}

fn cut_mesh(
    cut_edges: Vec<[usize; 2]>,
    cut_edge_paths: Vec<Vec<[usize; 2]>>,
    cut_edge_path_source_faces: Vec<Vec<Option<usize>>>,
) -> ExactCutMeshRecords {
    ExactCutMeshRecords {
        faces: Vec::new(),
        cut_edges,
        cut_edge_paths,
        cut_edge_path_closed: Vec::new(),
        cut_edge_path_source_faces,
        collapsed_cut_segment_path_source_faces: Vec::new(),
        source_face_for_faces: Vec::new(),
        cut_face_source_events: Vec::<ExactCutFaceSourceEvent>::new(),
    }
}

fn stitch_pair(
    first_edge_index: usize,
    first_edge: [usize; 2],
    second_edge_index: usize,
    second_edge: [usize; 2],
) -> ExactStitchEdgePair {
    ExactStitchEdgePair {
        first_edge_index,
        second_edge_index,
        first_edge,
        second_edge,
        second_reversed: false,
    }
}

fn square_cut() -> ExactCutMeshRecords {
    ExactCutMeshRecords {
        faces: vec![[0, 1, 4], [2, 1, 4], [2, 3, 4], [0, 3, 4]],
        cut_edges: vec![[0, 1], [2, 1], [2, 3], [3, 0]],
        cut_edge_paths: vec![vec![[0, 1], [1, 2], [2, 3], [3, 0]], vec![[0, 1]]],
        cut_edge_path_closed: vec![true, false],
        cut_edge_path_source_faces: vec![vec![Some(10), None, Some(30), Some(40)], vec![Some(50)]],
        collapsed_cut_segment_path_source_faces: Vec::new(),
        source_face_for_faces: vec![10, 92, 30, 93],
        cut_face_source_events: Vec::new(),
    }
}

#[test]
fn edge_side_sources_follow_direction() {
    let cut = square_cut();
    assert_eq!(cut_edge_side_source_faces(&cut, [0, 1], DirectedEdgeSide::Left), vec![10]);
    assert!(cut_edge_side_source_faces(&cut, [0, 1], DirectedEdgeSide::Right).is_empty());
    assert_eq!(cut_edge_side_source_faces(&cut, [1, 2], DirectedEdgeSide::Right), vec![92]);
    assert_eq!(cut_edge_adjacent_source_faces(&cut, [4, 0]), vec![10, 93]);
    assert_eq!(cut_edge_adjacent_source_faces(&cut, [1, 4]), vec![10, 92]);
}

#[test]
fn edge_source_table_keeps_first_known_source() {
    let cut = square_cut();
    assert_eq!(
        cut_edge_source_faces_by_index(&cut),
        vec![Some(10), None, Some(30), Some(40)]
    );
}

#[test]
fn owner_candidates_by_edge_prefer_differing_side() {
    let cut = square_cut();
    let table = cut_edge_source_faces_by_index(&cut);
    assert_eq!(
        cut_edge_meshlib_removed_face_owner_candidates_by_index(&cut, &table),
        vec![Some(10), Some(92), Some(30), Some(93)]
    );
}

#[test]
fn closed_path_candidates_skip_open_paths() {
    let cut = square_cut();
    let candidates = closed_path_meshlib_removed_face_owner_candidates(
        &cut,
        &vec![vec![10, 30]],
        &vec![vec![92]],
    );
    assert_eq!(candidates, vec![vec![92, 30, 30, 40]]);
}

#[test]
fn cut_path_inventory_splits_closed_paths() {
    let inventory = cut_path_inventory(&square_cut());
    assert_eq!(inventory.path_lengths, vec![4, 1]);
    assert_eq!(inventory.closed_path_lengths, vec![4]);
    assert_eq!(inventory.path_source_faces, vec![vec![10, 30, 40], vec![50]]);
    assert_eq!(inventory.closed_path_source_faces, vec![vec![10, 30, 40]]);
    assert_eq!(inventory.path_edge_left_source_faces[1], vec![vec![10]]);
    assert_eq!(inventory.closed_path_edge_adjacent_source_faces.len(), 1);
}

#[test]
fn stitch_inventory_counts_missing_records() {
    let first = cut_mesh(
        vec![[0, 1], [1, 2]],
        vec![vec![[0, 1], [1, 2]]],
        vec![vec![Some(10), None]],
    );
    let second = cut_mesh(vec![[0, 1], [1, 2]], vec![vec![[0, 1], [1, 2]]], vec![vec![Some(30), Some(40)]]);
    let stitch_plan = ExactStitchPlan {
        pairs: vec![stitch_pair(0, [0, 1], 0, [0, 1]), stitch_pair(1, [1, 2], 1, [1, 2])],
        paths: vec![ExactStitchPath {
            pair_indices: vec![0, 1, 7],
            closed: false,
        }],
        unmatched_first_edges: Vec::new(),
        unmatched_second_edges: Vec::new(),
        compatible: true,
    };
    let inventory = stitch_result_cut_source_inventory(&first, &second, &stitch_plan);
    assert_eq!(inventory.first_source_faces, vec![10]);
    assert_eq!(inventory.second_source_faces, vec![30, 40]);
    assert_eq!(inventory.missing_source_records, [2, 1]);
    assert_eq!(inventory.edge_grouped_missing_source_records, [1, 0]);
}
