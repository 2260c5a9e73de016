use zennah_geometry_core::exact_classify::components::{
    component_cut_edges, connected_components_excluding_cut_edges, cut_path_edges, face_adjacency,
};
use zennah_geometry_core::exact_classify::orientation_flip::orientation_normalized_path_sides;
use zennah_geometry_core::exact_classify::side_details::{
    component_faces_for_indices, exact_cut_path_side_component_details,
};
use zennah_geometry_core::exact_classify::{
    directed_face_map, face_to_component_map, merge_path_sides, path_cut_side_components,
    PathCutSideComponents,
};
use zennah_geometry_core::mesh::{validate_faces, GeometryError};

#[test]
fn orientation_normalized_cut_path_sides_handle_opposite_loop_directions() {
    let sides = vec![
        PathCutSideComponents {
            left_components: vec![1],
            right_components: vec![0],
        },
        PathCutSideComponents {
            left_components: vec![0],
            right_components: vec![2],
        },
    ];

    let fixed = merge_path_sides(&sides);
    let normalized = orientation_normalized_path_sides(&sides).unwrap();

    assert_eq!(fixed.overlap_count(), 1);
    assert_eq!(normalized.left_components, vec![0]);
    assert_eq!(normalized.right_components, vec![1, 2]);
    assert!(normalized.consistent());
}

#[test]
fn cut_path_sides_collect_all_directed_incident_faces() {
    let faces = vec![[0, 1, 2], [0, 1, 3], [1, 0, 4]];
    let directed_faces = directed_face_map(&faces);
    let face_to_component = vec![Some(0), Some(1), Some(2)];

    let sides = path_cut_side_components(&vec![vec![[0, 1]]], &directed_faces, &face_to_component);

    assert_eq!(sides[0].left_components, vec![0, 1]);
    assert_eq!(sides[0].right_components, vec![2]);
}

#[test]
fn orientation_normalization_refuses_contradictory_sides() {
    let sides = vec![
        PathCutSideComponents {
            left_components: vec![0],
            right_components: vec![1],
        },
        PathCutSideComponents {
            left_components: vec![0, 1],
            right_components: vec![],
        },
    ];
    assert!(orientation_normalized_path_sides(&sides).is_none());
    assert!(orientation_normalized_path_sides(&vec![]).is_none());
}

#[test]
fn face_adjacency_links_faces_across_uncut_edges_only() {
    let faces = vec![[0, 1, 2], [0, 2, 3], [2, 1, 4]];
    let adjacency = face_adjacency(&faces, &vec![]);
    assert_eq!(adjacency, vec![vec![1, 2], vec![0], vec![0]]);
    let cut = face_adjacency(&faces, &vec![[2, 0]]);
    assert_eq!(cut, vec![vec![2], vec![], vec![0]]);
}

#[test]
fn components_split_at_cut_edges_in_order_of_smallest_face() {
    let faces = vec![[0, 1, 2], [0, 2, 3], [2, 1, 4], [5, 6, 7]];
    let whole = connected_components_excluding_cut_edges(&faces, &vec![]);
    assert_eq!(whole, vec![vec![0, 1, 2], vec![3]]);
    let split = connected_components_excluding_cut_edges(&faces, &vec![[0, 2]]);
    assert_eq!(split, vec![vec![0, 2], vec![1], vec![3]]);
    assert!(connected_components_excluding_cut_edges(&vec![], &vec![]).is_empty());
}

#[test]
fn cut_edge_keys_are_ordered_and_unique() {
    assert_eq!(
        cut_path_edges(&vec![vec![[3, 1], [1, 3]], vec![[0, 2]]]),
        vec![[0, 2], [1, 3]]
    );
    assert_eq!(
        component_cut_edges(&vec![[5, 4]], &vec![[4, 5], [2, 9]]),
        vec![[2, 9], [4, 5]]
    );
}

#[test]
fn face_to_component_keeps_last_listing() {
    let map = face_to_component_map(4, &vec![vec![0, 2], vec![2, 9]]);
    assert_eq!(map, vec![Some(0), None, Some(1), None]);
}

#[test]
fn component_faces_skip_missing_indices() {
    let components = vec![vec![4, 5], vec![7]];
    assert_eq!(
        component_faces_for_indices(&components, &vec![1, 3, 0]),
        vec![vec![7], vec![4, 5]]
    );
}

#[test]
fn validate_faces_reports_first_bad_corner() {
    assert_eq!(
        validate_faces(&vec![[0, 1, 2], [0, -1, 5]], 3),
        Err(GeometryError::NegativeFaceIndex { face: 1, vertex: -1 })
    );
    assert_eq!(
        validate_faces(&vec![[0, 1, 3]], 3),
        Err(GeometryError::FaceIndexOutOfBounds {
            face: 0,
            vertex: 3,
            vertex_count: 3
        })
    );
    assert_eq!(validate_faces(&vec![[2, 1, 0]], 3), Ok(vec![[2, 1, 0]]));
}

#[test]
fn side_details_report_both_sides_of_a_cut_path() {
    let faces = vec![[0, 1, 2], [0, 2, 3]];
    let details = exact_cut_path_side_component_details(4, &faces, &vec![vec![[0, 2]]]).unwrap();
    assert_eq!(details.component_faces, vec![vec![0], vec![1]]);
    assert_eq!(details.left_component_indices, vec![1]);
    assert_eq!(details.right_component_indices, vec![0]);
    assert!(details.overlap_component_indices.is_empty());
    assert_eq!(details.left_component_faces, vec![vec![1]]);
    assert_eq!(details.right_component_faces, vec![vec![0]]);
    let empty = exact_cut_path_side_component_details(4, &faces, &vec![]).unwrap();
    assert!(empty.component_faces.is_empty());
}

#[test]
fn face_adjacency_pairs_non_manifold_walks_in_turn() {
    let faces = vec![[0, 1, 2], [1, 0, 3], [0, 1, 4], [1, 0, 5]];
    let adj = face_adjacency(&faces, &Vec::new());
    assert_eq!(adj, vec![vec![1], vec![0], vec![3], vec![2]]);
    let comps = connected_components_excluding_cut_edges(&faces, &Vec::new());
    assert_eq!(comps, vec![vec![0, 1], vec![2, 3]]);
}

#[test]
fn components_list_faces_in_breadth_first_order() {
    // A strip 0-1-2-3 where face 0 also touches face 3 across edge [0, 3].
    let faces = vec![[0, 1, 3], [1, 2, 3], [2, 4, 3], [3, 4, 0]];
    let comps = connected_components_excluding_cut_edges(&faces, &Vec::new());
    assert_eq!(comps, vec![vec![0, 1, 3, 2]]);
}
