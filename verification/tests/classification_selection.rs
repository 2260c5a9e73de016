use zennah_geometry_core::exact_classify::selection::{
    barriered_prepare_faces, classification_component_faces, classification_component_summaries,
    coplanar_difference_minuend_classification, coplanar_difference_subtrahend_classification,
    coplanar_intersection_first_wins_classification, coplanar_union_first_wins_classification,
    exact_classification_plan, exact_projected_classification_plan, remap_component_faces, remap_selected_faces,
    select_components,
};
use zennah_geometry_core::exact_cut::ExactCutMeshRecords;
use zennah_geometry_core::mesh::GeometryError;

#[test]
fn cut_path_sides_force_the_kept_side() {
    let faces = vec![[0, 1, 2], [0, 2, 3]];
    let other = vec![[0, 1, 2]];
    let paths = vec![vec![[0, 2]]];
    let plan = exact_classification_plan(4, &faces, 3, &other, &Vec::new(), &paths, &Vec::new(), true, false, true).unwrap();
    assert_eq!(plan.components, vec![vec![0], vec![1]]);
    assert!(plan.used_cut_path_sides);
    assert!(plan.cut_paths_consistent);
    assert_eq!(plan.include_components, vec![0]);
    assert_eq!(plan.exclude_components, vec![1]);
    assert_eq!(
        (plan.cut_left_components, plan.cut_right_components, plan.cut_path_overlap_components),
        (1, 1, 0)
    );
    let selection = select_components(&plan, &vec![false, false]);
    assert_eq!(selection.selected, vec![true, false]);
    assert_eq!(selection.selected_faces, vec![0]);

    let plan = exact_classification_plan(4, &faces, 3, &other, &Vec::new(), &paths, &Vec::new(), true, true, true).unwrap();
    assert_eq!(plan.include_components, vec![1]);
    assert_eq!(plan.exclude_components, vec![0]);
    let selection = select_components(&plan, &vec![false, false]);
    assert_eq!(selection.selected, vec![false, true]);
    assert_eq!(selection.selected_faces, vec![1]);
}

#[test]
fn without_paths_components_are_chosen_by_where_they_lie() {
    let faces = vec![[0, 1, 2], [0, 2, 3]];
    let plan =
        exact_classification_plan(4, &faces, 3, &vec![[0, 1, 2]], &vec![[2, 0]], &Vec::new(), &Vec::new(), true, false, true)
            .unwrap();
    assert_eq!(plan.components, vec![vec![0], vec![1]]);
    assert!(!plan.used_cut_path_sides);
    assert!(plan.cut_paths_consistent);
    let selection = select_components(&plan, &vec![true, false]);
    assert_eq!(selection.selected, vec![true, false]);
    assert_eq!(selection.selected_faces, vec![0]);
}

#[test]
fn classification_plan_checks_both_meshes() {
    let faces = vec![[0, 1, 2]];
    assert_eq!(
        exact_classification_plan(3, &faces, 3, &vec![[0, 1, 5]], &Vec::new(), &Vec::new(), &Vec::new(), true, true, true)
            .err(),
        Some(GeometryError::FaceIndexOutOfBounds { face: 0, vertex: 5, vertex_count: 3 })
    );
    assert_eq!(
        exact_classification_plan(3, &vec![[0, -1, 2]], 3, &vec![[0, 1, 5]], &Vec::new(), &Vec::new(), &Vec::new(), true, true, true)
            .err(),
        Some(GeometryError::NegativeFaceIndex { face: 0, vertex: -1 })
    );
}

#[test]
fn coplanar_reselections_follow_their_rules() {
    let components = vec![vec![0, 1], vec![2], vec![3]];
    let inside = vec![true, false, true];
    let overlap = vec![1];
    let union_keep = coplanar_union_first_wins_classification(&components, &inside, &overlap, true);
    assert_eq!(union_keep.selected, vec![true, true, false]);
    assert_eq!(union_keep.selected_faces, vec![0, 1, 2]);
    let union_drop = coplanar_union_first_wins_classification(&components, &inside, &overlap, false);
    assert_eq!(union_drop.selected, vec![false, true, false]);
    assert_eq!(union_drop.selected_faces, vec![2]);
    let meet_keep = coplanar_intersection_first_wins_classification(&components, &inside, &overlap, true);
    assert_eq!(meet_keep.selected_faces, vec![0, 1, 3]);
    let meet_drop = coplanar_intersection_first_wins_classification(&components, &inside, &overlap, false);
    assert_eq!(meet_drop.selected, vec![false, false, true]);
    assert_eq!(meet_drop.selected_faces, vec![3]);
    let minuend = coplanar_difference_minuend_classification(&components, &inside);
    assert_eq!(minuend.selected_faces, vec![2]);
    let subtrahend = coplanar_difference_subtrahend_classification(&components, &inside, &overlap);
    assert_eq!(subtrahend.selected, vec![false, false, true]);
    assert_eq!(subtrahend.selected_faces, vec![3]);
}

#[test]
fn component_summaries_and_barriered_faces() {
    let components = vec![vec![0, 1], vec![2]];
    assert_eq!(
        classification_component_summaries(&components, &vec![true, false], &vec![false, true]),
        vec![[0, 1, 0, 2], [1, 0, 1, 1]]
    );
    assert_eq!(classification_component_faces(&components), components);
    assert_eq!(barriered_prepare_faces(true, &vec![3, 4]), vec![3, 4]);
    assert!(barriered_prepare_faces(false, &vec![3, 4]).is_empty());
}

fn projected_cut() -> ExactCutMeshRecords {
    ExactCutMeshRecords {
        faces: vec![[0, 1, 2], [0, 2, 3], [9, 9, 9]],
        cut_edges: Vec::new(),
        cut_edge_paths: vec![vec![[0, 2]]],
        cut_edge_path_closed: vec![false],
        cut_edge_path_source_faces: Vec::new(),
        collapsed_cut_segment_path_source_faces: Vec::new(),
        source_face_for_faces: Vec::new(),
        cut_face_source_events: Vec::new(),
    }
}

#[test]
fn projected_plan_numbers_valid_faces_once_and_maps_back() {
    let cut = projected_cut();
    let other = vec![[0, 1, 2]];
    let projected = exact_projected_classification_plan(&cut, 4, 3, &other, &vec![1, 0, 1, 7], None, &Vec::new(), true, false, true)
        .unwrap();
    assert_eq!(projected.face_slots, vec![1, 0]);
    assert_eq!(projected.plan.components, vec![vec![0], vec![1]]);
    assert_eq!(projected.plan.include_components, vec![1]);
    let selection = select_components(&projected.plan, &vec![false, false]);
    assert_eq!(selection.selected_faces, vec![1]);
    assert_eq!(remap_selected_faces(&selection.selected_faces, &projected.face_slots), vec![0]);
    assert_eq!(remap_component_faces(&vec![0, 1, 5], &projected.face_slots), vec![1, 0, 5]);
    assert_eq!(remap_selected_faces(&vec![1, 0, 9], &projected.face_slots), vec![0, 1]);
}

#[test]
fn projected_plan_without_valid_faces_is_empty() {
    let cut = projected_cut();
    let projected =
        exact_projected_classification_plan(&cut, 4, 3, &vec![[0, 1, 2]], &vec![5], None, &Vec::new(), true, false, true).unwrap();
    assert!(projected.face_slots.is_empty());
    assert!(projected.plan.components.is_empty());
    assert!(projected.plan.used_cut_path_sides);
    assert!(projected.plan.cut_paths_consistent);
    let bad = exact_projected_classification_plan(&cut, 4, 3, &vec![[0, 1, 2]], &vec![2], None, &Vec::new(), true, false, true);
    assert_eq!(bad.err(), Some(GeometryError::FaceIndexOutOfBounds { face: 0, vertex: 9, vertex_count: 4 }));
}
