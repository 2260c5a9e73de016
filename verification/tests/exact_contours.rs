use zennah_geometry_core::exact_contours::{
    build_contours, build_lookup, open_contour_start, third_vertex,
    triangle_successor_edges, ExactContourIntersection, ExactTriangleOwner, MeshTopologyLite,
    NeighborLinks, RecordKey,
};

#[test]
fn triangle_successor_edges_include_adjacent_symmetric_face_candidate() {
    let topology = MeshTopologyLite::new(vec![[0, 1, 2], [1, 0, 3]]);

    let candidates = triangle_successor_edges(&topology, 0)
        .into_iter()
        .map(|edge| topology.edge_vertices(edge))
        .collect::<Vec<_>>();

    assert_eq!(candidates, vec![[0, 1], [0, 2], [1, 2]]);
}

#[test]
fn topology_reports_left_and_right_faces() {
    let topology = MeshTopologyLite::new(vec![[0, 1, 2], [1, 0, 3]]);
    let edge = topology.find_directed([0, 1]).unwrap();
    assert_eq!(edge.left_face, Some(0));
    assert_eq!(edge.right_face, Some(1));
    let sym = topology.sym(edge).unwrap();
    assert_eq!((sym.from, sym.to, sym.left_face, sym.right_face), (1, 0, Some(1), Some(0)));
    assert!(topology.find_directed([2, 3]).is_none());
    assert_eq!(third_vertex([4, 5, 6], 6, 4), Some(5));
    assert_eq!(third_vertex([4, 4, 6], 6, 4), None);
}

fn record(edge: [usize; 2], face: usize) -> ExactContourIntersection {
    ExactContourIntersection {
        edge_owner: ExactTriangleOwner::First,
        edge,
        edge_left_face: Some(0),
        triangle_owner: ExactTriangleOwner::Second,
        triangle_face: face,
        triangle: [0, 1, 2],
    }
}

#[test]
fn lookup_finds_first_record_either_way_round() {
    let records = vec![record([0, 1], 0), record([1, 2], 0), record([0, 1], 0)];
    let lookup = build_lookup(&records);
    let key = RecordKey {
        edge_owner: ExactTriangleOwner::First,
        edge: [1, 2],
        triangle_face: 0,
    };
    assert_eq!(lookup.len(), 2);
    assert_eq!(lookup[1], (key, 1));
}

#[test]
fn contours_follow_links_and_close_rings() {
    let records = vec![record([0, 1], 0), record([1, 2], 0), record([2, 0], 0), record([5, 6], 1)];
    let links = vec![
        NeighborLinks { prev: Some(2), next: Some(1) },
        NeighborLinks { prev: Some(0), next: Some(2) },
        NeighborLinks { prev: Some(1), next: Some(0) },
        NeighborLinks { prev: None, next: None },
    ];
    assert_eq!(open_contour_start(1, &links), 1);
    let contours = build_contours(records.clone(), links);
    assert_eq!(contours.len(), 2);
    assert!(contours[0].closed);
    assert_eq!(contours[0].intersections, records[0..3].to_vec());
    assert!(!contours[1].closed);
    assert_eq!(contours[1].intersections, vec![records[3]]);
}

#[test]
fn open_chain_starts_at_its_first_record() {
    let links = vec![
        NeighborLinks { prev: Some(1), next: None },
        NeighborLinks { prev: None, next: Some(0) },
    ];
    assert_eq!(open_contour_start(0, &links), 1);
}
