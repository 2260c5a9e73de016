use zennah_geometry_core::exact_boolean::{ExactBooleanOperand, ExactBooleanOperation};
use zennah_geometry_core::exact_boolean_topology::{meshlib_topology_rewrite_plan, AssemblyTopology};
use zennah_geometry_core::exact_cut::ExactCutMeshRecords;
use zennah_geometry_core::prepared_parts::{
    mapped_cut_edge, meshlib_prepare_connect_parts, meshlib_prepare_part, prepared_connect_base_contour_vertex_maps,
    prepared_connect_incoming_contour_vertex_maps, prepared_part_connect_contour_vertex_maps,
    prepared_part_self_contour_vertex_maps, MeshlibPreparedConnectParts, missing_cut_path_edge_detail,
    prepared_part_connect_contour_vertex_maps_from_stitch, MeshlibPreparedMissingCutEdge,
};
use zennah_geometry_core::stitch_pairs::{ExactStitchEdgePair, ExactStitchPath, ExactStitchPlan};

fn cut(faces: Vec<[i64; 3]>, paths: Vec<Vec<[usize; 2]>>, closed: Vec<bool>) -> ExactCutMeshRecords {
    ExactCutMeshRecords {
        faces,
        cut_edges: Vec::new(),
        cut_edge_paths: paths,
        cut_edge_path_closed: closed,
        cut_edge_path_source_faces: Vec::new(),
        collapsed_cut_segment_path_source_faces: Vec::new(),
        source_face_for_faces: Vec::new(),
        cut_face_source_events: Vec::new(),
    }
}

fn first_cut() -> ExactCutMeshRecords {
    cut(
        vec![[0, 1, 2], [0, 2, 3], [2, 1, 4], [5, 6, 7]],
        vec![vec![[0, 1], [1, 4]], vec![[2, 3], [3, 0]]],
        vec![true, true],
    )
}

#[test]
fn prepare_part_numbers_vertices_at_first_use_and_skips_bad_faces() {
    let part = meshlib_prepare_part(&first_cut(), 6, &vec![1, 9, 0, 3, 1], ExactBooleanOperand::First, false);
    assert_eq!(part.operand, ExactBooleanOperand::First);
    assert_eq!(part.vertex_sources, vec![0, 2, 3, 1]);
    assert_eq!(part.faces, vec![[0, 1, 2], [0, 3, 1], [0, 1, 2]]);
    assert_eq!(part.cut_to_part_vertices, vec![Some(0), Some(3), Some(1), Some(2), None, None]);
    assert_eq!(part.cut_to_part_faces, vec![Some(1), Some(2), None, None]);
    assert_eq!(part.skipped_faces, vec![9, 3]);
    assert_eq!(
        part.cut_to_part_directed_edges,
        vec![
            ([0, 2], [0, 1]),
            ([2, 0], [1, 0]),
            ([2, 3], [1, 2]),
            ([3, 2], [2, 1]),
            ([3, 0], [2, 0]),
            ([0, 3], [0, 2]),
            ([0, 1], [0, 3]),
            ([1, 0], [3, 0]),
            ([1, 2], [3, 1]),
            ([2, 1], [1, 3]),
        ]
    );
}

#[test]
fn prepare_part_flips_faces_when_asked() {
    let part = meshlib_prepare_part(&first_cut(), 6, &vec![1, 0], ExactBooleanOperand::Second, true);
    assert_eq!(part.faces, vec![[0, 2, 1], [0, 1, 3]]);
}

#[test]
fn prepare_part_reads_cut_paths_in_part_numbering() {
    let part = meshlib_prepare_part(&first_cut(), 6, &vec![1, 9, 0, 3, 1], ExactBooleanOperand::First, false);
    assert_eq!(part.remapped_cut_edge_paths, vec![vec![[0, 3]], vec![[1, 2], [2, 0]]]);
    assert_eq!(part.remapped_cut_edge_path_missing_edges, vec![1, 0]);
    assert_eq!(part.remapped_cut_edge_path_closed, vec![false, true]);
    assert!(!part.remapped_cut_edge_paths_complete);
    assert_eq!(
        part.missing_cut_path_edge_details,
        vec![MeshlibPreparedMissingCutEdge {
            path_index: 0,
            edge_index: 1,
            edge: [1, 4],
            prepared_adjacent_faces: Vec::new(),
            unprepared_adjacent_faces: vec![2],
        }]
    );
}

#[test]
fn missing_edge_detail_splits_adjacent_faces_by_copy() {
    let detail = missing_cut_path_edge_detail(
        &vec![[0, 1, 2], [1, 0, 3], [0, 1, 9]],
        4,
        &vec![Some(0), None, None],
        3,
        4,
        [1, 0],
    );
    assert_eq!(detail.path_index, 3);
    assert_eq!(detail.edge_index, 4);
    assert_eq!(detail.edge, [1, 0]);
    assert_eq!(detail.prepared_adjacent_faces, vec![0]);
    assert_eq!(detail.unprepared_adjacent_faces, vec![1]);
}

#[test]
fn mapped_cut_edge_reads_the_edge_map() {
    let entries = vec![([0, 1], [5, 6]), ([1, 0], [6, 5])];
    assert_eq!(mapped_cut_edge(&entries, [1, 0]), Some([6, 5]));
    assert_eq!(mapped_cut_edge(&entries, [1, 2]), None);
}

#[test]
fn contour_vertex_maps_follow_stitch_path_order() {
    let base = meshlib_prepare_part(&first_cut(), 6, &vec![1, 9, 0, 3, 1], ExactBooleanOperand::First, false);
    let second = cut(vec![[0, 1, 2]], Vec::new(), Vec::new());
    let incoming = meshlib_prepare_part(&second, 3, &vec![0], ExactBooleanOperand::Second, false);
    let pair = |first_edge_index, first_edge, second_edge_index, second_edge| ExactStitchEdgePair {
        first_edge_index,
        second_edge_index,
        first_edge,
        second_edge,
        second_reversed: false,
    };
    let plan = ExactStitchPlan {
        pairs: vec![pair(5, [0, 1], 7, [1, 0]), pair(6, [1, 4], 8, [2, 1]), pair(4, [2, 3], 9, [9, 9])],
        paths: vec![
            ExactStitchPath { pair_indices: vec![0, 1, 4], closed: false },
            ExactStitchPath { pair_indices: vec![2], closed: true },
        ],
        unmatched_first_edges: Vec::new(),
        unmatched_second_edges: Vec::new(),
        compatible: true,
    };
    let (maps, sources) = prepared_part_connect_contour_vertex_maps_from_stitch(
        &plan,
        ExactBooleanOperand::First,
        ExactBooleanOperand::Second,
        &base,
        &incoming,
    );
    assert_eq!(maps, vec![([1, 0], [0, 3])]);
    assert_eq!(sources, vec![Some(7)]);
}

#[test]
fn connect_parts_use_unfilled_prepared_faces() {
    let assembly = AssemblyTopology {
        vertex_count: 0,
        faces: Vec::new(),
        face_sources: Vec::new(),
        first_output_vertex_for_cut_vertex: Vec::new(),
        second_output_vertex_for_cut_vertex: Vec::new(),
        stitched_edge_sources: Vec::new(),
        stitched_edge_paths: Vec::new(),
        prepare_first_faces: vec![0, 1, 2],
        prepare_second_faces: vec![0],
    };
    let plan = meshlib_topology_rewrite_plan(&assembly, ExactBooleanOperation::Union);
    let second = cut(vec![[0, 1, 2]], Vec::new(), Vec::new());
    let parts = meshlib_prepare_connect_parts(
        &first_cut(),
        6,
        &second,
        3,
        &assembly,
        &vec![[2, 4]],
        &Vec::new(),
        false,
        true,
        &plan,
    );
    assert_eq!(parts.base_operand, plan.base_operand);
    assert_eq!(parts.incoming_operand, plan.incoming_operand);
    let (first, second) = if parts.base_operand == ExactBooleanOperand::First {
        (&parts.base, &parts.incoming)
    } else {
        (&parts.incoming, &parts.base)
    };
    assert_eq!(first.operand, ExactBooleanOperand::First);
    assert_eq!(first.faces, vec![[0, 1, 2], [0, 2, 3]]);
    assert_eq!(second.operand, ExactBooleanOperand::Second);
    assert_eq!(second.faces, vec![[0, 2, 1]]);
}

#[test]
fn self_and_connect_contour_maps_zip_paths() {
    let base = meshlib_prepare_part(&first_cut(), 6, &vec![1, 9, 0, 3, 1], ExactBooleanOperand::First, false);
    let incoming = meshlib_prepare_part(&first_cut(), 6, &vec![0], ExactBooleanOperand::Second, false);
    assert_eq!(incoming.remapped_cut_edge_paths, vec![vec![[0, 1]], Vec::new()]);
    assert_eq!(
        prepared_part_self_contour_vertex_maps(&first_cut(), &base),
        vec![([0, 1], [0, 3]), ([2, 3], [1, 2]), ([3, 0], [2, 0])]
    );
    assert_eq!(
        prepared_part_connect_contour_vertex_maps(&first_cut(), &base, &incoming),
        vec![([0, 1], [0, 3])]
    );
    let parts = MeshlibPreparedConnectParts {
        base_operand: ExactBooleanOperand::First,
        incoming_operand: ExactBooleanOperand::Second,
        base,
        incoming,
    };
    assert_eq!(prepared_connect_base_contour_vertex_maps(&first_cut(), &parts).len(), 3);
    let (maps, sources) = prepared_connect_incoming_contour_vertex_maps(&first_cut(), None, &parts);
    assert_eq!(maps, vec![([0, 1], [0, 3])]);
    assert_eq!(sources, vec![None, None, None, None]);
}

#[test]
fn part_faces_read_back_to_cut_faces() {
    let cut = first_cut();
    for flip in [false, true] {
        let part = meshlib_prepare_part(&cut, 6, &vec![1, 0], ExactBooleanOperand::First, flip);
        for (i, cut_face) in [1usize, 0].iter().enumerate() {
            let order = if flip { [0, 2, 1] } else { [0, 1, 2] };
            for k in 0..3 {
                let part_vertex = part.faces[i][k] as usize;
                assert_eq!(part.vertex_sources[part_vertex] as i64, cut.faces[*cut_face][order[k]]);
            }
        }
    }
}

#[test]
fn part_path_totals_account_for_every_cut_path_edge() {
    let cut = first_cut();
    let part = meshlib_prepare_part(&cut, 6, &vec![1, 9, 0, 3, 1], ExactBooleanOperand::First, false);
    assert_eq!(part.remapped_cut_edge_path_edges(), 3);
    assert_eq!(part.remapped_cut_edge_path_missing_edges(), 1);
    for (i, path) in cut.cut_edge_paths.iter().enumerate() {
        assert_eq!(part.remapped_cut_edge_paths[i].len() + part.remapped_cut_edge_path_missing_edges[i], path.len());
    }
}
