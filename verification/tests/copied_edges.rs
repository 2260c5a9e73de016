use zennah_geometry_core::copied_edges::{
    contour_vertex_map_source_indices, contour_vertex_maps, copied_vertex_map,
    exact_meshlib_copied_edge_plan, mapped_incoming_edges, meshlib_target_contour_edge,
    output_edge_for_cut_edge, prepared_region_edges, prepared_region_vertices,
    record_commands_in_meshlib_contour_order, set_copied_vertex,
};
use zennah_geometry_core::exact_boolean::{
    ExactBooleanOperand, ExactBooleanOutputFaceSource, ExactBooleanStitchedEdgeSource,
};
use zennah_geometry_core::exact_boolean_topology::{AssemblyTopology, ExactMeshlibRecordRewriteCommand};
use zennah_geometry_core::exact_cut::ExactCutMeshRecords;
use zennah_geometry_core::stitch_pairs::ExactStitchPath;

fn cut_mesh() -> ExactCutMeshRecords {
    ExactCutMeshRecords {
        faces: vec![[0, 1, 2], [2, 1, 3]],
        cut_edges: Vec::new(),
        cut_edge_paths: Vec::new(),
        cut_edge_path_closed: Vec::new(),
        cut_edge_path_source_faces: Vec::new(),
        collapsed_cut_segment_path_source_faces: Vec::new(),
        source_face_for_faces: vec![0, 1],
        cut_face_source_events: Vec::new(),
    }
}

fn assembly() -> AssemblyTopology {
    AssemblyTopology {
        vertex_count: 4,
        faces: vec![[0, 1, 2], [2, 1, 3]],
        face_sources: vec![
            ExactBooleanOutputFaceSource {
                operand: ExactBooleanOperand::First,
                cut_face: 0,
                source_face: 0,
            },
            ExactBooleanOutputFaceSource {
                operand: ExactBooleanOperand::Second,
                cut_face: 1,
                source_face: 1,
            },
        ],
        first_output_vertex_for_cut_vertex: vec![Some(0), Some(1), Some(2), None],
        second_output_vertex_for_cut_vertex: vec![None, Some(1), Some(2), Some(3)],
        stitched_edge_sources: vec![ExactBooleanStitchedEdgeSource {
            output_edge: [1, 2],
            first_output_edge: Some([1, 2]),
            second_output_edge: Some([2, 1]),
            first_stitch_edge: Some([1, 2]),
            second_stitch_edge: Some([2, 1]),
            first_stitch_edge_synthetic: false,
            second_stitch_edge_synthetic: false,
            first_edge_index: 0,
            second_edge_index: 0,
            first_cut_edge: [1, 2],
            second_cut_edge: [2, 1],
        }],
        stitched_edge_paths: Vec::new(),
        prepare_first_faces: vec![0],
        prepare_second_faces: vec![1],
    }
}

fn command(pair: usize, this_edge: [usize; 2], synthetic: bool) -> ExactMeshlibRecordRewriteCommand {
    ExactMeshlibRecordRewriteCommand {
        stitch_pair_index: pair,
        this_operand: ExactBooleanOperand::First,
        from_operand: ExactBooleanOperand::Second,
        output_edge: this_edge,
        this_contour_edge: this_edge,
        from_contour_edge: [this_edge[1], this_edge[0]],
        this_source_edge_index: pair,
        from_source_edge_index: pair,
        this_source_edge: this_edge,
        from_source_edge: [this_edge[1], this_edge[0]],
        this_side_synthetic: synthetic,
        from_side_synthetic: false,
        synthetic_sides: 0,
    }
}

#[test]
fn copied_edge_plan_subtracts_mapped_incoming_edges() {
    let first = cut_mesh();
    let second = cut_mesh();
    let assembly = assembly();
    let command = ExactMeshlibRecordRewriteCommand {
        stitch_pair_index: 0,
        this_operand: ExactBooleanOperand::First,
        from_operand: ExactBooleanOperand::Second,
        output_edge: [1, 2],
        this_contour_edge: [1, 2],
        from_contour_edge: [2, 1],
        this_source_edge_index: 0,
        from_source_edge_index: 0,
        this_source_edge: [1, 2],
        from_source_edge: [2, 1],
        this_side_synthetic: false,
        from_side_synthetic: false,
        synthetic_sides: 0,
    };

    let plan = exact_meshlib_copied_edge_plan(
        &first,
        &second,
        &assembly,
        ExactBooleanOperand::Second,
        &vec![command],
    );

    assert_eq!(plan.prepared_faces, 1);
    assert_eq!(plan.prepared_vertices, 3);
    assert_eq!(plan.virtual_copied_vertices, 0);
    assert_eq!(plan.prepared_edges, 3);
    assert_eq!(plan.mapped_edges, 1);
    assert_eq!(plan.copied_edges, 2);
    assert_eq!(plan.copied_edges_mapped_to_existing_output, 2);
    assert_eq!(plan.copied_edges_mapped_to_output, 2);
    assert_eq!(plan.copied_edges_missing_output_vertices, 0);
    assert!(plan.ready_for_record_translation());
}

#[test]
fn contour_vertex_maps_seed_this_and_from_operands() {
    let assembly = assembly();
    let command = ExactMeshlibRecordRewriteCommand {
        stitch_pair_index: 0,
        this_operand: ExactBooleanOperand::First,
        from_operand: ExactBooleanOperand::Second,
        output_edge: [1, 2],
        this_contour_edge: [1, 2],
        from_contour_edge: [2, 1],
        this_source_edge_index: 0,
        from_source_edge_index: 0,
        this_source_edge: [1, 2],
        from_source_edge: [2, 1],
        this_side_synthetic: false,
        from_side_synthetic: false,
        synthetic_sides: 0,
    };

    assert_eq!(
        contour_vertex_maps(&assembly, ExactBooleanOperand::First, &vec![command]),
        vec![([1, 2], [1, 2])]
    );
    assert_eq!(
        contour_vertex_maps(&assembly, ExactBooleanOperand::Second, &vec![command]),
        vec![([2, 1], [2, 1])]
    );
}

#[test]
fn contour_vertex_maps_follow_meshlib_path_pair_order() {
    let mut assembly = assembly();
    assembly
        .stitched_edge_sources
        .push(ExactBooleanStitchedEdgeSource {
            output_edge: [0, 3],
            first_output_edge: Some([0, 3]),
            second_output_edge: Some([3, 0]),
            first_stitch_edge: Some([0, 3]),
            second_stitch_edge: Some([3, 0]),
            first_stitch_edge_synthetic: false,
            second_stitch_edge_synthetic: false,
            first_edge_index: 1,
            second_edge_index: 1,
            first_cut_edge: [0, 3],
            second_cut_edge: [3, 0],
        });
    assembly.stitched_edge_paths = vec![ExactStitchPath {
        pair_indices: vec![1, 0],
        closed: false,
    }];
    let commands = vec![
        ExactMeshlibRecordRewriteCommand {
            stitch_pair_index: 0,
            this_operand: ExactBooleanOperand::First,
            from_operand: ExactBooleanOperand::Second,
            output_edge: [1, 2],
            this_contour_edge: [1, 2],
            from_contour_edge: [2, 1],
            this_source_edge_index: 0,
            from_source_edge_index: 0,
            this_source_edge: [1, 2],
            from_source_edge: [2, 1],
            this_side_synthetic: false,
            from_side_synthetic: false,
            synthetic_sides: 0,
        },
        ExactMeshlibRecordRewriteCommand {
            stitch_pair_index: 1,
            this_operand: ExactBooleanOperand::First,
            from_operand: ExactBooleanOperand::Second,
            output_edge: [0, 3],
            this_contour_edge: [0, 3],
            from_contour_edge: [3, 0],
            this_source_edge_index: 1,
            from_source_edge_index: 1,
            this_source_edge: [0, 3],
            from_source_edge: [3, 0],
            this_side_synthetic: false,
            from_side_synthetic: false,
            synthetic_sides: 0,
        },
    ];

    assert_eq!(
        contour_vertex_maps(&assembly, ExactBooleanOperand::Second, &commands),
        vec![([3, 0], [3, 0]), ([2, 1], [2, 1])]
    );
    assert_eq!(
        contour_vertex_map_source_indices(&assembly, ExactBooleanOperand::Second, &commands),
        vec![Some(1), Some(0)]
    );
}

#[test]
fn target_contour_edge_reverses_unless_synthetic() {
    assert_eq!(meshlib_target_contour_edge(&command(0, [1, 2], false)), [2, 1]);
    assert_eq!(meshlib_target_contour_edge(&command(0, [1, 2], true)), [1, 2]);
}

#[test]
fn set_copied_vertex_grows_and_keeps_existing() {
    let mut map = vec![Some(5)];
    set_copied_vertex(&mut map, 3, 9);
    assert_eq!(map, vec![Some(5), None, None, Some(9)]);
    set_copied_vertex(&mut map, 0, 7);
    assert_eq!(map[0], Some(5));
}

#[test]
fn output_edge_needs_both_vertices() {
    let map = vec![Some(4), None, Some(6)];
    assert_eq!(output_edge_for_cut_edge([0, 2], &map), Some([4, 6]));
    assert_eq!(output_edge_for_cut_edge([0, 1], &map), None);
    assert_eq!(output_edge_for_cut_edge([0, 9], &map), None);
}

#[test]
fn copied_vertex_map_numbers_prepared_vertices_after_seeds() {
    let map = copied_vertex_map(&vec![None, Some(1)], &vec![0, 1, 3], 10, &vec![([4, 0], [7, 8])]);
    assert_eq!(map, vec![Some(8), Some(1), None, Some(10), Some(7)]);
}

#[test]
fn region_vertices_and_edges_are_sorted_sets() {
    let faces = vec![[0, 1, 2], [2, 1, 3]];
    assert_eq!(prepared_region_vertices(&faces, &vec![1, 0, 7]), vec![0, 1, 2, 3]);
    assert_eq!(
        prepared_region_edges(&faces, &vec![1]),
        vec![[1, 2], [1, 3], [2, 3]]
    );
}

#[test]
fn contour_order_puts_unpathed_commands_last() {
    let mut assembly = assembly();
    assembly.stitched_edge_paths = vec![ExactStitchPath {
        pair_indices: vec![2, 0, 2],
        closed: false,
    }];
    let commands = vec![command(0, [1, 2], false), command(1, [0, 3], false), command(2, [3, 0], false)];
    let ordered = record_commands_in_meshlib_contour_order(&assembly, &commands);
    let pairs: Vec<usize> = ordered.iter().map(|c| c.stitch_pair_index).collect();
    assert_eq!(pairs, vec![2, 0, 1]);
    assert_eq!(
        mapped_incoming_edges(&assembly, ExactBooleanOperand::Second, &commands),
        vec![[1, 2]]
    );
}

#[test]
fn copied_edge_plan_counts_virtual_vertices() {
    let first = cut_mesh();
    let second = cut_mesh();
    let mut assembly = assembly();
    assembly.second_output_vertex_for_cut_vertex = vec![None, Some(1), None, None];
    let plan = exact_meshlib_copied_edge_plan(
        &first,
        &second,
        &assembly,
        ExactBooleanOperand::Second,
        &Vec::new(),
    );
    assert_eq!(plan.prepared_vertices, 3);
    assert_eq!(plan.virtual_copied_vertices, 2);
    assert_eq!(plan.copied_edges, 3);
    assert_eq!(plan.copied_edges_mapped_to_existing_output, 0);
    assert_eq!(plan.copied_edges_mapped_to_output, 3);
    assert!(plan.ready_for_record_translation());
}
