use zennah_geometry_core::exact_boolean::{
    ExactBooleanOperand, ExactBooleanOperation, ExactBooleanOutputFaceSource,
    ExactBooleanStitchedEdgeSource,
};
use zennah_geometry_core::exact_boolean_topology::{
    meshlib_topology_rewrite_plan, AssemblyTopology, ExactMeshlibRecordRewriteCommand,
};
use zennah_geometry_core::stitch_pairs::ExactStitchPath;

fn ordered_edge(edge: [usize; 2]) -> [usize; 2] {
    if edge[0] <= edge[1] {
        edge
    } else {
        [edge[1], edge[0]]
    }
}

fn stitched_edge(first: [usize; 2], second: [usize; 2]) -> ExactBooleanStitchedEdgeSource {
    ExactBooleanStitchedEdgeSource {
        output_edge: ordered_edge(first),
        first_output_edge: Some(first),
        second_output_edge: Some(second),
        first_stitch_edge: Some(first),
        second_stitch_edge: Some(second),
        first_stitch_edge_synthetic: false,
        second_stitch_edge_synthetic: false,
        first_edge_index: 0,
        second_edge_index: 0,
        first_cut_edge: first,
        second_cut_edge: second,
    }
}

fn assembly_with_shared_contour() -> AssemblyTopology {
    AssemblyTopology {
        vertex_count: 4,
        faces: vec![[0, 1, 2], [2, 1, 3]],
        face_sources: vec![
            ExactBooleanOutputFaceSource {
                operand: ExactBooleanOperand::First,
                cut_face: 0,
                source_face: 0,
            },
            ExactBooleanOutputFaceSource {
                operand: ExactBooleanOperand::Second,
                cut_face: 0,
                source_face: 0,
            },
        ],
        first_output_vertex_for_cut_vertex: Vec::new(),
        second_output_vertex_for_cut_vertex: Vec::new(),
        stitched_edge_sources: vec![stitched_edge([1, 2], [2, 1])],
        stitched_edge_paths: Vec::new(),
        prepare_first_faces: vec![0],
        prepare_second_faces: vec![0],
    }
}

#[test]
fn meshlib_topology_rewrite_plan_uses_union_connect_order() {
    let plan = meshlib_topology_rewrite_plan(
        &assembly_with_shared_contour(),
        ExactBooleanOperation::Union,
    );

    assert_eq!(plan.base_operand, ExactBooleanOperand::First);
    assert_eq!(plan.incoming_operand, ExactBooleanOperand::Second);
    assert_eq!(plan.base_faces, 1);
    assert_eq!(plan.incoming_faces, 1);
    assert_eq!(plan.mapped_contour_edges, 1);
    assert_eq!(plan.missing_base_contour_edges, 0);
    assert_eq!(plan.missing_incoming_contour_edges, 0);
    assert_eq!(plan.contour_direction_mismatches, 0);
    assert_eq!(plan.mapped_stitch_contour_edges, 1);
    assert_eq!(plan.missing_stitch_contour_edges, 0);
    assert_eq!(plan.synthetic_stitch_contour_edges, 0);
    assert_eq!(plan.stitch_direction_mismatches, 0);
    assert!(plan.stitch_metadata_ready);
    assert_eq!(plan.materialized_stitch_contour_edges, 1);
    assert_eq!(plan.unmaterialized_stitch_contour_edges, 0);
    assert_eq!(plan.materialized_synthetic_stitch_sides, 0);
    assert_eq!(plan.stitch_materialization_direction_mismatches, 0);
    assert!(plan.stitch_materialization_ready);
    assert_eq!(plan.record_rewrite_commands, 1);
    assert_eq!(plan.record_rewrite_blocked_edges, 0);
    assert_eq!(plan.record_rewrite_synthetic_sides, 0);
    assert_eq!(plan.record_rewrite_direction_mismatches, 0);
    assert!(plan.record_rewrite_ready);
    assert_eq!(
        plan.record_rewrite_command_edges,
        vec![ExactMeshlibRecordRewriteCommand {
            stitch_pair_index: 0,
            this_operand: ExactBooleanOperand::First,
            from_operand: ExactBooleanOperand::Second,
            output_edge: [1, 2],
            this_contour_edge: [1, 2],
            from_contour_edge: [2, 1],
            this_source_edge_index: 0,
            from_source_edge_index: 0,
            this_source_edge: [1, 2],
            from_source_edge: [2, 1],
            this_side_synthetic: false,
            from_side_synthetic: false,
            synthetic_sides: 0,
        }]
    );
    assert_eq!(plan.open_stitch_paths, 0);
    assert_eq!(plan.open_stitch_near_edge_updates, 0);
    assert_eq!(plan.open_stitch_near_edge_blocked_updates, 0);
    assert!(plan.open_stitch_near_edge_ready);
    assert!(plan.ready_for_rewrite);
}

#[test]
fn meshlib_topology_rewrite_plan_uses_intersection_left_hole_order() {
    let plan = meshlib_topology_rewrite_plan(
        &assembly_with_shared_contour(),
        ExactBooleanOperation::Intersection,
    );

    assert_eq!(plan.base_operand, ExactBooleanOperand::Second);
    assert_eq!(plan.incoming_operand, ExactBooleanOperand::First);
    assert_eq!(plan.mapped_contour_edges, 1);
    assert_eq!(plan.mapped_stitch_contour_edges, 1);
    assert!(plan.stitch_metadata_ready);
    assert_eq!(plan.materialized_stitch_contour_edges, 1);
    assert!(plan.stitch_materialization_ready);
    assert_eq!(plan.record_rewrite_commands, 1);
    assert!(plan.record_rewrite_ready);
    assert_eq!(
        plan.record_rewrite_command_edges,
        vec![ExactMeshlibRecordRewriteCommand {
            stitch_pair_index: 0,
            this_operand: ExactBooleanOperand::Second,
            from_operand: ExactBooleanOperand::First,
            output_edge: [1, 2],
            this_contour_edge: [2, 1],
            from_contour_edge: [1, 2],
            this_source_edge_index: 0,
            from_source_edge_index: 0,
            this_source_edge: [2, 1],
            from_source_edge: [1, 2],
            this_side_synthetic: false,
            from_side_synthetic: false,
            synthetic_sides: 0,
        }]
    );
    assert!(plan.ready_for_rewrite);
}

#[test]
fn meshlib_topology_rewrite_plan_counts_prepare_part_faces() {
    let mut assembly = assembly_with_shared_contour();
    assembly.prepare_first_faces = vec![0, 1];
    assembly.prepare_second_faces = vec![0, 1, 2];

    let union = meshlib_topology_rewrite_plan(&assembly, ExactBooleanOperation::Union);
    assert_eq!(union.base_faces, 2);
    assert_eq!(union.incoming_faces, 3);

    let intersection =
        meshlib_topology_rewrite_plan(&assembly, ExactBooleanOperation::Intersection);
    assert_eq!(intersection.base_faces, 3);
    assert_eq!(intersection.incoming_faces, 2);
}

#[test]
fn meshlib_topology_rewrite_plan_blocks_same_direction_contours() {
    let mut assembly = assembly_with_shared_contour();
    assembly.faces[1] = [1, 2, 3];
    assembly.stitched_edge_sources = vec![stitched_edge([1, 2], [1, 2])];
    let plan = meshlib_topology_rewrite_plan(&assembly, ExactBooleanOperation::Union);

    assert_eq!(plan.mapped_contour_edges, 1);
    assert_eq!(plan.missing_incoming_contour_edges, 0);
    assert_eq!(plan.contour_direction_mismatches, 1);
    assert_eq!(plan.mapped_stitch_contour_edges, 1);
    assert_eq!(plan.stitch_direction_mismatches, 1);
    assert!(!plan.stitch_metadata_ready);
    assert_eq!(plan.materialized_stitch_contour_edges, 1);
    assert_eq!(plan.stitch_materialization_direction_mismatches, 1);
    assert!(!plan.stitch_materialization_ready);
    assert_eq!(plan.record_rewrite_commands, 1);
    assert_eq!(plan.record_rewrite_blocked_edges, 1);
    assert_eq!(plan.record_rewrite_direction_mismatches, 1);
    assert!(!plan.record_rewrite_ready);
    assert!(!plan.ready_for_rewrite);
}

#[test]
fn meshlib_topology_rewrite_plan_blocks_missing_non_synthetic_face_record() {
    let mut assembly = assembly_with_shared_contour();
    assembly.faces = vec![[0, 1, 2]];
    assembly.face_sources = vec![ExactBooleanOutputFaceSource {
        operand: ExactBooleanOperand::First,
        cut_face: 0,
        source_face: 0,
    }];

    let plan = meshlib_topology_rewrite_plan(&assembly, ExactBooleanOperation::Union);

    assert_eq!(plan.mapped_contour_edges, 0);
    assert_eq!(plan.missing_incoming_contour_edges, 1);
    assert_eq!(plan.mapped_stitch_contour_edges, 1);
    assert_eq!(plan.missing_stitch_contour_edges, 0);
    assert!(plan.stitch_metadata_ready);
    assert_eq!(plan.materialized_stitch_contour_edges, 0);
    assert_eq!(plan.unmaterialized_stitch_contour_edges, 1);
    assert!(!plan.stitch_materialization_ready);
    assert_eq!(plan.record_rewrite_commands, 0);
    assert_eq!(plan.record_rewrite_blocked_edges, 1);
    assert!(!plan.record_rewrite_ready);
    assert!(!plan.ready_for_rewrite);
}

#[test]
fn meshlib_topology_rewrite_plan_materializes_synthetic_face_record() {
    let mut assembly = assembly_with_shared_contour();
    assembly.faces = vec![[0, 1, 2]];
    assembly.face_sources = vec![ExactBooleanOutputFaceSource {
        operand: ExactBooleanOperand::First,
        cut_face: 0,
        source_face: 0,
    }];
    assembly.stitched_edge_sources[0].second_stitch_edge_synthetic = true;

    let plan = meshlib_topology_rewrite_plan(&assembly, ExactBooleanOperation::Union);

    assert_eq!(plan.mapped_contour_edges, 0);
    assert_eq!(plan.missing_incoming_contour_edges, 1);
    assert_eq!(plan.materialized_stitch_contour_edges, 1);
    assert_eq!(plan.unmaterialized_stitch_contour_edges, 0);
    assert_eq!(plan.materialized_synthetic_stitch_sides, 1);
    assert!(plan.stitch_materialization_ready);
    assert_eq!(plan.record_rewrite_commands, 1);
    assert_eq!(plan.record_rewrite_synthetic_sides, 1);
    assert!(plan.record_rewrite_ready);
    assert_eq!(
        plan.record_rewrite_command_edges,
        vec![ExactMeshlibRecordRewriteCommand {
            stitch_pair_index: 0,
            this_operand: ExactBooleanOperand::First,
            from_operand: ExactBooleanOperand::Second,
            output_edge: [1, 2],
            this_contour_edge: [1, 2],
            from_contour_edge: [2, 1],
            this_source_edge_index: 0,
            from_source_edge_index: 0,
            this_source_edge: [1, 2],
            from_source_edge: [2, 1],
            this_side_synthetic: false,
            from_side_synthetic: true,
            synthetic_sides: 1,
        }]
    );
    assert!(!plan.ready_for_rewrite);
}

#[test]
fn meshlib_topology_rewrite_plan_counts_open_contour_near_edge_updates() {
    let mut assembly = assembly_with_shared_contour();
    assembly.stitched_edge_paths = vec![ExactStitchPath {
        pair_indices: vec![0],
        closed: false,
    }];

    let plan = meshlib_topology_rewrite_plan(&assembly, ExactBooleanOperation::Union);

    assert_eq!(plan.open_stitch_paths, 1);
    assert_eq!(plan.open_stitch_near_edge_updates, 2);
    assert_eq!(plan.open_stitch_near_edge_blocked_updates, 0);
    assert!(plan.open_stitch_near_edge_ready);
    assert!(plan.record_rewrite_ready);
    assert!(plan.ready_for_rewrite);
}

#[test]
fn meshlib_topology_rewrite_plan_blocks_open_near_edge_updates_without_records() {
    let mut assembly = assembly_with_shared_contour();
    assembly.faces = vec![[0, 1, 2]];
    assembly.face_sources = vec![ExactBooleanOutputFaceSource {
        operand: ExactBooleanOperand::First,
        cut_face: 0,
        source_face: 0,
    }];
    assembly.stitched_edge_paths = vec![ExactStitchPath {
        pair_indices: vec![0],
        closed: false,
    }];

    let plan = meshlib_topology_rewrite_plan(&assembly, ExactBooleanOperation::Union);

    assert_eq!(plan.open_stitch_paths, 1);
    assert_eq!(plan.open_stitch_near_edge_updates, 0);
    assert_eq!(plan.open_stitch_near_edge_blocked_updates, 2);
    assert!(!plan.open_stitch_near_edge_ready);
    assert!(!plan.record_rewrite_ready);
    assert!(!plan.ready_for_rewrite);
}
