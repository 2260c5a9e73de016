use zennah_geometry_core::exact_cut::{
    ExactCutFaceSourceEvent, ExactCutFaceSourceEventKind, ExactCutMeshRecords,
};
use zennah_geometry_core::source_cut2origin::{
    added_fill_plan_index, duplicate_source_records_after_prepared,
    fill_plan_matches_prefill_repair_record, inferred_original_source_face_count,
    meshlib_cut2origin_owner_remap_diagnostics, meshlib_cut2origin_owner_remapped_cut,
    meshlib_cut2origin_shadow_inventory, meshlib_prefill_repair_records, source_face_counts,
    ExactCutHoleFillPlan, ExactCutHoleFillResult, MeshlibPrefillRepairKind,
    MeshlibPrefillRepairRecord,
};

fn cut_fixture() -> ExactCutHoleFillResult {
    ExactCutHoleFillResult {
        mesh: ExactCutMeshRecords {
            faces: vec![[0, 1, 2], [0, 2, 3], [0, 1, 4], [1, 2, 4]],
            cut_edges: Vec::new(),
            cut_edge_paths: vec![vec![[0, 1]], vec![[1, 2], [2, 1]], vec![[2, 3]]],
            cut_edge_path_closed: vec![false, true, false],
            cut_edge_path_source_faces: vec![vec![Some(1)], vec![Some(3), Some(4)], vec![None]],
            collapsed_cut_segment_path_source_faces: Vec::new(),
            source_face_for_faces: vec![0, 0, 4, 4],
            cut_face_source_events: vec![
                ExactCutFaceSourceEvent {
                    kind: ExactCutFaceSourceEventKind::Original,
                    source_face: 0,
                },
                ExactCutFaceSourceEvent {
                    kind: ExactCutFaceSourceEventKind::Split,
                    source_face: 0,
                },
            ],
        },
        fill_plans: vec![ExactCutHoleFillPlan {
            representative_edge: [0, 1],
            boundary_edges: vec![[0, 1], [1, 2], [2, 3], [3, 0]],
            source_face: 4,
            source_face_for_faces: vec![4, 4],
            num_tris: 2,
        }],
        added_face_ranges: vec![[2, 4]],
    }
}

#[test]
fn meshlib_prefill_repair_records_track_open_edge_restoration_paths() {
    let cut = cut_fixture();
    let records = meshlib_prefill_repair_records(&cut);

    assert_eq!(
        records,
        vec![MeshlibPrefillRepairRecord {
            kind: MeshlibPrefillRepairKind::OpenEdgeRestoration,
            path_index: 0,
            source_face: 1,
        }]
    );
}

#[test]
fn meshlib_cut2origin_shadow_places_prefill_repair_before_final_fill() {
    let inventory = meshlib_cut2origin_shadow_inventory(&cut_fixture());

    assert_eq!(inventory.split_appended_source_face_sequence, vec![0]);
    assert_eq!(inventory.cut_event_source_face_sequence, vec![0, 0]);
    assert_eq!(inventory.split_event_source_face_sequence, vec![0]);
    assert_eq!(inventory.prefill_repair_source_face_sequence, vec![1]);
    assert_eq!(inventory.prefill_repair_record_details, vec![[0, 1]]);
    assert_eq!(inventory.open_edge_restoration_record_details, vec![[0, 1]]);
    assert!(inventory.orphan_repair_record_details.is_empty());
    assert_eq!(
        inventory.open_edge_restoration_source_face_sequence,
        vec![1]
    );
    assert!(inventory.orphan_repair_source_face_sequence.is_empty());
    assert_eq!(inventory.fill_appended_source_face_sequence, vec![4, 4]);
    assert_eq!(inventory.appended_source_face_sequence, vec![0, 1, 4, 4]);
    assert_eq!(
        inventory.appended_source_face_runs,
        vec![[0, 1], [1, 1], [4, 2]]
    );
    assert_eq!(
        inventory.source_face_sequence,
        vec![0, 1, 2, 3, 4, 0, 1, 4, 4]
    );
    assert_eq!(
        inventory.source_face_runs,
        vec![
            [0, 1],
            [1, 1],
            [2, 1],
            [3, 1],
            [4, 1],
            [0, 1],
            [1, 1],
            [4, 2],
        ]
    );
    assert_eq!(inventory.source_records, 9);
    assert_eq!(inventory.cut_event_source_records, 2);
    assert_eq!(inventory.split_event_source_records, 1);
    assert_eq!(inventory.prefill_repair_source_records, 1);
    assert_eq!(inventory.open_edge_restoration_source_records, 1);
    assert_eq!(inventory.orphan_repair_source_records, 0);
}

#[test]
fn meshlib_cut2origin_shadow_counts_collapsed_metadata_as_original_source_inventory() {
    let mut cut = cut_fixture();
    cut.mesh.collapsed_cut_segment_path_source_faces = vec![vec![Some(6)]];

    let inventory = meshlib_cut2origin_shadow_inventory(&cut);

    assert_eq!(inventory.unique_source_faces, 7);
    assert_eq!(inventory.source_records, 11);
    assert_eq!(
        inventory.source_face_sequence,
        vec![0, 1, 2, 3, 4, 5, 6, 0, 1, 4, 4]
    );
}

#[test]
fn meshlib_cut2origin_owner_remap_reports_target_lifecycle_mismatches() {
    let inventory = meshlib_cut2origin_shadow_inventory(&cut_fixture());

    let remap = meshlib_cut2origin_owner_remap_diagnostics(
        &inventory,
        &vec![vec![0, 1, 2, 3, 4, 4, 4, 1, 0]],
    );

    assert!(remap.ready);
    assert_eq!(remap.source_records, 9);
    assert_eq!(remap.matching_source_records, 5);
    assert_eq!(remap.mismatched_source_records, 4);
    assert_eq!(remap.missing_materialized_source_records, 0);
    assert_eq!(remap.extra_materialized_source_records, 0);
    assert_eq!(
        remap.mismatch_details,
        vec![[5, 0, 4], [6, 1, 4], [7, 4, 1], [8, 4, 0]]
    );
    assert_eq!(remap.appended_source_face_sequence, vec![4, 4, 1, 0]);
    assert_eq!(
        remap.source_face_counts,
        vec![[0, 2], [1, 2], [2, 1], [3, 1], [4, 3]]
    );
    assert_eq!(
        remap.appended_source_face_runs,
        vec![[4, 2], [1, 1], [0, 1]]
    );
}

#[test]
fn meshlib_cut2origin_owner_remapped_cut_updates_face_and_fill_plan_sources() {
    let cut = cut_fixture();

    let remapped = meshlib_cut2origin_owner_remapped_cut(&cut, &vec![vec![10, 11, 12, 13]])
        .expect("target source records match cut face records");

    assert_eq!(remapped.mesh.source_face_for_faces, vec![10, 11, 12, 13]);
    assert_eq!(remapped.fill_plans[0].source_face, 12);
    assert_eq!(remapped.fill_plans[0].source_face_for_faces, vec![12, 13]);
}

#[test]
fn owner_remap_without_wanted_sequence_is_not_ready() {
    let inventory = meshlib_cut2origin_shadow_inventory(&cut_fixture());
    let remap = meshlib_cut2origin_owner_remap_diagnostics(&inventory, &Vec::new());
    assert!(!remap.ready);
    assert_eq!(remap.source_records, 0);
    assert!(remap.mismatch_details.is_empty());
}

#[test]
fn owner_remap_reports_missing_and_extra_records() {
    let inventory = meshlib_cut2origin_shadow_inventory(&cut_fixture());
    let shorter = meshlib_cut2origin_owner_remap_diagnostics(&inventory, &vec![vec![0, 1, 2]]);
    assert!(!shorter.ready);
    assert_eq!(shorter.matching_source_records, 3);
    assert_eq!(shorter.extra_materialized_source_records, 6);
    assert_eq!(shorter.missing_materialized_source_records, 0);
    assert!(shorter.appended_source_face_sequence.is_empty());
    let longer = meshlib_cut2origin_owner_remap_diagnostics(
        &inventory,
        &vec![vec![0, 1, 2, 3, 4, 0, 1, 4, 4, 7]],
    );
    assert_eq!(longer.missing_materialized_source_records, 1);
    assert_eq!(longer.matching_source_records, 9);
    assert_eq!(longer.appended_source_face_sequence, vec![0, 1, 4, 4, 7]);
}

#[test]
fn owner_remapped_cut_refuses_mismatched_lengths_and_ranges() {
    let cut = cut_fixture();
    assert!(meshlib_cut2origin_owner_remapped_cut(&cut, &Vec::new()).is_none());
    assert!(meshlib_cut2origin_owner_remapped_cut(&cut, &vec![vec![1, 2, 3]]).is_none());
    let mut bad = cut_fixture();
    bad.added_face_ranges = vec![[3, 5]];
    assert!(meshlib_cut2origin_owner_remapped_cut(&bad, &vec![vec![1, 2, 3, 4]]).is_none());
}

#[test]
fn duplicate_records_keep_repeats_and_new_faces() {
    assert_eq!(duplicate_source_records_after_prepared(&vec![0, 2, 0, 5, 2, 1], 3), vec![0, 5, 2]);
    assert_eq!(duplicate_source_records_after_prepared(&vec![], 3), Vec::<usize>::new());
}

#[test]
fn source_face_counts_are_sorted_by_face() {
    assert_eq!(source_face_counts(&vec![4, 1, 4, 0, 1, 4]), vec![[0, 1], [1, 2], [4, 3]]);
    assert!(source_face_counts(&vec![]).is_empty());
}

#[test]
fn fill_plan_index_and_original_count() {
    let cut = cut_fixture();
    assert_eq!(added_fill_plan_index(1, &cut.added_face_ranges), None);
    assert_eq!(added_fill_plan_index(3, &cut.added_face_ranges), Some(0));
    assert_eq!(added_fill_plan_index(4, &cut.added_face_ranges), None);
    assert_eq!(inferred_original_source_face_count(&cut), 5);
}

#[test]
fn single_edge_fill_matches_open_edge_record() {
    let mut cut = cut_fixture();
    let record = MeshlibPrefillRepairRecord {
        kind: MeshlibPrefillRepairKind::OpenEdgeRestoration,
        path_index: 0,
        source_face: 1,
    };
    let plan = ExactCutHoleFillPlan {
        representative_edge: [0, 1],
        boundary_edges: vec![[0, 1]],
        source_face: 1,
        source_face_for_faces: vec![1],
        num_tris: 1,
    };
    assert!(fill_plan_matches_prefill_repair_record(&cut, &plan, &record));
    cut.fill_plans.push(plan);
    let inventory = meshlib_cut2origin_shadow_inventory(&cut);
    assert_eq!(inventory.fill_appended_source_face_sequence, vec![4, 4]);
    assert!(!fill_plan_matches_prefill_repair_record(&cut, &cut.fill_plans[0], &record));
}
