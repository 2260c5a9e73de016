//! Verified topology kernels for exact mesh boolean operations.
pub mod edge;
pub mod exact_classify;
pub mod mesh;
pub mod exact_contours;
pub mod exact_cut;
pub mod source_details;
pub mod stitch_pairs;
pub mod exact_boolean;
pub mod exact_boolean_topology;
pub mod source_cut2origin;
pub mod source_inventory;
pub mod copied_edges;
pub mod prepare_helpers;
pub mod rewrite_inputs;
pub mod prepared_parts;
pub mod meshlib_diagnostics;
pub mod splice_records;
pub mod result_cut_paths;
pub mod packed_export;
pub mod assembly;
