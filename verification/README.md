# zennah_geometry_core

Verified topology kernels for exact mesh booleans, written in Verus.

The library works on the integer side of a mesh boolean: triangle index
lists, cut edges and cut paths, face components, stitch pairs between the
cut edges of two operands, and the bookkeeping that maps cut faces, cut
vertices and cut edges into the assembled result and into each operand's
prepared part. Every function in `src/` carries a contract over Verus
sequences, sets and maps. Properties that relate several functions stand as
public proof functions (`lemma_*`): among them the round trip of the shadow
repair paths, the sign flip of the face count deltas when the count lists
are swapped, the disjointness of stitch paths and of contours, and the
contour record order being a reordering of the commands.

Layout:

- `src/edge.rs`, `src/mesh.rs`: ordered edges, sorted index sets, face
  validation.
- `src/exact_classify*`: components split at cut edges, the sides of the cut
  paths, orientation normalization of the sides, and the selection of the
  kept components.
- `src/exact_contours.rs`, `src/exact_cut.rs`: intersection records ordered
  into contours, and the topology of cut meshes.
- `src/stitch_pairs.rs`, `src/source_details.rs`, `src/source_inventory.rs`,
  `src/source_cut2origin.rs`: stitch paths and the source faces behind cut
  paths, fills and repaired faces.
- `src/exact_boolean.rs`, `src/exact_boolean_topology.rs`,
  `src/result_cut_paths.rs`: operation tables, stitched edge sources, the
  result's cut paths and the record rewrite plan.
- `src/prepare_helpers.rs`, `src/prepared_parts.rs`, `src/copied_edges.rs`,
  `src/rewrite_inputs.rs`, `src/meshlib_diagnostics.rs`,
  `src/splice_records.rs`: prepared parts of the operands and the inputs and
  records of the record rewrite.
- `src/assembly.rs`, `src/packed_export.rs`: the assembled result of two
  classified cut meshes, and the packed export of a prepared part.
- `app/`: the floating-point glue (sample points, coordinate lookups) that
  feeds the verified kernels.
- `tests/`: executable tests of the library.
