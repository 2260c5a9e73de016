use zennah_geometry_core::mesh::GeometryError;
use zennah_geometry_core::packed_export::packed_mesh_export;

#[test]
fn packed_export_keeps_used_vertices_in_first_use_order() {
    let packed = packed_mesh_export(6, &vec![[4, 2, 5], [2, 4, 0]], 0).unwrap().unwrap();
    assert_eq!(packed.vertex_sources, vec![4, 2, 5, 0]);
    assert_eq!(packed.faces, vec![[0, 1, 2], [1, 0, 3]]);
}

#[test]
fn packed_export_skips_failed_exports_and_refuses_bad_corners() {
    assert!(packed_mesh_export(6, &vec![[0, 1, 2]], 1).unwrap().is_none());
    assert_eq!(
        packed_mesh_export(6, &vec![[0, 7, 1]], 0).err(),
        Some(GeometryError::FaceIndexOutOfBounds { face: 0, vertex: 7, vertex_count: 6 })
    );
    assert_eq!(
        packed_mesh_export(6, &vec![[0, 1, 2], [-1, 9, 0]], 0).err(),
        Some(GeometryError::NegativeFaceIndex { face: 1, vertex: -1 })
    );
    let empty = packed_mesh_export(3, &Vec::new(), 0).unwrap().unwrap();
    assert!(empty.vertex_sources.is_empty());
    assert!(empty.faces.is_empty());
}

#[test]
fn packed_faces_read_back_to_the_source_faces() {
    let faces = vec![[5, 1, 3], [3, 1, 0], [0, 5, 2]];
    let packed = packed_mesh_export(6, &faces, 0).unwrap().unwrap();
    for (packed_face, face) in packed.faces.iter().zip(&faces) {
        for k in 0..3 {
            assert_eq!(packed.vertex_sources[packed_face[k] as usize] as i64, face[k]);
        }
    }
}
