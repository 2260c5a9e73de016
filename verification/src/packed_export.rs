//! Packing an exported mesh: only the vertices its faces use, numbered in
//! the order the faces first use them.
use vstd::prelude::*;

use crate::mesh::{checked_faces, first_face_error, validate_faces, GeometryError};
use crate::prepared_parts::{corners, first_seen, nones, number_vertex, part_face, vertex_map_ok};

verus! {

/// A packed mesh: the source vertex behind each packed vertex, and the
/// faces over the packed vertices.
pub struct PackedMeshExport {
    pub vertex_sources: Vec<usize>,
    pub faces: Vec<[i64; 3]>,
}

/// The face indices `0..n`.
pub open spec fn all_faces(n: int) -> Seq<usize> {
    Seq::new(if n < 0 { 0 } else { n as nat }, |i: int| i as usize)
}

/// `packed` keeps the vertices that `faces` use, in the order the faces
/// first use them, and renumbers the faces to match.
pub open spec fn packed_ok(faces: Seq<[i64; 3]>, vertex_count: usize, packed: PackedMeshExport) -> bool {
    exists|numbers: Seq<Option<usize>>|
        {
            &&& vertex_map_ok(packed.vertex_sources@, numbers, vertex_count, corners(faces, all_faces(faces.len() as int)))
            &&& packed.faces@.len() == faces.len()
            &&& forall|i: int| 0 <= i < faces.len() ==> #[trigger] packed.faces@[i] == part_face(numbers, faces[i], false)
        }
}

/// The mesh packed for export: nothing when some face failed to export, the
/// first bad corner when a face names no vertex, else the used vertices
/// numbered at their first use and the faces renumbered.
pub fn packed_mesh_export(vertex_count: usize, faces: &Vec<[i64; 3]>, failed_faces: usize) -> (out: Result<
    Option<PackedMeshExport>,
    GeometryError,
>)
    ensures
        failed_faces > 0 ==> out matches Ok(None),
        failed_faces == 0 ==> match out {
            Err(e) => first_face_error(faces@, vertex_count, e),
            Ok(None) => false,
            Ok(Some(packed)) => (exists|checked: Seq<[usize; 3]>| checked_faces(faces@, vertex_count, checked)) && packed_ok(
                faces@,
                vertex_count,
                packed,
            ),
        },
{
    if failed_faces > 0 {
        return Ok(None);
    }
    let checked = match validate_faces(faces, vertex_count) {
        Ok(checked) => checked,
        Err(e) => {
            return Err(e);
        },
    };
    let ghost all = all_faces(faces@.len() as int);
    let mut sources: Vec<usize> = Vec::new();
    let mut numbers = nones(vertex_count);
    let mut packed: Vec<[i64; 3]> = Vec::new();
    proof {
        assert(first_seen(Seq::<usize>::empty()) =~= Seq::<usize>::empty());
        assert(corners(faces@, all.take(0)) =~= Seq::<usize>::empty());
    }
    let mut f: usize = 0;
    while f < checked.len()
        invariant
            checked_faces(faces@, vertex_count, checked@),
            all == all_faces(faces@.len() as int),
            f <= checked@.len(),
            vertex_map_ok(sources@, numbers@, vertex_count, corners(faces@, all.take(f as int))),
            packed@.len() == f,
            forall|i: int| 0 <= i < f ==> #[trigger] packed@[i] == part_face(numbers@, faces@[i], false),
        decreases checked.len() - f,
    {
        let face = checked[f];
        let ghost seen = corners(faces@, all.take(f as int));
        let ghost before = numbers@;
        let ghost packed_before = packed@;
        proof {
            assert(face_ok_at(faces@, vertex_count, f as int));
            assert(all.take(f as int + 1).drop_last() =~= all.take(f as int));
            assert(all.take(f as int + 1).last() == f);
            crate::prepared_parts::lemma_corners_at(faces@, all.take(f as int));
        }
        let a = number_vertex(&mut sources, &mut numbers, face[0], Ghost(seen), Ghost(vertex_count));
        let b = number_vertex(&mut sources, &mut numbers, face[1], Ghost(seen.push(face[0])), Ghost(vertex_count));
        let c = number_vertex(&mut sources, &mut numbers, face[2], Ghost(seen.push(face[0]).push(face[1])), Ghost(vertex_count));
        packed.push([a as i64, b as i64, c as i64]);
        proof {
            assert(corners(faces@, all.take(f as int + 1)) =~= seen.push(face[0]).push(face[1]).push(face[2]));
            assert forall|i: int| 0 <= i < f + 1 implies #[trigger] packed@[i] == part_face(numbers@, faces@[i], false) by {
                if i < f {
                    let g = faces@[i];
                    assert(all.take(f as int)[i] == i as usize);
                    assert(seen[3 * i + 0] == g[0] as usize);
                    assert(seen[3 * i + 1] == g[1] as usize);
                    assert(seen[3 * i + 2] == g[2] as usize);
                    assert(seen.contains(g[0] as usize));
                    assert(seen.contains(g[1] as usize));
                    assert(seen.contains(g[2] as usize));
                    assert(face_ok_at(faces@, vertex_count, i));
                    assert(packed_before[i] == part_face(before, g, false));
                }
            }
        }
        f += 1;
    }
    proof {
        assert(all.take(faces@.len() as int) =~= all);
    }
    let result = PackedMeshExport { vertex_sources: sources, faces: packed };
    proof {
        assert(vertex_map_ok(result.vertex_sources@, numbers@, vertex_count, corners(faces@, all_faces(faces@.len() as int))));
        assert(forall|i: int| 0 <= i < faces@.len() ==> #[trigger] result.faces@[i] == part_face(numbers@, faces@[i], false));
        assert(packed_ok(faces@, vertex_count, result));
    }
    Ok(Some(result))
}

/// Face `f` names only vertices below `vertex_count`.
pub open spec fn face_ok_at(faces: Seq<[i64; 3]>, vertex_count: usize, f: int) -> bool {
    crate::mesh::face_ok(faces[f], vertex_count)
}

/// A list of distinct vertices below `n` has at most `n` entries.
pub(crate) proof fn lemma_distinct_below(s: Seq<usize>, n: usize)
    requires
        s.no_duplicates(),
        forall|k: int| 0 <= k < s.len() ==> #[trigger] s[k] < n,
    ensures
        s.len() <= n,
{
    s.unique_seq_to_set();
    let f = |x: usize| x as int;
    let image = s.to_set().map(f);
    assert(vstd::relations::injective_on(f, s.to_set()));
    vstd::set_lib::lemma_map_size(s.to_set(), image, f);
    vstd::set_lib::lemma_int_range(0, n as int);
    assert forall|x: int| image.contains(x) implies vstd::set_lib::set_int_range(0, n as int).contains(x) by {
        let y = choose|y: usize| s.to_set().contains(y) && f(y) == x;
        let k = choose|k: int| 0 <= k < s.len() && s[k] == y;
    }
    vstd::set_lib::lemma_len_subset(image, vstd::set_lib::set_int_range(0, n as int));
}

/// Packing renumbers and nothing more: each corner of a packed face names
/// the packed vertex whose source is the original corner.
pub proof fn lemma_packed_faces_unpack(faces: Seq<[i64; 3]>, vertex_count: usize, packed: PackedMeshExport)
    requires
        forall|f: int| 0 <= f < faces.len() ==> #[trigger] crate::mesh::face_ok(faces[f], vertex_count),
        faces.len() <= usize::MAX,
        vertex_count <= i64::MAX,
        packed_ok(faces, vertex_count, packed),
    ensures
        forall|i: int, k: int|
            0 <= i < faces.len() && 0 <= k < 3 ==> 0 <= #[trigger] packed.faces@[i][k] < packed.vertex_sources@.len()
                && packed.vertex_sources@[packed.faces@[i][k] as int] == faces[i][k] as usize,
{
    let numbers = choose|numbers: Seq<Option<usize>>|
        {
            &&& vertex_map_ok(packed.vertex_sources@, numbers, vertex_count, corners(faces, all_faces(faces.len() as int)))
            &&& packed.faces@.len() == faces.len()
            &&& forall|i: int| 0 <= i < faces.len() ==> #[trigger] packed.faces@[i] == part_face(numbers, faces[i], false)
        };
    let sources = packed.vertex_sources@;
    let all = all_faces(faces.len() as int);
    let seen = corners(faces, all);
    crate::prepared_parts::lemma_first_seen_distinct(seen);
    lemma_distinct_below(sources, vertex_count);
    crate::prepared_parts::lemma_corners_at(faces, all);
    assert forall|i: int, k: int|
        0 <= i < faces.len() && 0 <= k < 3 implies 0 <= #[trigger] packed.faces@[i][k] < sources.len()
            && sources[packed.faces@[i][k] as int] == faces[i][k] as usize by {
        let c = faces[i][k] as usize;
        assert(all[i] == i as usize);
        assert(seen[3 * i + k] == faces[all[i] as int][k] as usize);
        assert(seen[3 * i + k] == c);
        assert(seen.contains(c));
        assert(crate::mesh::face_ok(faces[i], vertex_count));
        assert(c < vertex_count);
        assert(numbers[c as int] is Some);
        let m = numbers[c as int]->0;
        assert(m < sources.len() && sources[m as int] == c);
        if k == 0 {
            assert(packed.faces@[i][0] == m as i64);
        } else if k == 1 {
            assert(packed.faces@[i][1] == m as i64);
        } else {
            assert(packed.faces@[i][2] == m as i64);
        }
    }
}

} // verus!
