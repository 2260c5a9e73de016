//! Triangle index lists as they arrive, signed, and their checked form.
use vstd::prelude::*;

verus! {

/// Why a triangle index list was refused.
#[derive(Debug, Clone, Copy, PartialEq, Eq, Structural)]
pub enum GeometryError {
    /// A corner of face `face` names the negative vertex `vertex`.
    NegativeFaceIndex { face: usize, vertex: i64 },
    /// A corner of face `face` names `vertex`, past the last of the
    /// `vertex_count` vertices.
    FaceIndexOutOfBounds { face: usize, vertex: i64, vertex_count: usize },
}

/// Whether a signed corner names one of `vertex_count` vertices.
pub open spec fn corner_ok(vertex: i64, vertex_count: usize) -> bool {
    0 <= vertex < vertex_count
}

/// Whether every corner of `face` names one of `vertex_count` vertices.
pub open spec fn face_ok(face: [i64; 3], vertex_count: usize) -> bool {
    corner_ok(face[0], vertex_count) && corner_ok(face[1], vertex_count) && corner_ok(face[2], vertex_count)
}

/// The refusal of the first bad corner of `face`, face number `f`.
pub open spec fn corner_error(face: [i64; 3], f: usize, vertex_count: usize) -> GeometryError {
    let k = if !corner_ok(face[0], vertex_count) {
        0int
    } else if !corner_ok(face[1], vertex_count) {
        1int
    } else {
        2int
    };
    if face[k] < 0 {
        GeometryError::NegativeFaceIndex { face: f, vertex: face[k] }
    } else {
        GeometryError::FaceIndexOutOfBounds { face: f, vertex: face[k], vertex_count }
    }
}

/// Every corner names a vertex, and `faces` holds the same indices.
pub open spec fn checked_faces(faces_i64: Seq<[i64; 3]>, vertex_count: usize, faces: Seq<[usize; 3]>) -> bool {
    &&& forall|f: int| 0 <= f < faces_i64.len() ==> #[trigger] face_ok(faces_i64[f], vertex_count)
    &&& faces.len() == faces_i64.len()
    &&& forall|f: int, k: int| 0 <= f < faces.len() && 0 <= k < 3 ==> #[trigger] faces[f][k] == faces_i64[f][k]
}

/// `e` refuses the first face with a bad corner.
pub open spec fn first_face_error(faces_i64: Seq<[i64; 3]>, vertex_count: usize, e: GeometryError) -> bool {
    exists|f: int|
        0 <= f < faces_i64.len() && !face_ok(faces_i64[f], vertex_count) && (forall|g: int|
            0 <= g < f ==> #[trigger] face_ok(faces_i64[g], vertex_count)) && e == corner_error(
            faces_i64[f],
            f as usize,
            vertex_count,
        )
}

/// Checks a signed triangle list against the vertex count: the faces as
/// indices when every corner names a vertex, else the refusal of the first
/// bad corner, faces in order and corners in order.
pub fn validate_faces(faces_i64: &Vec<[i64; 3]>, vertex_count: usize) -> (out: Result<
    Vec<[usize; 3]>,
    GeometryError,
>)
    ensures
        match out {
            Ok(faces) => checked_faces(faces_i64@, vertex_count, faces@),
            Err(e) => first_face_error(faces_i64@, vertex_count, e),
        },
{
    let mut faces: Vec<[usize; 3]> = Vec::new();
    let mut f: usize = 0;
    while f < faces_i64.len()
        invariant
            f <= faces_i64@.len(),
            faces@.len() == f,
            forall|g: int| 0 <= g < f ==> #[trigger] face_ok(faces_i64@[g], vertex_count),
            forall|g: int, k: int| 0 <= g < f && 0 <= k < 3 ==> #[trigger] faces@[g][k] == faces_i64@[g][k],
        decreases faces_i64@.len() - f,
    {
        let face = faces_i64[f];
        let mut k: usize = 0;
        while k < 3
            invariant
                k <= 3,
                f < faces_i64@.len(),
                face == faces_i64@[f as int],
                forall|g: int| 0 <= g < f ==> #[trigger] face_ok(faces_i64@[g], vertex_count),
                forall|j: int| 0 <= j < k ==> corner_ok(#[trigger] face[j], vertex_count),
            decreases 3 - k,
        {
            let vertex = face[k];
            if vertex < 0 {
                let err = GeometryError::NegativeFaceIndex { face: f, vertex };
                assert(err == corner_error(face, f, vertex_count));
                assert(!face_ok(faces_i64@[f as int], vertex_count));
                return Err(err);
            }
            if vertex as u64 >= vertex_count as u64 {
                let err = GeometryError::FaceIndexOutOfBounds { face: f, vertex, vertex_count };
                assert(err == corner_error(face, f, vertex_count));
                assert(!face_ok(faces_i64@[f as int], vertex_count));
                return Err(err);
            }
            k += 1;
        }
        assert(face_ok(face, vertex_count));
        faces.push([face[0] as usize, face[1] as usize, face[2] as usize]);
        proof {
            assert forall|g: int, j: int| 0 <= g < f + 1 && 0 <= j < 3 implies #[trigger] faces@[g][j]
                == faces_i64@[g][j] by {
                if g == f {
                    assert(faces@[g] == [face[0] as usize, face[1] as usize, face[2] as usize]);
                }
            }
        }
        f += 1;
    }
    Ok(faces)
}

} // verus!
