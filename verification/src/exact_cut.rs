//! What a cut point lies on, the faces around it, and the segments that
//! join the points of a cut contour.
use vstd::prelude::*;

use crate::edge::{face_has_directed, increasing, insert_sorted, spec_face_edges, spec_ordered};
use crate::exact_contours::walks_edge;

verus! {

/// The mesh element a cut point lies on.
#[derive(Debug, Clone, Copy, PartialEq, Eq)]
pub enum ExactCutPrimitive {
    Vertex(usize),
    Edge([usize; 2]),
    Face(usize),
}

/// A segment of a cut path between two cut points, with the source faces it
/// runs across.
#[derive(Debug, Clone, PartialEq, Eq)]
pub struct ExactCutPathSegment {
    pub contour_index: usize,
    pub from_point: usize,
    pub to_point: usize,
    pub source_faces: Vec<usize>,
}

/// Whether a face of the cut mesh is an original face or a piece of a split one.
#[derive(Debug, Clone, Copy, PartialEq, Eq, Structural)]
pub enum ExactCutFaceSourceEventKind {
    Original,
    Split,
}

/// How a face of the cut mesh came from a source face.
#[derive(Debug, Clone, Copy, PartialEq, Eq, Structural)]
pub struct ExactCutFaceSourceEvent {
    pub kind: ExactCutFaceSourceEventKind,
    pub source_face: usize,
}

/// The plain records of a cut mesh: its faces and cut edges, the cut paths
/// with the source faces they ran across, and the source face behind each
/// face of the cut mesh.
pub struct ExactCutMeshRecords {
    pub faces: Vec<[i64; 3]>,
    pub cut_edges: Vec<[usize; 2]>,
    pub cut_edge_paths: Vec<Vec<[usize; 2]>>,
    pub cut_edge_path_closed: Vec<bool>,
    pub cut_edge_path_source_faces: Vec<Vec<Option<usize>>>,
    pub collapsed_cut_segment_path_source_faces: Vec<Vec<Option<usize>>>,
    pub source_face_for_faces: Vec<usize>,
    pub cut_face_source_events: Vec<ExactCutFaceSourceEvent>,
}

/// The faces of a mesh, read for the faces around its vertices and edges.
pub struct CutTopology {
    pub faces: Vec<[usize; 3]>,
}

/// Whether `face` has `vertex` as a corner.
pub open spec fn face_has_vertex(face: [usize; 3], vertex: usize) -> bool {
    face[0] == vertex || face[1] == vertex || face[2] == vertex
}

/// Whether `face` has the undirected edge `edge`.
pub open spec fn face_has_undirected(face: [usize; 3], edge: [usize; 2]) -> bool {
    face_has_directed(face, edge) || face_has_directed(face, [edge[1], edge[0]])
}

/// Whether face `g` lies around the primitive.
pub open spec fn primitive_has_face(faces: Seq<[usize; 3]>, primitive: ExactCutPrimitive, g: usize) -> bool {
    match primitive {
        ExactCutPrimitive::Vertex(v) => g < faces.len() && face_has_vertex(faces[g as int], v),
        ExactCutPrimitive::Edge(e) => g < faces.len() && face_has_undirected(faces[g as int], e),
        ExactCutPrimitive::Face(f) => g == f,
    }
}

impl CutTopology {
    /// The topology of `faces`.
    pub fn new(faces: &Vec<[usize; 3]>) -> (out: Self)
        ensures
            out.faces@ == faces@,
    {
        let mut copy: Vec<[usize; 3]> = Vec::new();
        let mut i: usize = 0;
        while i < faces.len()
            invariant
                i <= faces@.len(),
                copy@ == faces@.subrange(0, i as int),
            decreases faces@.len() - i,
        {
            copy.push(faces[i]);
            i += 1;
            assert(copy@ =~= faces@.subrange(0, i as int));
        }
        assert(faces@.subrange(0, faces@.len() as int) =~= faces@);
        CutTopology { faces: copy }
    }

    /// The faces around a primitive, ascending: those with the vertex as a
    /// corner, those with the edge either way round, or the face itself.
    pub fn primitive_faces(&self, primitive: &ExactCutPrimitive) -> (out: Vec<usize>)
        ensures
            increasing(out@),
            forall|g: usize| out@.contains(g) <==> primitive_has_face(self.faces@, *primitive, g),
    {
        let mut out: Vec<usize> = Vec::new();
        match primitive {
            ExactCutPrimitive::Face(f) => {
                out.push(*f);
                proof {
                    assert forall|g: usize| out@.contains(g) <==> g == *f by {
                        if g == *f {
                            assert(out@[0] == g);
                        }
                    }
                }
                return out;
            },
            _ => {},
        }
        let mut g: usize = 0;
        while g < self.faces.len()
            invariant
                g <= self.faces@.len(),
                !(primitive is Face),
                increasing(out@),
                forall|x: usize| out@.contains(x) <==> (x < g && primitive_has_face(self.faces@, *primitive, x)),
            decreases self.faces@.len() - g,
        {
            let face = self.faces[g];
            let hit = match primitive {
                ExactCutPrimitive::Vertex(v) => face[0] == *v || face[1] == *v || face[2] == *v,
                ExactCutPrimitive::Edge(e) => walks_edge(face, *e) || walks_edge(face, [e[1], e[0]]),
                ExactCutPrimitive::Face(_) => false,
            };
            let ghost before = out@;
            if hit {
                insert_sorted(&mut out, g);
            }
            proof {
                assert forall|x: usize| out@.contains(x) <==> (x < g + 1 && primitive_has_face(self.faces@, *primitive, x)) by {
                    assert(out@.contains(x) <==> out@.to_set().contains(x));
                    assert(before.contains(x) <==> before.to_set().contains(x));
                }
            }
            g += 1;
        }
        out
    }
}

/// The segments joining consecutive contour points, and the last back to
/// the first when the contour is closed and has more than two points.
pub open spec fn spec_segment_pairs(point_ids: Seq<usize>, closed: bool) -> Seq<(usize, usize)> {
    if point_ids.len() < 2 {
        Seq::empty()
    } else {
        let open = Seq::new((point_ids.len() - 1) as nat, |i: int| (point_ids[i], point_ids[i + 1]));
        if closed && point_ids.len() > 2 {
            open.push((point_ids.last(), point_ids[0]))
        } else {
            open
        }
    }
}

/// The segments joining consecutive contour points, and the last back to
/// the first when the contour is closed and has more than two points.
pub fn contour_segment_pairs(point_ids: &Vec<usize>, closed: bool) -> (out: Vec<(usize, usize)>)
    ensures
        out@ == spec_segment_pairs(point_ids@, closed),
{
    let mut pairs: Vec<(usize, usize)> = Vec::new();
    if point_ids.len() < 2 {
        return pairs;
    }
    let mut i: usize = 0;
    let last = point_ids.len() - 1;
    while i < last
        invariant
            point_ids@.len() >= 2,
            last == point_ids@.len() - 1,
            i <= last,
            pairs@ =~= Seq::new(i as nat, |t: int| (point_ids@[t], point_ids@[t + 1])),
        decreases point_ids@.len() - i,
    {
        pairs.push((point_ids[i], point_ids[i + 1]));
        i += 1;
    }
    if closed && point_ids.len() > 2 {
        pairs.push((point_ids[point_ids.len() - 1], point_ids[0]));
    }
    pairs
}

/// The faces shared by the two primitives, ascending; when they share none,
/// the faces around either.
pub fn shared_source_faces(from: &ExactCutPrimitive, to: &ExactCutPrimitive, topology: &CutTopology) -> (out: Vec<usize>)
    ensures
        increasing(out@),
        (exists|g: usize| primitive_has_face(topology.faces@, *from, g) && primitive_has_face(topology.faces@, *to, g)) ==> forall|g: usize|
            out@.contains(g) <==> (primitive_has_face(topology.faces@, *from, g) && primitive_has_face(topology.faces@, *to, g)),
        !(exists|g: usize| primitive_has_face(topology.faces@, *from, g) && primitive_has_face(topology.faces@, *to, g)) ==> forall|g: usize|
            out@.contains(g) <==> (primitive_has_face(topology.faces@, *from, g) || primitive_has_face(topology.faces@, *to, g)),
{
    let from_faces = topology.primitive_faces(from);
    let to_faces = topology.primitive_faces(to);
    let mut shared: Vec<usize> = Vec::new();
    let mut i: usize = 0;
    while i < from_faces.len()
        invariant
            i <= from_faces@.len(),
            increasing(shared@),
            forall|g: usize| shared@.contains(g) <==> (from_faces@.subrange(0, i as int).contains(g) && to_faces@.contains(g)),
        decreases from_faces@.len() - i,
    {
        let g = from_faces[i];
        let ghost before = shared@;
        if crate::edge::contains_index(&to_faces, g) {
            insert_sorted(&mut shared, g);
        }
        proof {
            assert forall|x: usize| shared@.contains(x) <==> (from_faces@.subrange(0, i as int + 1).contains(x) && to_faces@.contains(x)) by {
                assert(shared@.contains(x) <==> shared@.to_set().contains(x));
                assert(before.contains(x) <==> before.to_set().contains(x));
                let s0 = from_faces@.subrange(0, i as int);
                let s1 = from_faces@.subrange(0, i as int + 1);
                if s1.contains(x) {
                    let t = choose|t: int| 0 <= t < s1.len() && s1[t] == x;
                    if t < i {
                        assert(s0[t] == x);
                    }
                }
                if s0.contains(x) {
                    let t = choose|t: int| 0 <= t < s0.len() && s0[t] == x;
                    assert(s1[t] == x);
                }
                if x == g {
                    assert(s1[i as int] == x);
                }
            }
        }
        i += 1;
    }
    assert(from_faces@.subrange(0, from_faces@.len() as int) =~= from_faces@);
    if shared.len() > 0 {
        assert(shared@.contains(shared@[0]));
        return shared;
    }
    let mut union = from_faces;
    crate::edge::extend_sorted(&mut union, &to_faces);
    proof {
        assert forall|g: usize| !(primitive_has_face(topology.faces@, *from, g) && primitive_has_face(topology.faces@, *to, g)) by {
            if from_faces@.contains(g) && to_faces@.contains(g) {
                assert(shared@.contains(g));
            }
        }
    }
    union
}

/// An undirected edge as an ordered pair of its ends.
pub fn edge_key(edge: [usize; 2]) -> (out: (usize, usize))
    ensures
        out == (spec_ordered(edge)[0], spec_ordered(edge)[1]),
{
    let edge = crate::edge::ordered_edge(edge);
    (edge[0], edge[1])
}

} // verus!
