//! Chaining the edge-triangle crossings of two meshes into contours.
use vstd::prelude::*;

use crate::edge::{face_has_directed, spec_face_edges, spec_reverse};

verus! {

/// Which of the two meshes a triangle or an edge belongs to.
#[derive(Debug, Clone, Copy, PartialEq, Eq, Structural)]
pub enum ExactTriangleOwner {
    First,
    Second,
}

/// A directed edge of a mesh, with the last face that walks it (its left
/// face) and the last face that walks it the other way (its right face).
#[derive(Debug, Clone, Copy, PartialEq, Eq, Structural)]
pub struct DirectedEdge {
    pub from: usize,
    pub to: usize,
    pub left_face: Option<usize>,
    pub right_face: Option<usize>,
}

/// The last face of `faces` that walks `e`.
pub open spec fn last_walker(faces: Seq<[usize; 3]>, e: [usize; 2]) -> Option<usize>
    decreases faces.len(),
{
    if faces.len() == 0 {
        None
    } else if face_has_directed(faces.last(), e) {
        Some((faces.len() - 1) as usize)
    } else {
        last_walker(faces.drop_last(), e)
    }
}

/// The directed edge `e` of the mesh `faces`, when some face walks it either way.
pub open spec fn topo_edge(faces: Seq<[usize; 3]>, e: [usize; 2]) -> Option<DirectedEdge> {
    let left = last_walker(faces, e);
    let right = last_walker(faces, spec_reverse(e));
    if left is None && right is None {
        None
    } else {
        Some(DirectedEdge { from: e[0], to: e[1], left_face: left, right_face: right })
    }
}

/// The first corner of `face` that is neither `a` nor `b`.
pub open spec fn spec_third_vertex(face: [usize; 3], a: usize, b: usize) -> Option<usize> {
    if face[0] != a && face[0] != b {
        Some(face[0])
    } else if face[1] != a && face[1] != b {
        Some(face[1])
    } else if face[2] != a && face[2] != b {
        Some(face[2])
    } else {
        None
    }
}

/// A last walker is a face of the mesh that walks the edge.
pub proof fn lemma_last_walker(faces: Seq<[usize; 3]>, e: [usize; 2])
    requires
        faces.len() <= usize::MAX,
    ensures
        last_walker(faces, e) matches Some(g) ==> g < faces.len() && face_has_directed(faces[g as int], e),
        last_walker(faces, e) is None ==> forall|g: int| 0 <= g < faces.len() ==> !face_has_directed(faces[g], e),
    decreases faces.len(),
{
    if faces.len() > 0 {
        lemma_last_walker(faces.drop_last(), e);
        if !face_has_directed(faces.last(), e) {
            assert forall|g: int| 0 <= g < faces.len() - 1 implies faces[g] == faces.drop_last()[g] by {}
        }
    }
}

/// Whether `face` walks `e`.
pub fn walks_edge(face: [usize; 3], e: [usize; 2]) -> (out: bool)
    ensures
        out == face_has_directed(face, e),
{
    let same0 = face[0] == e[0] && face[1] == e[1];
    let same1 = face[1] == e[0] && face[2] == e[1];
    let same2 = face[2] == e[0] && face[0] == e[1];
    proof {
        let es = spec_face_edges(face);
        assert(same0 == (es[0] == e)) by {
            if same0 {
                assert(es[0] =~= e);
            }
        }
        assert(same1 == (es[1] == e)) by {
            if same1 {
                assert(es[1] =~= e);
            }
        }
        assert(same2 == (es[2] == e)) by {
            if same2 {
                assert(es[2] =~= e);
            }
        }
    }
    same0 || same1 || same2
}

/// The last face of `faces` that walks `e`.
pub fn last_walker_of(faces: &Vec<[usize; 3]>, e: [usize; 2]) -> (out: Option<usize>)
    ensures
        out == last_walker(faces@, e),
{
    let mut g: usize = faces.len();
    assert(faces@.subrange(0, g as int) =~= faces@);
    while g > 0
        invariant
            g <= faces@.len(),
            last_walker(faces@, e) == last_walker(faces@.subrange(0, g as int), e),
        decreases g,
    {
        let ghost prefix = faces@.subrange(0, g as int);
        assert(prefix.drop_last() =~= faces@.subrange(0, g - 1));
        assert(prefix.last() == faces@[g - 1]);
        if walks_edge(faces[g - 1], e) {
            return Some(g - 1);
        }
        g -= 1;
    }
    assert(faces@.subrange(0, 0) =~= Seq::<[usize; 3]>::empty());
    None
}

/// The first corner of `face` that is neither `first` nor `second`.
pub fn third_vertex(face: [usize; 3], first: usize, second: usize) -> (out: Option<usize>)
    ensures
        out == spec_third_vertex(face, first, second),
{
    if face[0] != first && face[0] != second {
        Some(face[0])
    } else if face[1] != first && face[1] != second {
        Some(face[1])
    } else if face[2] != first && face[2] != second {
        Some(face[2])
    } else {
        None
    }
}

/// The faces of a mesh, read as directed edges with their left and right faces.
pub struct MeshTopologyLite {
    pub faces: Vec<[usize; 3]>,
}

/// The edge after `edge` around its left face: from the same start to the
/// third corner of that face.
pub open spec fn spec_next(faces: Seq<[usize; 3]>, edge: DirectedEdge) -> Option<DirectedEdge> {
    match edge.left_face {
        None => None,
        Some(g) => match spec_third_vertex(faces[g as int], edge.from, edge.to) {
            None => None,
            Some(v) => topo_edge(faces, [edge.from, v]),
        },
    }
}

/// The edge before `edge` around its right face: from the same start to the
/// third corner of that face.
pub open spec fn spec_prev(faces: Seq<[usize; 3]>, edge: DirectedEdge) -> Option<DirectedEdge> {
    match edge.right_face {
        None => None,
        Some(g) => match spec_third_vertex(faces[g as int], edge.from, edge.to) {
            None => None,
            Some(v) => topo_edge(faces, [edge.from, v]),
        },
    }
}

/// The same edge walked the other way.
pub open spec fn spec_sym(faces: Seq<[usize; 3]>, edge: DirectedEdge) -> Option<DirectedEdge> {
    topo_edge(faces, [edge.to, edge.from])
}

/// The faces named by an edge are faces of the mesh.
pub open spec fn edge_in_mesh(faces: Seq<[usize; 3]>, edge: DirectedEdge) -> bool {
    &&& (edge.left_face matches Some(g) ==> g < faces.len())
    &&& (edge.right_face matches Some(g) ==> g < faces.len())
}

/// An edge of the mesh names faces of the mesh.
pub proof fn lemma_topo_edge_in_mesh(faces: Seq<[usize; 3]>, e: [usize; 2])
    requires
        faces.len() <= usize::MAX,
    ensures
        topo_edge(faces, e) matches Some(d) ==> edge_in_mesh(faces, d) && d.from == e[0] && d.to == e[1],
{
    lemma_last_walker(faces, e);
    lemma_last_walker(faces, spec_reverse(e));
}

impl MeshTopologyLite {
    /// The topology of `faces`.
    pub fn new(faces: Vec<[usize; 3]>) -> (out: Self)
        ensures
            out.faces@ == faces@,
    {
        MeshTopologyLite { faces }
    }

    /// The directed edge `edge`, when some face walks it either way.
    pub fn find_directed(&self, edge: [usize; 2]) -> (out: Option<DirectedEdge>)
        ensures
            out == topo_edge(self.faces@, edge),
    {
        let left = last_walker_of(&self.faces, edge);
        let right = last_walker_of(&self.faces, [edge[1], edge[0]]);
        assert([edge[1], edge[0]] =~= spec_reverse(edge));
        if left.is_none() && right.is_none() {
            None
        } else {
            Some(DirectedEdge { from: edge[0], to: edge[1], left_face: left, right_face: right })
        }
    }

    /// The edge at corner `local_edge` of face `face`.
    pub fn face_edge(&self, face: usize, local_edge: usize) -> (out: DirectedEdge)
        requires
            face < self.faces@.len(),
            local_edge < 3,
        ensures
            topo_edge(self.faces@, spec_face_edges(self.faces@[face as int])[local_edge as int]) == Some(out),
            edge_in_mesh(self.faces@, out),
    {
        let face_count = self.faces.len();
        assert(self.faces@.len() == face_count);
        let vertices = self.faces[face];
        let next_corner = if local_edge == 2 {
            0
        } else {
            local_edge + 1
        };
        let e = [vertices[local_edge], vertices[next_corner]];
        proof {
            assert(e =~= spec_face_edges(vertices)[local_edge as int]);
            assert(face_has_directed(vertices, e));
            lemma_last_walker(self.faces@, e);
            if last_walker(self.faces@, e) is None {
                assert(!face_has_directed(self.faces@[face as int], e));
            }
            lemma_topo_edge_in_mesh(self.faces@, e);
        }
        match self.find_directed(e) {
            Some(d) => d,
            None => DirectedEdge { from: e[0], to: e[1], left_face: None, right_face: None },
        }
    }

    /// The two ends of `edge`.
    pub fn edge_vertices(&self, edge: DirectedEdge) -> (out: [usize; 2])
        ensures
            out == [edge.from, edge.to],
    {
        [edge.from, edge.to]
    }

    /// The edge after `edge` around its left face.
    pub fn next(&self, edge: DirectedEdge) -> (out: Option<DirectedEdge>)
        requires
            edge_in_mesh(self.faces@, edge),
        ensures
            out == spec_next(self.faces@, edge),
            out matches Some(d) ==> edge_in_mesh(self.faces@, d),
    {
        let g = match edge.left_face {
            Some(g) => g,
            None => {
                return None;
            },
        };
        let face_count = self.faces.len();
        assert(self.faces@.len() == face_count);
        let face = self.faces[g];
        let third = match third_vertex(face, edge.from, edge.to) {
            Some(v) => v,
            None => {
                return None;
            },
        };
        proof {
            lemma_topo_edge_in_mesh(self.faces@, [edge.from, third]);
        }
        self.find_directed([edge.from, third])
    }

    /// The edge before `edge` around its right face.
    pub fn prev(&self, edge: DirectedEdge) -> (out: Option<DirectedEdge>)
        requires
            edge_in_mesh(self.faces@, edge),
        ensures
            out == spec_prev(self.faces@, edge),
            out matches Some(d) ==> edge_in_mesh(self.faces@, d),
    {
        let g = match edge.right_face {
            Some(g) => g,
            None => {
                return None;
            },
        };
        let face_count = self.faces.len();
        assert(self.faces@.len() == face_count);
        let face = self.faces[g];
        let third = match third_vertex(face, edge.from, edge.to) {
            Some(v) => v,
            None => {
                return None;
            },
        };
        proof {
            lemma_topo_edge_in_mesh(self.faces@, [edge.from, third]);
        }
        self.find_directed([edge.from, third])
    }

    /// The same edge walked the other way.
    pub fn sym(&self, edge: DirectedEdge) -> (out: Option<DirectedEdge>)
        ensures
            out == spec_sym(self.faces@, edge),
            out matches Some(d) ==> edge_in_mesh(self.faces@, d),
    {
        let face_count = self.faces.len();
        assert(self.faces@.len() == face_count);
        proof {
            lemma_topo_edge_in_mesh(self.faces@, [edge.to, edge.from]);
        }
        self.find_directed([edge.to, edge.from])
    }
}

/// The candidates that may follow the edge `edge` of face `face`'s mesh: the
/// next edge around its left face, then the edge before its reverse around
/// that one's right face.
pub open spec fn spec_successors(faces: Seq<[usize; 3]>, edge: DirectedEdge) -> Seq<DirectedEdge> {
    let next = match spec_next(faces, edge) {
        Some(d) => seq![d],
        None => Seq::empty(),
    };
    let back = match spec_sym(faces, edge) {
        Some(s) => match spec_prev(faces, s) {
            Some(d) => seq![d],
            None => Seq::empty(),
        },
        None => Seq::empty(),
    };
    next + back
}

/// The edges that may carry a contour on from an edge of the same mesh:
/// the next edge around its left face, then the edge before its reverse.
pub fn same_owner_successor_edges(topology: &MeshTopologyLite, current_edge: DirectedEdge) -> (out: Vec<
    DirectedEdge,
>)
    requires
        edge_in_mesh(topology.faces@, current_edge),
    ensures
        out@ == spec_successors(topology.faces@, current_edge),
{
    let mut candidates: Vec<DirectedEdge> = Vec::new();
    if let Some(next) = topology.next(current_edge) {
        candidates.push(next);
    }
    if let Some(sym) = topology.sym(current_edge) {
        if let Some(prev_sym) = topology.prev(sym) {
            candidates.push(prev_sym);
        }
    }
    assert(candidates@ =~= spec_successors(topology.faces@, current_edge));
    candidates
}

/// The first edge of triangle `face`, then the candidates that follow it.
pub open spec fn spec_triangle_successors(faces: Seq<[usize; 3]>, face: int) -> Seq<DirectedEdge> {
    match topo_edge(faces, spec_face_edges(faces[face])[0]) {
        Some(first) => seq![first] + spec_successors(faces, first),
        None => Seq::empty(),
    }
}

/// The edges of triangle `face` through which a contour may leave it: its
/// first edge, then the candidates that follow that edge.
pub fn triangle_successor_edges(topology: &MeshTopologyLite, face: usize) -> (out: Vec<DirectedEdge>)
    requires
        face < topology.faces@.len(),
    ensures
        out@ == spec_triangle_successors(topology.faces@, face as int),
{
    let edge = topology.face_edge(face, 0);
    let mut candidates: Vec<DirectedEdge> = Vec::new();
    candidates.push(edge);
    let rest = same_owner_successor_edges(topology, edge);
    let mut i: usize = 0;
    while i < rest.len()
        invariant
            i <= rest@.len(),
            candidates@ == seq![edge] + rest@.subrange(0, i as int),
        decreases rest@.len() - i,
    {
        candidates.push(rest[i]);
        i += 1;
        assert(candidates@ =~= seq![edge] + rest@.subrange(0, i as int));
    }
    assert(rest@.subrange(0, rest@.len() as int) =~= rest@);
    candidates
}

/// A crossing of an edge of one mesh with a triangle of the other.
#[derive(Debug, Clone, Copy, PartialEq, Eq)]
pub struct ExactContourIntersection {
    pub edge_owner: ExactTriangleOwner,
    pub edge: [usize; 2],
    pub edge_left_face: Option<usize>,
    pub triangle_owner: ExactTriangleOwner,
    pub triangle_face: usize,
    pub triangle: [usize; 3],
}

/// Crossings chained in order, and whether the chain closes on itself.
#[derive(Debug, Clone, PartialEq, Eq)]
pub struct ExactIntersectionContour {
    pub intersections: Vec<ExactContourIntersection>,
    pub closed: bool,
}

/// What tells two crossings apart: the edge, its mesh, and the triangle face.
#[derive(Debug, Clone, Copy, PartialEq, Eq)]
pub struct RecordKey {
    pub edge_owner: ExactTriangleOwner,
    pub edge: [usize; 2],
    pub triangle_face: usize,
}

/// The crossings before and after a crossing along its contour.
#[derive(Debug, Clone, Copy, PartialEq, Eq, Structural)]
pub struct NeighborLinks {
    pub prev: Option<usize>,
    pub next: Option<usize>,
}

/// The key of a crossing.
pub open spec fn spec_record_key(record: ExactContourIntersection) -> RecordKey {
    RecordKey { edge_owner: record.edge_owner, edge: record.edge, triangle_face: record.triangle_face }
}

/// The key of a crossing.
pub fn record_key(record: &ExactContourIntersection) -> (out: RecordKey)
    ensures
        out == spec_record_key(*record),
{
    RecordKey { edge_owner: record.edge_owner, edge: record.edge, triangle_face: record.triangle_face }
}

/// The first position, from `start` on, of a crossing with key `key`.
pub open spec fn first_record(records: Seq<ExactContourIntersection>, key: RecordKey, start: int) -> Option<usize>
    decreases records.len() - start,
{
    if start < 0 || start >= records.len() {
        None
    } else if spec_record_key(records[start]) == key {
        Some(start as usize)
    } else {
        first_record(records, key, start + 1)
    }
}

/// What `first_record` finds is the first match.
pub proof fn lemma_first_record(records: Seq<ExactContourIntersection>, key: RecordKey, start: int)
    requires
        0 <= start,
        records.len() <= usize::MAX,
    ensures
        first_record(records, key, start) matches Some(i) ==> start <= i < records.len() && spec_record_key(
            records[i as int],
        ) == key && forall|j: int| start <= j < i ==> spec_record_key(#[trigger] records[j]) != key,
        first_record(records, key, start) is None ==> forall|j: int|
            start <= j < records.len() ==> spec_record_key(#[trigger] records[j]) != key,
    decreases records.len() - start,
{
    if start < records.len() && spec_record_key(records[start]) != key {
        lemma_first_record(records, key, start + 1);
    }
}

/// The lookup table holds, once per key, the first crossing with that key,
/// for every key of the crossings.
pub open spec fn lookup_ok(records: Seq<ExactContourIntersection>, lookup: Seq<(RecordKey, usize)>) -> bool {
    &&& forall|t: int| 0 <= t < lookup.len() ==> first_record(records, (#[trigger] lookup[t]).0, 0) == Some(lookup[t].1)
    &&& forall|j: int| 0 <= j < records.len() ==> exists|t: int| 0 <= t < lookup.len() && (#[trigger] lookup[t]).0 == spec_record_key(#[trigger] records[j])
}

/// Whether two keys are equal.
fn same_key(a: RecordKey, b: RecordKey) -> (out: bool)
    ensures
        out == (a == b),
{
    let same = a.edge_owner == b.edge_owner && a.edge[0] == b.edge[0] && a.edge[1] == b.edge[1]
        && a.triangle_face == b.triangle_face;
    if same {
        assert(a.edge =~= b.edge);
    }
    same
}

/// The first crossing with key `key`, read off the lookup table.
pub fn lookup_get(lookup: &Vec<(RecordKey, usize)>, key: RecordKey, Ghost(records): Ghost<Seq<ExactContourIntersection>>) -> (out: Option<usize>)
    requires
        lookup_ok(records, lookup@),
        records.len() <= usize::MAX,
    ensures
        out == first_record(records, key, 0),
{
    let mut i: usize = 0;
    while i < lookup.len()
        invariant
            lookup_ok(records, lookup@),
            i <= lookup@.len(),
            forall|j: int| 0 <= j < i ==> lookup@[j].0 != key,
        decreases lookup@.len() - i,
    {
        if same_key(lookup[i].0, key) {
            assert(first_record(records, lookup@[i as int].0, 0) == Some(lookup@[i as int].1));
            return Some(lookup[i].1);
        }
        i += 1;
    }
    proof {
        lemma_first_record(records, key, 0);
        if first_record(records, key, 0) is Some {
            let j = first_record(records, key, 0).unwrap() as int;
            let t = choose|t: int| 0 <= t < lookup@.len() && (#[trigger] lookup@[t]).0 == spec_record_key(records[j]);
        }
    }
    None
}

/// The lookup table of the crossings: each key once, with the position of
/// the first crossing that has it, in order of first appearance.
pub fn build_lookup(records: &Vec<ExactContourIntersection>) -> (lookup: Vec<(RecordKey, usize)>)
    ensures
        lookup_ok(records@, lookup@),
{
    let mut lookup: Vec<(RecordKey, usize)> = Vec::new();
    let mut i: usize = 0;
    while i < records.len()
        invariant
            i <= records@.len(),
            forall|t: int| 0 <= t < lookup@.len() ==> first_record(records@, (#[trigger] lookup@[t]).0, 0) == Some(lookup@[t].1),
            forall|j: int| 0 <= j < i ==> exists|t: int| 0 <= t < lookup@.len() && (#[trigger] lookup@[t]).0 == spec_record_key(#[trigger] records@[j]),
        decreases records@.len() - i,
    {
        let key = record_key(&records[i]);
        let mut t: usize = 0;
        let mut found = false;
        while t < lookup.len()
            invariant_except_break
                !found,
            invariant
                t <= lookup@.len(),
                forall|u: int| 0 <= u < t ==> lookup@[u].0 != key,
            ensures
                found ==> t < lookup@.len() && lookup@[t as int].0 == key,
                !found ==> forall|u: int| 0 <= u < lookup@.len() ==> lookup@[u].0 != key,
            decreases lookup@.len() - t,
        {
            if same_key(lookup[t].0, key) {
                found = true;
                break;
            }
            t += 1;
        }
        let ghost before = lookup@;
        if !found {
            proof {
                lemma_first_record(records@, key, 0);
                assert forall|j: int| 0 <= j < i implies spec_record_key(#[trigger] records@[j]) != key by {
                    let u = choose|u: int| 0 <= u < before.len() && (#[trigger] before[u]).0 == spec_record_key(records@[j]);
                }
                let f = first_record(records@, key, 0);
                assert(spec_record_key(records@[i as int]) == key);
                assert(f == Some(i));
            }
            lookup.push((key, i));
        }
        proof {
            assert forall|j: int| 0 <= j < i + 1 implies exists|u: int| 0 <= u < lookup@.len() && (#[trigger] lookup@[u]).0 == spec_record_key(#[trigger] records@[j]) by {
                if j < i {
                    let u = choose|u: int| 0 <= u < before.len() && (#[trigger] before[u]).0 == spec_record_key(records@[j]);
                    assert(lookup@[u] == before[u]);
                } else if found {
                    assert(lookup@[t as int].0 == key);
                } else {
                    assert(lookup@[before.len() as int].0 == key);
                }
            }
        }
        i += 1;
    }
    proof {
        assert forall|t: int| 0 <= t < lookup@.len() implies first_record(records@, (#[trigger] lookup@[t]).0, 0) == Some(lookup@[t].1) by {}
        assert(i == records@.len());
        assert forall|j: int| 0 <= j < records@.len() implies exists|t: int| 0 <= t < lookup@.len() && (#[trigger] lookup@[t]).0 == spec_record_key(#[trigger] records@[j]) by {
            assert(0 <= j < i);
            let t = choose|t: int| 0 <= t < lookup@.len() && (#[trigger] lookup@[t]).0 == spec_record_key(#[trigger] records@[j]);
            assert(lookup@[t].0 == spec_record_key(records@[j]));
        }
    }
    lookup
}

/// A key with its edge walked the other way.
pub open spec fn reversed_key(key: RecordKey) -> RecordKey {
    RecordKey { edge_owner: key.edge_owner, edge: spec_reverse(key.edge), triangle_face: key.triangle_face }
}

/// The first crossing with `key`, or else the first with the edge reversed.
pub open spec fn spec_lookup_directed(records: Seq<ExactContourIntersection>, key: RecordKey) -> Option<usize> {
    match first_record(records, key, 0) {
        Some(i) => Some(i),
        None => first_record(records, reversed_key(key), 0),
    }
}

/// The first crossing with `key`, or else the first with the edge reversed.
pub fn lookup_directed(
    lookup: &Vec<(RecordKey, usize)>,
    key: RecordKey,
    Ghost(records): Ghost<Seq<ExactContourIntersection>>,
) -> (out: Option<usize>)
    requires
        lookup_ok(records, lookup@),
        records.len() <= usize::MAX,
    ensures
        out == spec_lookup_directed(records, key),
{
    match lookup_get(lookup, key, Ghost(records)) {
        Some(i) => Some(i),
        None => {
            let reversed = RecordKey {
                edge_owner: key.edge_owner,
                edge: [key.edge[1], key.edge[0]],
                triangle_face: key.triangle_face,
            };
            assert(reversed == reversed_key(key));
            lookup_get(lookup, reversed, Ghost(records))
        },
    }
}

/// The mesh a crossing part belongs to.
pub open spec fn owner_faces(
    owner: ExactTriangleOwner,
    first: Seq<[usize; 3]>,
    second: Seq<[usize; 3]>,
) -> Seq<[usize; 3]> {
    match owner {
        ExactTriangleOwner::First => first,
        ExactTriangleOwner::Second => second,
    }
}

/// The topology of the mesh `owner` names.
pub fn topology_for<'a>(
    owner: ExactTriangleOwner,
    first_topology: &'a MeshTopologyLite,
    second_topology: &'a MeshTopologyLite,
) -> (out: &'a MeshTopologyLite)
    ensures
        out.faces@ == owner_faces(owner, first_topology.faces@, second_topology.faces@),
{
    match owner {
        ExactTriangleOwner::First => first_topology,
        ExactTriangleOwner::Second => second_topology,
    }
}

/// The first crossing, from candidate `start` on, found for a candidate
/// edge of mesh `owner` with triangle face `face`.
pub open spec fn first_hit(
    records: Seq<ExactContourIntersection>,
    cands: Seq<DirectedEdge>,
    start: int,
    owner: ExactTriangleOwner,
    face: usize,
) -> Option<usize>
    decreases cands.len() - start,
{
    if start < 0 || start >= cands.len() {
        None
    } else {
        match spec_lookup_directed(
            records,
            RecordKey { edge_owner: owner, edge: [cands[start].from, cands[start].to], triangle_face: face },
        ) {
            Some(i) => Some(i),
            None => first_hit(records, cands, start + 1, owner, face),
        }
    }
}

/// The first crossing found for a list of candidate edges.
fn first_hit_in(
    lookup: &Vec<(RecordKey, usize)>,
    cands: &Vec<DirectedEdge>,
    owner: ExactTriangleOwner,
    face: usize,
    Ghost(records): Ghost<Seq<ExactContourIntersection>>,
) -> (out: Option<usize>)
    requires
        lookup_ok(records, lookup@),
        records.len() <= usize::MAX,
    ensures
        out == first_hit(records, cands@, 0, owner, face),
{
    let mut i: usize = 0;
    while i < cands.len()
        invariant
            lookup_ok(records, lookup@),
            records.len() <= usize::MAX,
            i <= cands@.len(),
            first_hit(records, cands@, 0, owner, face) == first_hit(records, cands@, i as int, owner, face),
        decreases cands@.len() - i,
    {
        let c = cands[i];
        let key = RecordKey { edge_owner: owner, edge: [c.from, c.to], triangle_face: face };
        if let Some(index) = lookup_directed(lookup, key, Ghost(records)) {
            return Some(index);
        }
        i += 1;
    }
    None
}

/// The crossing that follows `record` along its contour: the first crossing
/// of the same triangle with a candidate edge after the record's edge around
/// its left face, else the first crossing of that left face with a candidate
/// edge of the triangle.
pub open spec fn spec_find_next(
    records: Seq<ExactContourIntersection>,
    first: Seq<[usize; 3]>,
    second: Seq<[usize; 3]>,
    record: ExactContourIntersection,
) -> Option<usize> {
    let edge_faces = owner_faces(record.edge_owner, first, second);
    let tri_faces = owner_faces(record.triangle_owner, first, second);
    match topo_edge(edge_faces, record.edge) {
        None => None,
        Some(stored) => {
            let current = match record.edge_owner {
                ExactTriangleOwner::First => stored,
                ExactTriangleOwner::Second => match spec_sym(edge_faces, stored) {
                    Some(s) => s,
                    None => stored,
                },
            };
            match current.left_face {
                None => None,
                Some(left) => match first_hit(
                    records,
                    spec_successors(edge_faces, current),
                    0,
                    record.edge_owner,
                    record.triangle_face,
                ) {
                    Some(i) => Some(i),
                    None => first_hit(
                        records,
                        spec_triangle_successors(tri_faces, record.triangle_face as int),
                        0,
                        record.triangle_owner,
                        left,
                    ),
                },
            }
        },
    }
}

/// The crossing that follows `record` along its contour.
pub fn find_next(
    record: &ExactContourIntersection,
    lookup: &Vec<(RecordKey, usize)>,
    first_topology: &MeshTopologyLite,
    second_topology: &MeshTopologyLite,
    Ghost(records): Ghost<Seq<ExactContourIntersection>>,
) -> (out: Option<usize>)
    requires
        lookup_ok(records, lookup@),
        records.len() <= usize::MAX,
        record.triangle_face < owner_faces(record.triangle_owner, first_topology.faces@, second_topology.faces@).len(),
    ensures
        out == spec_find_next(records, first_topology.faces@, second_topology.faces@, *record),
{
    let edge_topology = topology_for(record.edge_owner, first_topology, second_topology);
    let tri_topology = topology_for(record.triangle_owner, first_topology, second_topology);
    let face_count = edge_topology.faces.len();
    assert(edge_topology.faces@.len() == face_count);
    let stored_edge = match edge_topology.find_directed(record.edge) {
        Some(e) => e,
        None => {
            return None;
        },
    };
    proof {
        lemma_topo_edge_in_mesh(edge_topology.faces@, record.edge);
    }
    let current_edge = match record.edge_owner {
        ExactTriangleOwner::First => stored_edge,
        ExactTriangleOwner::Second => match edge_topology.sym(stored_edge) {
            Some(s) => s,
            None => stored_edge,
        },
    };
    let left_face = match current_edge.left_face {
        Some(f) => f,
        None => {
            return None;
        },
    };
    let same_owner = same_owner_successor_edges(edge_topology, current_edge);
    if let Some(index) = first_hit_in(lookup, &same_owner, record.edge_owner, record.triangle_face, Ghost(records)) {
        return Some(index);
    }
    let tri_edges = triangle_successor_edges(tri_topology, record.triangle_face);
    first_hit_in(lookup, &tri_edges, record.triangle_owner, left_face, Ghost(records))
}

/// Every crossing's triangle is a face of its mesh.
pub open spec fn records_in_meshes(
    records: Seq<ExactContourIntersection>,
    first: Seq<[usize; 3]>,
    second: Seq<[usize; 3]>,
) -> bool {
    forall|i: int|
        0 <= i < records.len() ==> (#[trigger] records[i]).triangle_face < owner_faces(
            records[i].triangle_owner,
            first,
            second,
        ).len()
}

/// The first crossing, from `start` on, whose follower is crossing `j`.
pub open spec fn first_pointer(
    records: Seq<ExactContourIntersection>,
    first: Seq<[usize; 3]>,
    second: Seq<[usize; 3]>,
    j: usize,
    start: int,
) -> Option<usize>
    decreases records.len() - start,
{
    if start < 0 || start >= records.len() {
        None
    } else if spec_find_next(records, first, second, records[start]) == Some(j) {
        Some(start as usize)
    } else {
        first_pointer(records, first, second, j, start + 1)
    }
}

/// A follower found through the lookup table is a crossing.
proof fn lemma_find_next_in_range(
    records: Seq<ExactContourIntersection>,
    first: Seq<[usize; 3]>,
    second: Seq<[usize; 3]>,
    record: ExactContourIntersection,
)
    requires
        records.len() <= usize::MAX,
    ensures
        spec_find_next(records, first, second, record) matches Some(j) ==> j < records.len(),
{
    assert forall|key: RecordKey| #[trigger] spec_lookup_directed(records, key) is Some implies spec_lookup_directed(records, key).unwrap() < records.len() by {
        lemma_first_record(records, key, 0);
        lemma_first_record(records, reversed_key(key), 0);
    }
    assert forall|cands: Seq<DirectedEdge>, start: int, owner: ExactTriangleOwner, face: usize|
        #[trigger] first_hit(records, cands, start, owner, face) is Some implies first_hit(records, cands, start, owner, face).unwrap() < records.len() by {
        lemma_first_hit_in_range(records, cands, start, owner, face);
    }
}

/// A crossing found among candidates is a crossing.
proof fn lemma_first_hit_in_range(
    records: Seq<ExactContourIntersection>,
    cands: Seq<DirectedEdge>,
    start: int,
    owner: ExactTriangleOwner,
    face: usize,
)
    requires
        records.len() <= usize::MAX,
    ensures
        first_hit(records, cands, start, owner, face) matches Some(j) ==> j < records.len(),
    decreases cands.len() - start,
{
    if 0 <= start < cands.len() {
        let key = RecordKey { edge_owner: owner, edge: [cands[start].from, cands[start].to], triangle_face: face };
        lemma_first_record(records, key, 0);
        lemma_first_record(records, reversed_key(key), 0);
        lemma_first_hit_in_range(records, cands, start + 1, owner, face);
    }
}

/// For each crossing, its follower, and the first crossing it follows.
pub fn build_links(
    records: &Vec<ExactContourIntersection>,
    lookup: &Vec<(RecordKey, usize)>,
    first_topology: &MeshTopologyLite,
    second_topology: &MeshTopologyLite,
) -> (links: Vec<NeighborLinks>)
    requires
        lookup_ok(records@, lookup@),
        records_in_meshes(records@, first_topology.faces@, second_topology.faces@),
    ensures
        links@.len() == records@.len(),
        forall|i: int|
            0 <= i < links@.len() ==> (#[trigger] links@[i]).next == spec_find_next(
                records@,
                first_topology.faces@,
                second_topology.faces@,
                records@[i],
            ),
        forall|j: int|
            0 <= j < links@.len() ==> (#[trigger] links@[j]).prev == first_pointer(
                records@,
                first_topology.faces@,
                second_topology.faces@,
                j as usize,
                0,
            ),
{
    let n = records.len();
    let ghost f1 = first_topology.faces@;
    let ghost f2 = second_topology.faces@;
    let mut links: Vec<NeighborLinks> = Vec::new();
    let mut k: usize = 0;
    while k < n
        invariant
            n == records@.len(),
            k <= n,
            links@.len() == k,
            forall|i: int| 0 <= i < k ==> (#[trigger] links@[i]) == (NeighborLinks { prev: None, next: None }),
        decreases n - k,
    {
        links.push(NeighborLinks { prev: None, next: None });
        k += 1;
    }
    let mut index: usize = 0;
    while index < n
        invariant
            n == records@.len(),
            lookup_ok(records@, lookup@),
            records_in_meshes(records@, f1, f2),
            f1 == first_topology.faces@,
            f2 == second_topology.faces@,
            index <= n,
            links@.len() == n,
            forall|i: int|
                0 <= i < n ==> (#[trigger] links@[i]).next == if i < index {
                    spec_find_next(records@, f1, f2, records@[i])
                } else {
                    None
                },
            forall|j: int|
                0 <= j < n ==> match (#[trigger] links@[j]).prev {
                    Some(p) => p < index && first_pointer(records@, f1, f2, j as usize, 0) == Some(p),
                    None => first_pointer(records@, f1, f2, j as usize, 0) == first_pointer(
                        records@,
                        f1,
                        f2,
                        j as usize,
                        index as int,
                    ),
                },
        decreases n - index,
    {
        assert(records@[index as int].triangle_face < owner_faces(records@[index as int].triangle_owner, f1, f2).len());
        let found = find_next(&records[index], lookup, first_topology, second_topology, Ghost(records@));
        proof {
            lemma_find_next_in_range(records@, f1, f2, records@[index as int]);
        }
        let ghost before = links@;
        match found {
            None => {
                proof {
                    assert forall|j: int| 0 <= j < n implies match (#[trigger] links@[j]).prev {
                        Some(p) => p < index + 1 && first_pointer(records@, f1, f2, j as usize, 0) == Some(p),
                        None => first_pointer(records@, f1, f2, j as usize, 0) == first_pointer(
                            records@,
                            f1,
                            f2,
                            j as usize,
                            index as int + 1,
                        ),
                    } by {
                        assert(spec_find_next(records@, f1, f2, records@[index as int]) != Some(j as usize));
                    }
                }
            },
            Some(next) => {
                let mut entry = links[index];
                entry.next = Some(next);
                links.set(index, entry);
                let mut target = links[next];
                if target.prev.is_none() {
                    target.prev = Some(index);
                    links.set(next, target);
                }
                proof {
                    assert forall|j: int| 0 <= j < n implies match (#[trigger] links@[j]).prev {
                        Some(p) => p < index + 1 && first_pointer(records@, f1, f2, j as usize, 0) == Some(p),
                        None => first_pointer(records@, f1, f2, j as usize, 0) == first_pointer(
                            records@,
                            f1,
                            f2,
                            j as usize,
                            index as int + 1,
                        ),
                    } by {
                        if j != next as int {
                            assert(links@[j].prev == before[j].prev);
                            assert(spec_find_next(records@, f1, f2, records@[index as int]) != Some(j as usize));
                        } else if before[j].prev is Some {
                            assert(links@[j].prev == before[j].prev);
                        }
                    }
                    assert forall|i: int| 0 <= i < n implies (#[trigger] links@[i]).next == if i < index + 1 {
                        spec_find_next(records@, f1, f2, records@[i])
                    } else {
                        None
                    } by {
                        if i != index as int {
                            assert(links@[i].next == before[i].next);
                        }
                    }
                }
            },
        }
        index += 1;
    }
    links
}

/// Every link names a crossing.
pub open spec fn links_in_range(links: Seq<NeighborLinks>) -> bool {
    forall|i: int|
        0 <= i < links.len() ==> ((#[trigger] links[i]).prev matches Some(p) ==> p < links.len()) && (
        links[i].next matches Some(q) ==> q < links.len())
}

/// Walking back from `current` along the links before `seed`'s chain: the
/// first crossing with nothing before it, or `seed` when the chain comes
/// back round to it; `fuel` bounds the steps.
pub open spec fn open_from(links: Seq<NeighborLinks>, seed: usize, current: usize, fuel: nat) -> usize
    decreases fuel,
{
    if fuel == 0 || current >= links.len() {
        current
    } else {
        match links[current as int].prev {
            None => current,
            Some(p) => if p == seed {
                seed
            } else {
                open_from(links, seed, p, (fuel - 1) as nat)
            },
        }
    }
}

/// The start of a walk back stays among the crossings.
proof fn lemma_open_from_in_range(links: Seq<NeighborLinks>, seed: usize, current: usize, fuel: nat)
    requires
        links_in_range(links),
        seed < links.len(),
        current < links.len(),
    ensures
        open_from(links, seed, current, fuel) < links.len(),
    decreases fuel,
{
    if fuel > 0 {
        if let Some(p) = links[current as int].prev {
            if p != seed {
                lemma_open_from_in_range(links, seed, p, (fuel - 1) as nat);
            }
        }
    }
}

/// Where the contour through `seed` starts: walking back from `seed` to the
/// first crossing with nothing before it, or `seed` itself when the links
/// lead back round to it. A walk back meets each crossing at most once, so
/// it takes at most as many steps as there are crossings.
pub fn open_contour_start(seed: usize, links: &Vec<NeighborLinks>) -> (out: usize)
    requires
        seed < links@.len(),
        links_in_range(links@),
    ensures
        out == open_from(links@, seed, seed, links@.len() as nat),
        out < links@.len(),
{
    let mut current = seed;
    let mut fuel = links.len();
    proof {
        lemma_open_from_in_range(links@, seed, seed, links@.len() as nat);
    }
    while fuel > 0
        invariant
            current < links@.len(),
            seed < links@.len(),
            links_in_range(links@),
            open_from(links@, seed, seed, links@.len() as nat) == open_from(links@, seed, current, fuel as nat),
            open_from(links@, seed, seed, links@.len() as nat) < links@.len(),
        decreases fuel,
    {
        match links[current].prev {
            None => {
                return current;
            },
            Some(prev) => {
                assert(links@[current as int].prev == Some(prev));
                if prev == seed {
                    return seed;
                }
                current = prev;
            },
        }
        fuel -= 1;
    }
    current
}

/// `queued` with the crossings of `walked` taken off.
pub open spec fn marked(queued: Seq<bool>, walked: Seq<usize>) -> Seq<bool> {
    Seq::new(queued.len(), |i: int| queued[i] && !walked.contains(i as usize))
}

/// The crossings a contour takes from `current` on, following the links
/// while they lead to crossings not yet taken and stopping before `start`;
/// with whether it closed: its last link led back to `start`, or it met
/// `start` already taken. `fuel` bounds the steps.
pub open spec fn walk_from(
    links: Seq<NeighborLinks>,
    queued: Seq<bool>,
    current: usize,
    start: usize,
    fuel: nat,
) -> (Seq<usize>, bool)
    decreases fuel,
{
    if fuel == 0 || current >= links.len() || current >= queued.len() {
        (Seq::empty(), false)
    } else if !queued[current as int] {
        (Seq::empty(), current == start)
    } else {
        match links[current as int].next {
            None => (seq![current], false),
            Some(nx) => if nx == start {
                (seq![current], true)
            } else {
                let rest = walk_from(links, queued.update(current as int, false), nx, start, (fuel - 1) as nat);
                (seq![current] + rest.0, rest.1)
            },
        }
    }
}

/// Walks one contour from `start`, taking its crossings off `queued`.
fn walk_contour(links: &Vec<NeighborLinks>, queued: &mut Vec<bool>, start: usize) -> (out: (Vec<usize>, bool))
    requires
        links_in_range(links@),
        old(queued)@.len() == links@.len(),
        start < links@.len(),
    ensures
        (out.0@, out.1) == walk_from(links@, old(queued)@, start, start, links@.len() as nat + 1),
        final(queued)@ == marked(old(queued)@, out.0@),
{
    let n = links.len();
    let ghost q0 = queued@;
    let ghost total = walk_from(links@, queued@, start, start, links@.len() as nat + 1);
    let mut indices: Vec<usize> = Vec::new();
    let mut current = start;
    let mut fuel: usize = links.len();
    let mut closed = false;
    assert(marked(q0, indices@) =~= q0);
    loop
        invariant_except_break
            current < links@.len(),
            total == (indices@ + walk_from(links@, queued@, current, start, fuel as nat + 1).0,
                walk_from(links@, queued@, current, start, fuel as nat + 1).1),
        invariant
            n == links@.len(),
            links_in_range(links@),
            queued@.len() == links@.len(),
            q0.len() == links@.len(),
            start < links@.len(),
            queued@ == marked(q0, indices@),
        ensures
            total == (indices@, closed),
            queued@ == marked(q0, indices@),
        decreases fuel,
    {
        if !queued[current] {
            closed = current == start;
            assert(indices@ + Seq::<usize>::empty() =~= indices@);
            break;
        }
        let ghost before_q = queued@;
        let ghost before_i = indices@;
        queued.set(current, false);
        indices.push(current);
        proof {
            assert(queued@ =~= marked(q0, indices@)) by {
                assert forall|i: int| 0 <= i < queued@.len() implies queued@[i] == marked(q0, indices@)[i] by {
                    assert(i < n);
                    assert((i as usize) as int == i);
                    if i == current as int {
                        assert(indices@[before_i.len() as int] == current);
                    } else {
                        if indices@.contains(i as usize) {
                            let t = choose|t: int| 0 <= t < indices@.len() && indices@[t] == i as usize;
                            if t == before_i.len() {
                                assert(indices@[t] == current);
                            }
                            assert(before_i[t] == i as usize);
                        }
                        if before_i.contains(i as usize) {
                            let t = choose|t: int| 0 <= t < before_i.len() && before_i[t] == i as usize;
                            assert(indices@[t] == i as usize);
                        }
                    }
                }
            }
        }
        let next = match links[current].next {
            Some(next) => next,
            None => {
                closed = false;
                assert(before_i + seq![current] =~= indices@);
                break;
            },
        };
        if next == start {
            closed = true;
            assert(before_i + seq![current] =~= indices@);
            break;
        }
        if fuel == 0 {
            closed = false;
            proof {
                assert(walk_from(links@, before_q.update(current as int, false), next, start, 0) == (
                Seq::<usize>::empty(), false));
                assert(seq![current] + Seq::<usize>::empty() =~= seq![current]);
                assert(before_i + seq![current] =~= indices@);
            }
            break;
        }
        proof {
            let rest = walk_from(links@, queued@, next, start, fuel as nat);
            assert(before_q.update(current as int, false) == queued@);
            assert(before_i + (seq![current] + rest.0) =~= indices@ + rest.0);
        }
        current = next;
        fuel -= 1;
    }
    (indices, closed)
}

/// The crossings a walk takes are crossings.
proof fn lemma_walk_in_range(
    links: Seq<NeighborLinks>,
    queued: Seq<bool>,
    current: usize,
    start: usize,
    fuel: nat,
)
    ensures
        forall|t: int|
            0 <= t < walk_from(links, queued, current, start, fuel).0.len() ==> #[trigger] walk_from(
                links,
                queued,
                current,
                start,
                fuel,
            ).0[t] < links.len(),
    decreases fuel,
{
    if fuel > 0 && current < links.len() && current < queued.len() && queued[current as int] {
        if let Some(nx) = links[current as int].next {
            if nx != start {
                let q2 = queued.update(current as int, false);
                lemma_walk_in_range(links, q2, nx, start, (fuel - 1) as nat);
                let rest = walk_from(links, q2, nx, start, (fuel - 1) as nat);
                let whole = walk_from(links, queued, current, start, fuel);
                assert(whole.0 == seq![current] + rest.0);
                assert forall|t: int| 0 <= t < whole.0.len() implies #[trigger] whole.0[t] < links.len() by {
                    if t > 0 {
                        assert(whole.0[t] == rest.0[t - 1]);
                    }
                }
            }
        }
    }
}

/// The contours found from the first `s` seeds, with the crossings still
/// free: each free seed starts a walk at the start of its open chain.
pub open spec fn runs_upto(links: Seq<NeighborLinks>, s: nat) -> (Seq<(Seq<usize>, bool)>, Seq<bool>)
    decreases s,
{
    if s == 0 {
        (Seq::empty(), Seq::new(links.len(), |i: int| true))
    } else {
        let prev = runs_upto(links, (s - 1) as nat);
        let seed = (s - 1) as usize;
        if seed >= links.len() || seed >= prev.1.len() || !prev.1[seed as int] {
            prev
        } else {
            let start = open_from(links, seed, seed, links.len() as nat);
            let walk = walk_from(links, prev.1, start, start, links.len() as nat + 1);
            (prev.0.push(walk), marked(prev.1, walk.0))
        }
    }
}

/// The free marks keep their length.
proof fn lemma_runs_len(links: Seq<NeighborLinks>, s: nat)
    ensures
        runs_upto(links, s).1.len() == links.len(),
    decreases s,
{
    if s > 0 {
        lemma_runs_len(links, (s - 1) as nat);
    }
}

/// `contour` carries the crossings of `run` in order, and its closing flag.
pub open spec fn contour_of(
    records: Seq<ExactContourIntersection>,
    run: (Seq<usize>, bool),
    contour: ExactIntersectionContour,
) -> bool {
    &&& contour.closed == run.1
    &&& contour.intersections@.len() == run.0.len()
    &&& forall|t: int| 0 <= t < run.0.len() ==> #[trigger] contour.intersections@[t] == records[run.0[t] as int]
}

/// The contours of the linked crossings: for each crossing not yet taken,
/// in order, the contour through it from the start of its open chain.
pub fn build_contours(
    records: Vec<ExactContourIntersection>,
    links: Vec<NeighborLinks>,
) -> (contours: Vec<ExactIntersectionContour>)
    requires
        links@.len() == records@.len(),
        links_in_range(links@),
    ensures
        contours@.len() == runs_upto(links@, links@.len() as nat).0.len(),
        forall|c: int|
            0 <= c < contours@.len() ==> contour_of(records@, runs_upto(links@, links@.len() as nat).0[c], #[trigger] contours@[c]),
{
    let n = records.len();
    let mut queued: Vec<bool> = Vec::new();
    let mut k: usize = 0;
    while k < n
        invariant
            k <= n,
            queued@.len() == k,
            forall|i: int| 0 <= i < k ==> #[trigger] queued@[i],
        decreases n - k,
    {
        queued.push(true);
        k += 1;
    }
    assert(queued@ =~= runs_upto(links@, 0).1);
    let mut contours: Vec<ExactIntersectionContour> = Vec::new();
    let mut seed: usize = 0;
    while seed < n
        invariant
            n == records@.len(),
            links@.len() == n,
            links_in_range(links@),
            seed <= n,
            queued@ == runs_upto(links@, seed as nat).1,
            contours@.len() == runs_upto(links@, seed as nat).0.len(),
            forall|c: int|
                0 <= c < contours@.len() ==> contour_of(records@, runs_upto(links@, seed as nat).0[c], #[trigger] contours@[c]),
        decreases n - seed,
    {
        proof {
            lemma_runs_len(links@, seed as nat);
        }
        let ghost prev = runs_upto(links@, seed as nat);
        if queued[seed] {
            let start = open_contour_start(seed, &links);
            let (indices, closed) = walk_contour(&links, &mut queued, start);
            proof {
                lemma_walk_in_range(links@, prev.1, start, start, n as nat + 1);
                let w = walk_from(links@, prev.1, start, start, n as nat + 1);
                assert(indices@ == w.0);
                assert forall|u: int| 0 <= u < indices@.len() implies #[trigger] indices@[u] < n by {
                    assert(w.0[u] < links@.len());
                }
            }
            let mut intersections: Vec<ExactContourIntersection> = Vec::new();
            let mut t: usize = 0;
            while t < indices.len()
                invariant
                    n == records@.len(),
                    t <= indices@.len(),
                    forall|u: int| 0 <= u < indices@.len() ==> #[trigger] indices@[u] < n,
                    intersections@.len() == t,
                    forall|u: int| 0 <= u < t ==> #[trigger] intersections@[u] == records@[indices@[u] as int],
                decreases indices@.len() - t,
            {
                intersections.push(records[indices[t]]);
                t += 1;
            }
            let contour = ExactIntersectionContour { intersections, closed };
            let ghost walk = (indices@, closed);
            assert(contour_of(records@, walk, contour));
            contours.push(contour);
            proof {
                let next = runs_upto(links@, seed as nat + 1);
                assert(next.0 == prev.0.push(walk));
                assert forall|c: int| 0 <= c < contours@.len() implies contour_of(records@, next.0[c], #[trigger] contours@[c]) by {
                    if c < prev.0.len() {
                        assert(next.0[c] == prev.0[c]);
                    }
                }
            }
        }
        seed += 1;
    }
    contours
}

/// The links of the crossings: each one's follower, and the first crossing
/// that it follows.
pub open spec fn spec_links(
    records: Seq<ExactContourIntersection>,
    first: Seq<[usize; 3]>,
    second: Seq<[usize; 3]>,
) -> Seq<NeighborLinks> {
    Seq::new(
        records.len(),
        |i: int|
            NeighborLinks {
                prev: first_pointer(records, first, second, i as usize, 0),
                next: spec_find_next(records, first, second, records[i]),
            },
    )
}

/// A crossing that is followed is followed by a crossing before the end.
proof fn lemma_first_pointer_in_range(
    records: Seq<ExactContourIntersection>,
    first: Seq<[usize; 3]>,
    second: Seq<[usize; 3]>,
    j: usize,
    start: int,
)
    requires
        records.len() <= usize::MAX,
    ensures
        first_pointer(records, first, second, j, start) matches Some(p) ==> p < records.len(),
    decreases records.len() - start,
{
    if 0 <= start < records.len() {
        lemma_first_pointer_in_range(records, first, second, j, start + 1);
    }
}

/// Chains the crossings into contours: each crossing is followed by the
/// crossing its edge leads to, and the contours are walked from the start of
/// each open chain.
pub fn order_records_into_contours(
    records: Vec<ExactContourIntersection>,
    first_topology: &MeshTopologyLite,
    second_topology: &MeshTopologyLite,
) -> (contours: Vec<ExactIntersectionContour>)
    requires
        records_in_meshes(records@, first_topology.faces@, second_topology.faces@),
    ensures
        contours@.len() == runs_upto(
            spec_links(records@, first_topology.faces@, second_topology.faces@),
            records@.len() as nat,
        ).0.len(),
        forall|c: int|
            0 <= c < contours@.len() ==> contour_of(
                records@,
                runs_upto(
                    spec_links(records@, first_topology.faces@, second_topology.faces@),
                    records@.len() as nat,
                ).0[c],
                #[trigger] contours@[c],
            ),
{
    let n = records.len();
    let lookup = build_lookup(&records);
    let links = build_links(&records, &lookup, first_topology, second_topology);
    proof {
        let f1 = first_topology.faces@;
        let f2 = second_topology.faces@;
        assert(links@ =~= spec_links(records@, f1, f2));
        assert forall|i: int| 0 <= i < links@.len() implies ((#[trigger] links@[i]).prev matches Some(p) ==> p < links@.len()) && (
            links@[i].next matches Some(q) ==> q < links@.len()) by {
            lemma_first_pointer_in_range(records@, f1, f2, i as usize, 0);
            lemma_find_next_in_range(records@, f1, f2, records@[i]);
        }
    }
    build_contours(records, links)
}

/// A crossing of a triangle by an edge of the other mesh's triangle, the
/// edge named by its corner positions in its triangle.
#[derive(Debug, Clone, Copy, PartialEq, Eq)]
pub struct TriangleEdgeIntersection {
    pub edge_owner: ExactTriangleOwner,
    pub edge: [usize; 2],
    pub d_is_left_from_triangle: bool,
}

/// The crossings found between a triangle of each mesh.
#[derive(Debug, Clone, PartialEq, Eq)]
pub struct ExactMeshIntersection {
    pub first_face: usize,
    pub second_face: usize,
    pub intersections: Vec<TriangleEdgeIntersection>,
}

/// The edge at corner `local_edge` of `face`, turned so that the triangle
/// it crosses lies on its left.
pub open spec fn spec_oriented_edge(faces: Seq<[usize; 3]>, face: int, local_edge: int, d_is_left: bool) -> DirectedEdge {
    let edge = topo_edge(faces, spec_face_edges(faces[face])[local_edge]).unwrap();
    if d_is_left {
        edge
    } else {
        match spec_sym(faces, edge) {
            Some(s) => s,
            None => edge,
        }
    }
}

/// The edge at corner `local_edge` of `face`, turned so that the triangle
/// it crosses lies on its left.
pub fn oriented_edge(
    topology: &MeshTopologyLite,
    face: usize,
    local_edge: usize,
    d_is_left_from_triangle: bool,
) -> (out: DirectedEdge)
    requires
        face < topology.faces@.len(),
        local_edge < 3,
    ensures
        out == spec_oriented_edge(topology.faces@, face as int, local_edge as int, d_is_left_from_triangle),
{
    let edge = topology.face_edge(face, local_edge);
    if d_is_left_from_triangle {
        return edge;
    }
    match topology.sym(edge) {
        Some(s) => s,
        None => edge,
    }
}

/// The crossing record of one crossing between `first_face` and `second_face`.
pub open spec fn spec_make_record(
    first_face: usize,
    second_face: usize,
    intersection: TriangleEdgeIntersection,
    first_faces: Seq<[usize; 3]>,
    second_faces: Seq<[usize; 3]>,
) -> ExactContourIntersection {
    match intersection.edge_owner {
        ExactTriangleOwner::First => {
            let d = spec_oriented_edge(first_faces, first_face as int, intersection.edge[0] as int, intersection.d_is_left_from_triangle);
            ExactContourIntersection {
                edge_owner: ExactTriangleOwner::First,
                edge: [d.from, d.to],
                edge_left_face: d.left_face,
                triangle_owner: ExactTriangleOwner::Second,
                triangle_face: second_face,
                triangle: second_faces[second_face as int],
            }
        },
        ExactTriangleOwner::Second => {
            let d = spec_oriented_edge(second_faces, second_face as int, intersection.edge[0] as int, intersection.d_is_left_from_triangle);
            ExactContourIntersection {
                edge_owner: ExactTriangleOwner::Second,
                edge: [d.from, d.to],
                edge_left_face: d.left_face,
                triangle_owner: ExactTriangleOwner::First,
                triangle_face: first_face,
                triangle: first_faces[first_face as int],
            }
        },
    }
}

/// A crossing between two triangles that lie in their meshes, with its edge
/// a corner position.
pub open spec fn crossing_ok(
    first_face: usize,
    second_face: usize,
    intersection: TriangleEdgeIntersection,
    first_faces: Seq<[usize; 3]>,
    second_faces: Seq<[usize; 3]>,
) -> bool {
    first_face < first_faces.len() && second_face < second_faces.len() && intersection.edge[0] < 3
}

/// The record of one crossing: its edge turned so the crossed triangle lies
/// on its left, with that edge's left face, and the crossed triangle.
pub fn make_record(
    first_face: usize,
    second_face: usize,
    intersection: TriangleEdgeIntersection,
    first_faces: &Vec<[usize; 3]>,
    second_faces: &Vec<[usize; 3]>,
    first_topology: &MeshTopologyLite,
    second_topology: &MeshTopologyLite,
) -> (out: ExactContourIntersection)
    requires
        crossing_ok(first_face, second_face, intersection, first_faces@, second_faces@),
        first_topology.faces@ == first_faces@,
        second_topology.faces@ == second_faces@,
    ensures
        out == spec_make_record(first_face, second_face, intersection, first_faces@, second_faces@),
{
    match intersection.edge_owner {
        ExactTriangleOwner::First => {
            let directed = oriented_edge(
                first_topology,
                first_face,
                intersection.edge[0],
                intersection.d_is_left_from_triangle,
            );
            ExactContourIntersection {
                edge_owner: ExactTriangleOwner::First,
                edge: first_topology.edge_vertices(directed),
                edge_left_face: directed.left_face,
                triangle_owner: ExactTriangleOwner::Second,
                triangle_face: second_face,
                triangle: second_faces[second_face],
            }
        },
        ExactTriangleOwner::Second => {
            let directed = oriented_edge(
                second_topology,
                second_face,
                intersection.edge[0],
                intersection.d_is_left_from_triangle,
            );
            ExactContourIntersection {
                edge_owner: ExactTriangleOwner::Second,
                edge: second_topology.edge_vertices(directed),
                edge_left_face: directed.left_face,
                triangle_owner: ExactTriangleOwner::First,
                triangle_face: first_face,
                triangle: first_faces[first_face],
            }
        },
    }
}

/// Whether some record of `records` has key `key`.
pub open spec fn has_key(records: Seq<ExactContourIntersection>, key: RecordKey) -> bool {
    exists|i: int| 0 <= i < records.len() && spec_record_key(records[i]) == key
}

/// `records` extended by `more`, each record kept only when no kept record
/// has its key.
pub open spec fn keep_new_keys(
    records: Seq<ExactContourIntersection>,
    more: Seq<ExactContourIntersection>,
) -> Seq<ExactContourIntersection>
    decreases more.len(),
{
    if more.len() == 0 {
        records
    } else {
        let kept = keep_new_keys(records, more.drop_last());
        if has_key(kept, spec_record_key(more.last())) {
            kept
        } else {
            kept.push(more.last())
        }
    }
}

/// The records made from the crossings of one triangle pair.
pub open spec fn pair_records(
    pair: ExactMeshIntersection,
    first_faces: Seq<[usize; 3]>,
    second_faces: Seq<[usize; 3]>,
) -> Seq<ExactContourIntersection> {
    Seq::new(
        pair.intersections@.len(),
        |t: int| spec_make_record(pair.first_face, pair.second_face, pair.intersections@[t], first_faces, second_faces),
    )
}

/// The records of all triangle pairs, in order, first of each key kept.
pub open spec fn flattened(
    pairs: Seq<ExactMeshIntersection>,
    first_faces: Seq<[usize; 3]>,
    second_faces: Seq<[usize; 3]>,
) -> Seq<ExactContourIntersection>
    decreases pairs.len(),
{
    if pairs.len() == 0 {
        Seq::empty()
    } else {
        keep_new_keys(flattened(pairs.drop_last(), first_faces, second_faces), pair_records(pairs.last(), first_faces, second_faces))
    }
}

/// Whether some record of `records` has key `key`.
fn contains_key(records: &Vec<ExactContourIntersection>, key: RecordKey) -> (out: bool)
    ensures
        out == has_key(records@, key),
{
    let mut i: usize = 0;
    while i < records.len()
        invariant
            i <= records@.len(),
            forall|j: int| 0 <= j < i ==> spec_record_key(records@[j]) != key,
        decreases records@.len() - i,
    {
        if same_key(record_key(&records[i]), key) {
            return true;
        }
        i += 1;
    }
    false
}

/// Every crossing of every pair lies in the meshes.
pub open spec fn pairs_ok(
    pairs: Seq<ExactMeshIntersection>,
    first_faces: Seq<[usize; 3]>,
    second_faces: Seq<[usize; 3]>,
) -> bool {
    forall|p: int, t: int|
        0 <= p < pairs.len() && 0 <= t < pairs[p].intersections@.len() ==> crossing_ok(
            pairs[p].first_face,
            pairs[p].second_face,
            #[trigger] pairs[p].intersections@[t],
            first_faces,
            second_faces,
        )
}

/// The records of all crossings, pair by pair, keeping the first record of
/// each key.
pub fn flatten_intersections(
    intersections: &Vec<ExactMeshIntersection>,
    first_faces: &Vec<[usize; 3]>,
    second_faces: &Vec<[usize; 3]>,
    first_topology: &MeshTopologyLite,
    second_topology: &MeshTopologyLite,
) -> (records: Vec<ExactContourIntersection>)
    requires
        pairs_ok(intersections@, first_faces@, second_faces@),
        first_topology.faces@ == first_faces@,
        second_topology.faces@ == second_faces@,
    ensures
        records@ == flattened(intersections@, first_faces@, second_faces@),
{
    let mut records: Vec<ExactContourIntersection> = Vec::new();
    let mut p: usize = 0;
    while p < intersections.len()
        invariant
            p <= intersections@.len(),
            pairs_ok(intersections@, first_faces@, second_faces@),
            first_topology.faces@ == first_faces@,
            second_topology.faces@ == second_faces@,
            records@ == flattened(intersections@.subrange(0, p as int), first_faces@, second_faces@),
        decreases intersections@.len() - p,
    {
        let pair = &intersections[p];
        let ghost base = records@;
        let ghost made = pair_records(*pair, first_faces@, second_faces@);
        let mut t: usize = 0;
        while t < pair.intersections.len()
            invariant
                p < intersections@.len(),
                pair == &intersections@[p as int],
                made == pair_records(*pair, first_faces@, second_faces@),
                pairs_ok(intersections@, first_faces@, second_faces@),
                first_topology.faces@ == first_faces@,
                second_topology.faces@ == second_faces@,
                t <= pair.intersections@.len(),
                records@ == keep_new_keys(base, made.subrange(0, t as int)),
            decreases pair.intersections@.len() - t,
        {
            assert(crossing_ok(pair.first_face, pair.second_face, pair.intersections@[t as int], first_faces@, second_faces@));
            let record = make_record(
                pair.first_face,
                pair.second_face,
                pair.intersections[t],
                first_faces,
                second_faces,
                first_topology,
                second_topology,
            );
            let key = record_key(&record);
            proof {
                let next = made.subrange(0, t as int + 1);
                assert(next.drop_last() =~= made.subrange(0, t as int));
                assert(next.last() == record);
            }
            if !contains_key(&records, key) {
                records.push(record);
            }
            t += 1;
        }
        proof {
            let pre = intersections@.subrange(0, p as int);
            let post = intersections@.subrange(0, p as int + 1);
            assert(post.drop_last() =~= pre);
            assert(post.last() == *pair);
            assert(made.subrange(0, made.len() as int) =~= made);
        }
        p += 1;
    }
    assert(intersections@.subrange(0, intersections@.len() as int) =~= intersections@);
    records
}


/// A walk takes only crossings still free, each once.
proof fn lemma_walk_from_fresh(links: Seq<NeighborLinks>, queued: Seq<bool>, current: usize, start: usize, fuel: nat)
    ensures
        walk_from(links, queued, current, start, fuel).0.no_duplicates(),
        forall|t: int|
            0 <= t < walk_from(links, queued, current, start, fuel).0.len() ==> #[trigger] walk_from(
                links,
                queued,
                current,
                start,
                fuel,
            ).0[t] < queued.len() && queued[walk_from(links, queued, current, start, fuel).0[t] as int],
    decreases fuel,
{
    if fuel > 0 && current < links.len() && current < queued.len() && queued[current as int] {
        if let Some(nx) = links[current as int].next {
            if nx != start {
                let q2 = queued.update(current as int, false);
                lemma_walk_from_fresh(links, q2, nx, start, (fuel - 1) as nat);
                let rest = walk_from(links, q2, nx, start, (fuel - 1) as nat);
                let whole = walk_from(links, queued, current, start, fuel);
                assert(whole.0 == seq![current] + rest.0);
                assert forall|t: int| 0 <= t < whole.0.len() implies #[trigger] whole.0[t] < queued.len() && queued[whole.0[t] as int] by {
                    if t > 0 {
                        assert(whole.0[t] == rest.0[t - 1]);
                        assert(q2[rest.0[t - 1] as int]);
                    }
                }
                assert forall|a: int, b: int| 0 <= a < b < whole.0.len() implies whole.0[a] != whole.0[b] by {
                    assert(whole.0[b] == rest.0[b - 1]);
                    assert(q2[rest.0[b - 1] as int]);
                    if a > 0 {
                        assert(whole.0[a] == rest.0[a - 1]);
                    }
                }
            }
        }
    }
}

/// Every crossing on the contours found so far is in range and no longer
/// free, and sits on one place of one contour only.
proof fn lemma_runs_places(links: Seq<NeighborLinks>, s: nat)
    ensures
        ({
            let r = runs_upto(links, s);
            &&& forall|p: int, t: int|
                0 <= p < r.0.len() && 0 <= t < r.0[p].0.len() ==> (#[trigger] r.0[p].0[t]) < links.len() && !r.1[r.0[p].0[t] as int]
            &&& forall|p1: int, t1: int, p2: int, t2: int|
                0 <= p1 < r.0.len() && 0 <= t1 < r.0[p1].0.len() && 0 <= p2 < r.0.len() && 0 <= t2 < r.0[p2].0.len()
                    && #[trigger] r.0[p1].0[t1] == #[trigger] r.0[p2].0[t2] ==> p1 == p2 && t1 == t2
        }),
    decreases s,
{
    lemma_runs_len(links, s);
    if s > 0 {
        lemma_runs_places(links, (s - 1) as nat);
        lemma_runs_len(links, (s - 1) as nat);
        let prev = runs_upto(links, (s - 1) as nat);
        let seed = (s - 1) as usize;
        if !(seed >= links.len() || seed >= prev.1.len() || !prev.1[seed as int]) {
            let start = open_from(links, seed, seed, links.len() as nat);
            let walk = walk_from(links, prev.1, start, start, links.len() as nat + 1);
            lemma_walk_from_fresh(links, prev.1, start, start, links.len() as nat + 1);
            let r = runs_upto(links, s);
            assert(r.1 == marked(prev.1, walk.0));
            assert forall|p: int, t: int| 0 <= p < r.0.len() && 0 <= t < r.0[p].0.len() implies (#[trigger] r.0[p].0[t]) < links.len()
                && !r.1[r.0[p].0[t] as int] by {
                if p < prev.0.len() {
                    assert(r.0[p] == prev.0[p]);
                } else {
                    assert(r.0[p] == walk);
                    assert(walk.0.contains(walk.0[t]));
                }
            }
            assert forall|p1: int, t1: int, p2: int, t2: int|
                0 <= p1 < r.0.len() && 0 <= t1 < r.0[p1].0.len() && 0 <= p2 < r.0.len() && 0 <= t2 < r.0[p2].0.len()
                    && #[trigger] r.0[p1].0[t1] == #[trigger] r.0[p2].0[t2] implies p1 == p2 && t1 == t2 by {
                if p1 < prev.0.len() && p2 < prev.0.len() {
                    assert(r.0[p1] == prev.0[p1]);
                    assert(r.0[p2] == prev.0[p2]);
                } else if p1 < prev.0.len() {
                    assert(r.0[p1] == prev.0[p1]);
                    assert(!prev.1[prev.0[p1].0[t1] as int]);
                    assert(r.0[p2] == walk);
                } else if p2 < prev.0.len() {
                    assert(r.0[p2] == prev.0[p2]);
                    assert(!prev.1[prev.0[p2].0[t2] as int]);
                    assert(r.0[p1] == walk);
                } else {
                    assert(r.0[p1] == walk);
                    assert(r.0[p2] == walk);
                }
            }
        }
    }
}

/// No crossing lies on two contours, nor twice on one: each place on the
/// contours holds a crossing of the list, and two places hold the same
/// crossing only if they are the same place.
pub proof fn lemma_contours_disjoint(links: Seq<NeighborLinks>)
    ensures
        ({
            let runs = runs_upto(links, links.len() as nat).0;
            &&& forall|p: int, t: int| 0 <= p < runs.len() && 0 <= t < runs[p].0.len() ==> (#[trigger] runs[p].0[t]) < links.len()
            &&& forall|p1: int, t1: int, p2: int, t2: int|
                0 <= p1 < runs.len() && 0 <= t1 < runs[p1].0.len() && 0 <= p2 < runs.len() && 0 <= t2 < runs[p2].0.len()
                    && #[trigger] runs[p1].0[t1] == #[trigger] runs[p2].0[t2] ==> p1 == p2 && t1 == t2
        }),
{
    lemma_runs_places(links, links.len() as nat);
}

/// The follower found from the directed edge `current` of the record's
/// edge mesh: in the face on its left, the first crossing of the same
/// triangle on a candidate edge after it, else the first crossing of that
/// face on a candidate edge of the triangle.
pub open spec fn follower_from(
    records: Seq<ExactContourIntersection>,
    first: Seq<[usize; 3]>,
    second: Seq<[usize; 3]>,
    record: ExactContourIntersection,
    current: Option<DirectedEdge>,
) -> Option<usize> {
    let edge_faces = owner_faces(record.edge_owner, first, second);
    let tri_faces = owner_faces(record.triangle_owner, first, second);
    match current {
        None => None,
        Some(c) => match c.left_face {
            None => None,
            Some(left) => match first_hit(records, spec_successors(edge_faces, c), 0, record.edge_owner, record.triangle_face) {
                Some(i) => Some(i),
                None => first_hit(
                    records,
                    spec_triangle_successors(tri_faces, record.triangle_face as int),
                    0,
                    record.triangle_owner,
                    left,
                ),
            },
        },
    }
}

/// A contour runs the same way through the crossings of both meshes: the
/// follower of a crossing on an edge of the first mesh is searched from
/// that edge as the record walks it, in the last face walking it; the
/// follower of a crossing on an edge of the second mesh is searched from
/// the record's edge walked the other way, in the last face walking it
/// backwards.
pub proof fn lemma_follower_direction(
    records: Seq<ExactContourIntersection>,
    first: Seq<[usize; 3]>,
    second: Seq<[usize; 3]>,
    record: ExactContourIntersection,
)
    ensures
        record.edge_owner == ExactTriangleOwner::First ==> spec_find_next(records, first, second, record) == follower_from(
            records,
            first,
            second,
            record,
            topo_edge(first, record.edge),
        ),
        record.edge_owner == ExactTriangleOwner::Second ==> spec_find_next(records, first, second, record) == follower_from(
            records,
            first,
            second,
            record,
            topo_edge(second, spec_reverse(record.edge)),
        ),
        topo_edge(first, record.edge) matches Some(d) ==> d.from == record.edge[0] && d.to == record.edge[1] && d.left_face
            == last_walker(first, record.edge),
        topo_edge(second, spec_reverse(record.edge)) matches Some(d) ==> d.from == record.edge[1] && d.to == record.edge[0]
            && d.left_face == last_walker(second, spec_reverse(record.edge)),
{
    let e = record.edge;
    assert(spec_reverse(spec_reverse(e)) =~= e);
    if record.edge_owner == ExactTriangleOwner::Second {
        match topo_edge(second, e) {
            None => {
                assert(topo_edge(second, spec_reverse(e)) is None);
            },
            Some(stored) => {
                assert([stored.to, stored.from] =~= spec_reverse(e));
                assert(spec_sym(second, stored) == topo_edge(second, spec_reverse(e)));
                assert(topo_edge(second, spec_reverse(e)) is Some);
            },
        }
    }
}

} // verus!
