//! Splitting a cut mesh into face components and telling which side of the
//! cut paths each component lies on.
use vstd::prelude::*;
pub mod components;
pub mod orientation_flip;
pub mod side_details;
pub mod selection;

use crate::edge::{
    contains_index, extend_sorted, face_edges, face_has_directed, find_edge, increasing, insert_sorted,
    reverse_edge, same_edge, spec_face_edges, spec_reverse,
};

verus! {

/// For each directed edge, the faces that walk it.
pub struct DirectedFaceMap {
    pub edges: Vec<[usize; 2]>,
    pub faces: Vec<Vec<usize>>,
}

impl DirectedFaceMap {
    /// Keys are distinct and every key has its list of faces.
    pub open spec fn wf(&self) -> bool {
        &&& self.edges.len() == self.faces.len()
        &&& self.edges@.no_duplicates()
    }

    /// The position of a key.
    pub open spec fn key_index(&self, e: [usize; 2]) -> int {
        choose|i: int| 0 <= i < self.edges@.len() && self.edges@[i] == e
    }

    /// The faces recorded for a directed edge; empty when the edge is not a key.
    pub open spec fn faces_of(&self, e: [usize; 2]) -> Seq<usize> {
        if self.edges@.contains(e) {
            self.faces@[self.key_index(e)]@
        } else {
            Seq::empty()
        }
    }

    /// The faces recorded for `e`, if `e` is a key.
    pub fn get(&self, e: [usize; 2]) -> (out: Option<&Vec<usize>>)
        requires
            self.wf(),
        ensures
            out matches Some(v) ==> self.edges@.contains(e) && v@ == self.faces_of(e),
            out is None ==> !self.edges@.contains(e) && self.faces_of(e).len() == 0,
    {
        let mut i: usize = 0;
        while i < self.edges.len()
            invariant
                self.wf(),
                i <= self.edges.len(),
                forall|j: int| 0 <= j < i ==> self.edges@[j] != e,
            decreases self.edges.len() - i,
        {
            if same_edge(self.edges[i], e) {
                proof {
                    lemma_key_index(self, i as int);
                }
                return Some(&self.faces[i]);
            }
            i += 1;
        }
        None
    }
}

/// In a map with distinct keys, the key at position `i` is found at `i`.
pub proof fn lemma_key_index(m: &DirectedFaceMap, i: int)
    requires
        m.wf(),
        0 <= i < m.edges@.len(),
    ensures
        m.edges@.contains(m.edges@[i]),
        m.key_index(m.edges@[i]) == i,
{
    let e = m.edges@[i];
    assert(m.edges@[i] == e);
    let k = m.key_index(e);
    assert(0 <= k < m.edges@.len() && m.edges@[k] == e);
}

/// Whether the directed edge `e` has a face of `faces` walking it.
pub open spec fn edge_in_faces(faces: Seq<[usize; 3]>, e: [usize; 2]) -> bool {
    exists|g: int| 0 <= g < faces.len() && face_has_directed(faces[g], e)
}

/// Records, for each directed edge of `faces`, the faces that walk it.
pub fn directed_face_map(faces: &Vec<[usize; 3]>) -> (out: DirectedFaceMap)
    ensures
        out.wf(),
        forall|e: [usize; 2]| out.edges@.contains(e) <==> edge_in_faces(faces@, e),
        forall|e: [usize; 2], g: usize|
            out.faces_of(e).contains(g) <==> (g < faces@.len() && face_has_directed(
                faces@[g as int],
                e,
            )),
{
    let mut out = DirectedFaceMap { edges: Vec::new(), faces: Vec::new() };
    let mut f: usize = 0;
    while f < faces.len()
        invariant
            out.wf(),
            f <= faces.len(),
            forall|i: int| 0 <= i < out.faces@.len() ==> out.faces@[i]@.len() > 0,
            forall|e: [usize; 2], g: usize|
                out.faces_of(e).contains(g) <==> (g < f && face_has_directed(faces@[g as int], e)),
        decreases faces.len() - f,
    {
        let fe = face_edges(faces[f]);
        let mut k: usize = 0;
        while k < 3
            invariant
                out.wf(),
                f < faces.len(),
                k <= 3,
                fe == spec_face_edges(faces@[f as int]),
                forall|i: int| 0 <= i < out.faces@.len() ==> out.faces@[i]@.len() > 0,
                forall|e: [usize; 2], g: usize|
                    out.faces_of(e).contains(g) <==> ((g < f && face_has_directed(
                        faces@[g as int],
                        e,
                    )) || (g == f && exists|j: int| 0 <= j < k && fe[j] == e)),
            decreases 3 - k,
        {
            let e = fe[k];
            let ghost old_out = out;
            let i = find_edge(&out.edges, e);
            if i < out.edges.len() {
                proof {
                    lemma_key_index(&out, i as int);
                }
                let ghost old_list = out.faces@[i as int];
                let mut list: Vec<usize> = Vec::new();
                std::mem::swap(&mut list, &mut out.faces[i]);
                assert(list == old_list);
                list.push(f);
                out.faces.set(i, list);
                proof {
                    assert(out.edges@ == old_out.edges@);
                    assert(out.faces@[i as int]@ == old_list@.push(f));
                    assert forall|j: int| 0 <= j < out.faces@.len() && j != i implies out.faces@[j]
                        == old_out.faces@[j] by {}
                    assert(out.faces@.len() == old_out.faces@.len());
                    assert forall|x: [usize; 2]| x != e implies out.faces_of(x) == old_out.faces_of(
                        x,
                    ) by {
                        if out.edges@.contains(x) {
                            let j = choose|j: int| 0 <= j < out.edges@.len() && out.edges@[j] == x;
                            lemma_key_index(&out, j);
                            lemma_key_index(&old_out, j);
                            assert(j != i);
                        }
                    }
                    lemma_key_index(&out, i as int);
                    lemma_key_index(&old_out, i as int);
                    assert(out.faces_of(e) == old_out.faces_of(e).push(f));
                }
            } else {
                out.edges.push(e);
                out.faces.push(vec![f]);
                proof {
                    assert(!old_out.edges@.contains(e));
                    assert(out.edges@.no_duplicates()) by {
                        assert forall|a: int, b: int|
                            0 <= a < out.edges@.len() && 0 <= b < out.edges@.len() && a != b
                                implies out.edges@[a] != out.edges@[b] by {
                            if a < old_out.edges@.len() && b < old_out.edges@.len() {
                            } else if a == old_out.edges@.len() {
                                assert(old_out.edges@[b] != e);
                            } else {
                                assert(old_out.edges@[a] != e);
                            }
                        }
                    }
                    assert forall|x: [usize; 2]| x != e implies out.faces_of(x) == old_out.faces_of(
                        x,
                    ) by {
                        if old_out.edges@.contains(x) {
                            let j = old_out.key_index(x);
                            lemma_key_index(&old_out, j);
                            assert(out.edges@[j] == x);
                            lemma_key_index(&out, j);
                        } else {
                            assert(!out.edges@.contains(x)) by {
                                if out.edges@.contains(x) {
                                    let j = choose|j: int|
                                        0 <= j < out.edges@.len() && out.edges@[j] == x;
                                    assert(j < old_out.edges@.len());
                                }
                            }
                        }
                    }
                    let last = old_out.edges@.len() as int;
                    lemma_key_index(&out, last);
                    assert(out.faces_of(e) =~= seq![f]);
                    assert(old_out.faces_of(e) =~= Seq::<usize>::empty());
                }
            }
            proof {
                assert forall|x: [usize; 2], g: usize|
                    out.faces_of(x).contains(g) <==> ((g < f && face_has_directed(
                        faces@[g as int],
                        x,
                    )) || (g == f && exists|j: int| 0 <= j < k + 1 && fe[j] == x)) by {
                    if x == e {
                        assert(out.faces_of(x) =~= old_out.faces_of(x).push(f));
                        if g == f {
                            assert(fe[k as int] == x);
                            assert(out.faces_of(x)[out.faces_of(x).len() - 1] == g);
                        } else {
                            if out.faces_of(x).contains(g) {
                                let t = choose|t: int|
                                    0 <= t < out.faces_of(x).len() && out.faces_of(x)[t] == g;
                                assert(t < old_out.faces_of(x).len());
                                assert(old_out.faces_of(x).contains(g));
                            }
                            if old_out.faces_of(x).contains(g) {
                                let t = choose|t: int|
                                    0 <= t < old_out.faces_of(x).len() && old_out.faces_of(x)[t]
                                        == g;
                                assert(out.faces_of(x)[t] == g);
                            }
                        }
                    } else {
                        if g == f && exists|j: int| 0 <= j < k + 1 && fe[j] == x {
                            let j = choose|j: int| 0 <= j < k + 1 && fe[j] == x;
                            assert(j < k);
                            assert(exists|j: int| 0 <= j < k && fe[j] == x);
                        }
                        if g == f && exists|j: int| 0 <= j < k && fe[j] == x {
                            let j = choose|j: int| 0 <= j < k && fe[j] == x;
                            assert(exists|j: int| 0 <= j < k + 1 && fe[j] == x);
                        }
                    }
                }
            }
            k += 1;
        }
        proof {
            assert forall|x: [usize; 2], g: usize|
                out.faces_of(x).contains(g) <==> (g < f + 1 && face_has_directed(
                    faces@[g as int],
                    x,
                )) by {
                if g == f {
                    if face_has_directed(faces@[g as int], x) {
                        if fe[0] == x {
                        } else if fe[1] == x {
                        } else {
                            assert(fe[2] == x);
                        }
                    }
                }
            }
        }
        f += 1;
    }
    proof {
        assert forall|e: [usize; 2]| out.edges@.contains(e) <==> edge_in_faces(faces@, e) by {
            if out.edges@.contains(e) {
                let i = choose|i: int| 0 <= i < out.edges@.len() && out.edges@[i] == e;
                lemma_key_index(&out, i);
                let g = out.faces@[i]@[0];
                assert(out.faces_of(e).contains(g));
                assert(face_has_directed(faces@[g as int], e));
            }
            if edge_in_faces(faces@, e) {
                let g = choose|g: int| 0 <= g < faces@.len() && face_has_directed(faces@[g], e);
                assert(out.faces_of(e).contains(g as usize));
            }
        }
    }
    out
}


/// The component of face `g`, when `g` is in range and has one.
pub open spec fn face_component(face_to_component: Seq<Option<usize>>, g: usize) -> Option<usize> {
    if g < face_to_component.len() {
        face_to_component[g as int]
    } else {
        None
    }
}

/// For each face below `face_count`, the last component that lists it.
pub fn face_to_component_map(face_count: usize, components: &Vec<Vec<usize>>) -> (out: Vec<
    Option<usize>,
>)
    ensures
        out@.len() == face_count,
        forall|f: int|
            0 <= f < face_count ==> match #[trigger] out@[f] {
                Some(c) => c < components@.len() && components@[c as int]@.contains(f as usize)
                    && forall|d: int|
                    c < d < components@.len() ==> !components@[d]@.contains(f as usize),
                None => forall|d: int|
                    0 <= d < components@.len() ==> !components@[d]@.contains(f as usize),
            },
{
    let mut out: Vec<Option<usize>> = Vec::new();
    let mut i: usize = 0;
    while i < face_count
        invariant
            i <= face_count,
            out@.len() == i,
            forall|f: int| 0 <= f < i ==> out@[f] is None,
        decreases face_count - i,
    {
        out.push(None);
        i += 1;
    }
    let mut c: usize = 0;
    while c < components.len()
        invariant
            c <= components.len(),
            out@.len() == face_count,
            forall|f: int|
                0 <= f < face_count ==> match #[trigger] out@[f] {
                    Some(k) => k < c && components@[k as int]@.contains(f as usize) && forall|
                        d: int,
                    |
                        k < d < c ==> !components@[d]@.contains(f as usize),
                    None => forall|d: int| 0 <= d < c ==> !components@[d]@.contains(f as usize),
                },
        decreases components.len() - c,
    {
        let component = &components[c];
        let ghost before = out@;
        let mut j: usize = 0;
        while j < component.len()
            invariant
                c < components.len(),
                component == &components@[c as int],
                j <= component.len(),
                out@.len() == face_count,
                forall|f: int|
                    0 <= f < face_count ==> #[trigger] out@[f] == if exists|t: int|
                        0 <= t < j && component@[t] == f as usize {
                        Some(c)
                    } else {
                        before[f]
                    },
            decreases component.len() - j,
        {
            let face = component[j];
            if face < out.len() {
                out.set(face, Some(c));
            }
            proof {
                assert forall|f: int| 0 <= f < face_count implies #[trigger] out@[f] == if exists|
                    t: int,
                | 0 <= t < j + 1 && component@[t] == f as usize {
                    Some(c)
                } else {
                    before[f]
                } by {
                    if f == face as int {
                        assert(component@[j as int] == f as usize);
                    } else if exists|t: int| 0 <= t < j + 1 && component@[t] == f as usize {
                        let t = choose|t: int| 0 <= t < j + 1 && component@[t] == f as usize;
                        assert(t < j);
                    }
                }
            }
            j += 1;
        }
        proof {
            assert forall|f: int|
                0 <= f < face_count implies match #[trigger] out@[f] {
                Some(k) => k < c + 1 && components@[k as int]@.contains(f as usize) && forall|
                    d: int,
                |
                    k < d < c + 1 ==> !components@[d]@.contains(f as usize),
                None => forall|d: int| 0 <= d < c + 1 ==> !components@[d]@.contains(f as usize),
            } by {
                if exists|t: int| 0 <= t < component@.len() && component@[t] == f as usize {
                    let t = choose|t: int| 0 <= t < component@.len() && component@[t] == f as usize;
                    assert(components@[c as int]@.contains(f as usize));
                } else {
                    assert(!components@[c as int]@.contains(f as usize));
                }
            }
        }
        c += 1;
    }
    out
}

/// Components found on the left and on the right of one cut path.
pub struct PathCutSideComponents {
    pub left_components: Vec<usize>,
    pub right_components: Vec<usize>,
}

/// Components found on the left and on the right of all cut paths together.
pub struct CutPathSideComponents {
    pub left_components: Vec<usize>,
    pub right_components: Vec<usize>,
}

impl PathCutSideComponents {
    /// Both sides are ascending sets.
    pub open spec fn wf(&self) -> bool {
        increasing(self.left_components@) && increasing(self.right_components@)
    }
}

impl CutPathSideComponents {
    /// Both sides are ascending sets.
    pub open spec fn wf(&self) -> bool {
        increasing(self.left_components@) && increasing(self.right_components@)
    }

    /// The components found on both sides.
    pub open spec fn overlap(&self) -> Set<usize> {
        self.left_components@.to_set().intersect(self.right_components@.to_set())
    }

    /// Whether no component lies on both sides.
    pub fn consistent(&self) -> (out: bool)
        requires
            self.wf(),
        ensures
            out == (self.overlap().len() == 0),
    {
        self.overlap_count() == 0
    }

    /// One when some component lies on the left, else zero.
    pub fn left_root_count(&self) -> (out: usize)
        ensures
            out == (if self.left_components@.len() > 0 { 1usize } else { 0usize }),
    {
        if self.left_components.len() > 0 {
            1
        } else {
            0
        }
    }

    /// One when some component lies on the right, else zero.
    pub fn right_root_count(&self) -> (out: usize)
        ensures
            out == (if self.right_components@.len() > 0 { 1usize } else { 0usize }),
    {
        if self.right_components.len() > 0 {
            1
        } else {
            0
        }
    }

    /// The number of components that lie on both sides.
    pub fn overlap_count(&self) -> (out: usize)
        requires
            self.wf(),
        ensures
            out == self.overlap().len(),
    {
        let left = &self.left_components;
        let mut count: usize = 0;
        let mut i: usize = 0;
        let ghost mut shared: Seq<usize> = Seq::empty();
        while i < left.len()
            invariant
                self.wf(),
                left == &self.left_components,
                i <= left.len(),
                count == shared.len(),
                count <= i,
                shared.no_duplicates(),
                forall|x: usize|
                    shared.contains(x) <==> ((exists|u: int| 0 <= u < i && left@[u] == x)
                        && self.right_components@.contains(x)),
            decreases left.len() - i,
        {
            let x = left[i];
            if contains_index(&self.right_components, x) {
                proof {
                    assert(!shared.contains(x)) by {
                        if shared.contains(x) {
                            let u = choose|u: int| 0 <= u < i && left@[u] == x;
                            assert(left@[u] < left@[i as int]);
                        }
                    }
                    let ghost old_shared = shared;
                    shared = shared.push(x);
                    assert forall|y: usize| shared.contains(y) <==> (old_shared.contains(y) || y == x) by {
                        if shared.contains(y) {
                            let t = choose|t: int| 0 <= t < shared.len() && shared[t] == y;
                            if t < old_shared.len() {
                                assert(old_shared[t] == y);
                            }
                        }
                        if old_shared.contains(y) {
                            let t = choose|t: int| 0 <= t < old_shared.len() && old_shared[t] == y;
                            assert(shared[t] == y);
                        }
                        if y == x {
                            assert(shared[old_shared.len() as int] == y);
                        }
                    }
                    assert forall|y: usize|
                        shared.contains(y) <==> ((exists|u: int| 0 <= u < i + 1 && left@[u] == y)
                            && self.right_components@.contains(y)) by {
                        if exists|u: int| 0 <= u < i + 1 && left@[u] == y {
                            let u = choose|u: int| 0 <= u < i + 1 && left@[u] == y;
                            if u < i {
                                assert(exists|u: int| 0 <= u < i && left@[u] == y);
                            }
                        }
                        if exists|u: int| 0 <= u < i && left@[u] == y {
                            let u = choose|u: int| 0 <= u < i && left@[u] == y;
                            assert(exists|u: int| 0 <= u < i + 1 && left@[u] == y);
                        }
                        if y == x {
                            assert(left@[i as int] == y);
                        }
                    }
                }
                count += 1;
            } else {
                proof {
                    assert forall|y: usize|
                        shared.contains(y) <==> ((exists|u: int| 0 <= u < i + 1 && left@[u] == y)
                            && self.right_components@.contains(y)) by {
                        if exists|u: int| 0 <= u < i + 1 && left@[u] == y {
                            let u = choose|u: int| 0 <= u < i + 1 && left@[u] == y;
                            if u < i {
                                assert(exists|u: int| 0 <= u < i && left@[u] == y);
                            }
                        }
                        if exists|u: int| 0 <= u < i && left@[u] == y {
                            let u = choose|u: int| 0 <= u < i && left@[u] == y;
                            assert(exists|u: int| 0 <= u < i + 1 && left@[u] == y);
                        }
                    }
                }
            }
            i += 1;
        }
        proof {
            assert(shared.to_set() =~= self.overlap()) by {
                assert forall|y: usize| shared.to_set().contains(y) <==> self.overlap().contains(y) by {
                    if left@.contains(y) {
                        let u = choose|u: int| 0 <= u < left@.len() && left@[u] == y;
                        assert(exists|u: int| 0 <= u < i && left@[u] == y);
                    }
                }
            }
            shared.unique_seq_to_set();
        }
        count
    }
}


/// Whether some face walking `e` belongs to component `c`.
pub open spec fn edge_side_has(
    d: &DirectedFaceMap,
    face_to_component: Seq<Option<usize>>,
    e: [usize; 2],
    c: usize,
) -> bool {
    exists|k: int|
        0 <= k < d.faces_of(e).len() && face_component(face_to_component, d.faces_of(e)[k])
            == Some(c)
}

/// The edge as walked on the chosen side: itself on the left, reversed on the right.
pub open spec fn side_edge(e: [usize; 2], left: bool) -> [usize; 2] {
    if left {
        e
    } else {
        spec_reverse(e)
    }
}

/// Whether component `c` lies on the left (or, with `left` false, the right)
/// of some edge of `path`.
pub open spec fn path_side_has(
    path: Seq<[usize; 2]>,
    d: &DirectedFaceMap,
    face_to_component: Seq<Option<usize>>,
    left: bool,
    c: usize,
) -> bool {
    exists|j: int|
        0 <= j < path.len() && #[trigger] edge_side_has(
            d,
            face_to_component,
            side_edge(path[j], left),
            c,
        )
}

/// Adds to `set` the components of the listed faces.
fn add_face_components(
    faces: &Vec<usize>,
    face_to_component: &Vec<Option<usize>>,
    set: &mut Vec<usize>,
)
    requires
        increasing(old(set)@),
    ensures
        increasing(final(set)@),
        forall|c: usize|
            final(set)@.contains(c) <==> (old(set)@.contains(c) || exists|k: int|
                0 <= k < faces@.len() && face_component(face_to_component@, faces@[k]) == Some(c)),
{
    let mut k: usize = 0;
    while k < faces.len()
        invariant
            k <= faces.len(),
            increasing(set@),
            forall|c: usize|
                set@.contains(c) <==> (old(set)@.contains(c) || exists|t: int|
                    0 <= t < k && face_component(face_to_component@, faces@[t]) == Some(c)),
        decreases faces.len() - k,
    {
        let face = faces[k];
        let ghost before = set@;
        if face < face_to_component.len() {
            if let Some(component) = face_to_component[face] {
                insert_sorted(set, component);
            }
        }
        proof {
            assert forall|c: usize|
                set@.contains(c) <==> (old(set)@.contains(c) || exists|t: int|
                    0 <= t < k + 1 && face_component(face_to_component@, faces@[t]) == Some(c)) by {
                assert(set@.contains(c) <==> set@.to_set().contains(c));
                assert(before.contains(c) <==> before.to_set().contains(c));
                if exists|t: int|
                    0 <= t < k + 1 && face_component(face_to_component@, faces@[t]) == Some(c) {
                    let t = choose|t: int|
                        0 <= t < k + 1 && face_component(face_to_component@, faces@[t]) == Some(c);
                    if t < k {
                        assert(exists|t: int|
                            0 <= t < k && face_component(face_to_component@, faces@[t]) == Some(c));
                    }
                }
                if exists|t: int|
                    0 <= t < k && face_component(face_to_component@, faces@[t]) == Some(c) {
                    let t = choose|t: int|
                        0 <= t < k && face_component(face_to_component@, faces@[t]) == Some(c);
                    assert(exists|t: int|
                        0 <= t < k + 1 && face_component(face_to_component@, faces@[t]) == Some(c));
                }
            }
        }
        k += 1;
    }
}

/// Adds to `left_components` the components of faces that walk `edge`, and
/// to `right_components` those of faces that walk it the other way.
pub fn collect_edge_side_components(
    edge: [usize; 2],
    directed_faces: &DirectedFaceMap,
    face_to_component: &Vec<Option<usize>>,
    left_components: &mut Vec<usize>,
    right_components: &mut Vec<usize>,
)
    requires
        directed_faces.wf(),
        increasing(old(left_components)@),
        increasing(old(right_components)@),
    ensures
        increasing(final(left_components)@),
        increasing(final(right_components)@),
        forall|c: usize|
            final(left_components)@.contains(c) <==> (old(left_components)@.contains(c)
                || edge_side_has(directed_faces, face_to_component@, edge, c)),
        forall|c: usize|
            final(right_components)@.contains(c) <==> (old(right_components)@.contains(c)
                || edge_side_has(directed_faces, face_to_component@, spec_reverse(edge), c)),
{
    if let Some(faces) = directed_faces.get(edge) {
        add_face_components(faces, face_to_component, left_components);
    }
    let reversed = reverse_edge(edge);
    if let Some(faces) = directed_faces.get(reversed) {
        add_face_components(faces, face_to_component, right_components);
    }
}

/// For each cut path, the components on its left and on its right.
pub fn path_cut_side_components(
    cut_edge_paths: &Vec<Vec<[usize; 2]>>,
    directed_faces: &DirectedFaceMap,
    face_to_component: &Vec<Option<usize>>,
) -> (out: Vec<PathCutSideComponents>)
    requires
        directed_faces.wf(),
    ensures
        out@.len() == cut_edge_paths@.len(),
        forall|i: int| 0 <= i < out@.len() ==> (#[trigger] out@[i]).wf(),
        forall|i: int, c: usize|
            0 <= i < out@.len() ==> (#[trigger] out@[i].left_components@.contains(c)
                <==> path_side_has(cut_edge_paths@[i]@, directed_faces, face_to_component@, true, c)),
        forall|i: int, c: usize|
            0 <= i < out@.len() ==> (#[trigger] out@[i].right_components@.contains(c)
                <==> path_side_has(cut_edge_paths@[i]@, directed_faces, face_to_component@, false, c)),
{
    let mut out: Vec<PathCutSideComponents> = Vec::new();
    let mut i: usize = 0;
    while i < cut_edge_paths.len()
        invariant
            directed_faces.wf(),
            i <= cut_edge_paths.len(),
            out@.len() == i,
            forall|p: int| 0 <= p < out@.len() ==> (#[trigger] out@[p]).wf(),
            forall|p: int, c: usize|
                0 <= p < out@.len() ==> (#[trigger] out@[p].left_components@.contains(c)
                    <==> path_side_has(cut_edge_paths@[p]@, directed_faces, face_to_component@, true, c)),
            forall|p: int, c: usize|
                0 <= p < out@.len() ==> (#[trigger] out@[p].right_components@.contains(c)
                    <==> path_side_has(cut_edge_paths@[p]@, directed_faces, face_to_component@, false, c)),
        decreases cut_edge_paths.len() - i,
    {
        let path = &cut_edge_paths[i];
        let mut left_components: Vec<usize> = Vec::new();
        let mut right_components: Vec<usize> = Vec::new();
        let mut j: usize = 0;
        while j < path.len()
            invariant
                directed_faces.wf(),
                i < cut_edge_paths.len(),
                path == &cut_edge_paths@[i as int],
                j <= path.len(),
                increasing(left_components@),
                increasing(right_components@),
                forall|c: usize|
                    left_components@.contains(c) <==> path_side_has(
                        path@.subrange(0, j as int),
                        directed_faces,
                        face_to_component@,
                        true,
                        c,
                    ),
                forall|c: usize|
                    right_components@.contains(c) <==> path_side_has(
                        path@.subrange(0, j as int),
                        directed_faces,
                        face_to_component@,
                        false,
                        c,
                    ),
            decreases path.len() - j,
        {
            let ghost prefix = path@.subrange(0, j as int);
            let ghost next = path@.subrange(0, j + 1);
            collect_edge_side_components(
                path[j],
                directed_faces,
                face_to_component,
                &mut left_components,
                &mut right_components,
            );
            proof {
                assert forall|c: usize, left: bool|
                    path_side_has(next, directed_faces, face_to_component@, left, c) <==> (
                    path_side_has(prefix, directed_faces, face_to_component@, left, c)
                        || edge_side_has(
                        directed_faces,
                        face_to_component@,
                        side_edge(path@[j as int], left),
                        c,
                    )) by {
                    if path_side_has(next, directed_faces, face_to_component@, left, c) {
                        let t = choose|t: int|
                            0 <= t < next.len() && #[trigger] edge_side_has(
                                directed_faces,
                                face_to_component@,
                                side_edge(next[t], left),
                                c,
                            );
                        if t < j {
                            assert(prefix[t] == next[t]);
                        }
                    }
                    if path_side_has(prefix, directed_faces, face_to_component@, left, c) {
                        let t = choose|t: int|
                            0 <= t < prefix.len() && #[trigger] edge_side_has(
                                directed_faces,
                                face_to_component@,
                                side_edge(prefix[t], left),
                                c,
                            );
                        assert(prefix[t] == next[t]);
                    }
                    assert(next[j as int] == path@[j as int]);
                }
            }
            j += 1;
        }
        proof {
            assert(path@.subrange(0, path@.len() as int) =~= path@);
        }
        out.push(PathCutSideComponents { left_components, right_components });
        i += 1;
    }
    out
}

/// Gathers the components that some cut path has on its left, and those that
/// some cut path has on its right.
pub fn merge_path_sides(path_sides: &Vec<PathCutSideComponents>) -> (out: CutPathSideComponents)
    requires
        forall|i: int| 0 <= i < path_sides@.len() ==> (#[trigger] path_sides@[i]).wf(),
    ensures
        out.wf(),
        forall|c: usize|
            out.left_components@.contains(c) <==> exists|i: int|
                0 <= i < path_sides@.len() && (#[trigger] path_sides@[i]).left_components@.contains(c),
        forall|c: usize|
            out.right_components@.contains(c) <==> exists|i: int|
                0 <= i < path_sides@.len() && (#[trigger] path_sides@[i]).right_components@.contains(c),
{
    let mut left_components: Vec<usize> = Vec::new();
    let mut right_components: Vec<usize> = Vec::new();
    let mut i: usize = 0;
    while i < path_sides.len()
        invariant
            i <= path_sides.len(),
            forall|p: int| 0 <= p < path_sides@.len() ==> (#[trigger] path_sides@[p]).wf(),
            increasing(left_components@),
            increasing(right_components@),
            forall|c: usize|
                left_components@.contains(c) <==> exists|p: int|
                    0 <= p < i && (#[trigger] path_sides@[p]).left_components@.contains(c),
            forall|c: usize|
                right_components@.contains(c) <==> exists|p: int|
                    0 <= p < i && (#[trigger] path_sides@[p]).right_components@.contains(c),
        decreases path_sides.len() - i,
    {
        let side = &path_sides[i];
        extend_sorted(&mut left_components, &side.left_components);
        extend_sorted(&mut right_components, &side.right_components);
        proof {
            assert forall|c: usize|
                left_components@.contains(c) <==> exists|p: int|
                    0 <= p < i + 1 && (#[trigger] path_sides@[p]).left_components@.contains(c) by {
                if exists|p: int|
                    0 <= p < i + 1 && (#[trigger] path_sides@[p]).left_components@.contains(c) {
                    let p = choose|p: int|
                        0 <= p < i + 1 && (#[trigger] path_sides@[p]).left_components@.contains(c);
                    if p < i {
                        assert(exists|p: int|
                            0 <= p < i && (#[trigger] path_sides@[p]).left_components@.contains(c));
                    }
                }
                if exists|p: int|
                    0 <= p < i && (#[trigger] path_sides@[p]).left_components@.contains(c) {
                    let p = choose|p: int|
                        0 <= p < i && (#[trigger] path_sides@[p]).left_components@.contains(c);
                    assert(exists|p: int|
                        0 <= p < i + 1 && (#[trigger] path_sides@[p]).left_components@.contains(c));
                }
                if side.left_components@.contains(c) {
                    assert(path_sides@[i as int].left_components@.contains(c));
                }
            }
            assert forall|c: usize|
                right_components@.contains(c) <==> exists|p: int|
                    0 <= p < i + 1 && (#[trigger] path_sides@[p]).right_components@.contains(c) by {
                if exists|p: int|
                    0 <= p < i + 1 && (#[trigger] path_sides@[p]).right_components@.contains(c) {
                    let p = choose|p: int|
                        0 <= p < i + 1 && (#[trigger] path_sides@[p]).right_components@.contains(c);
                    if p < i {
                        assert(exists|p: int|
                            0 <= p < i && (#[trigger] path_sides@[p]).right_components@.contains(c));
                    }
                }
                if exists|p: int|
                    0 <= p < i && (#[trigger] path_sides@[p]).right_components@.contains(c) {
                    let p = choose|p: int|
                        0 <= p < i && (#[trigger] path_sides@[p]).right_components@.contains(c);
                    assert(exists|p: int|
                        0 <= p < i + 1 && (#[trigger] path_sides@[p]).right_components@.contains(c));
                }
                if side.right_components@.contains(c) {
                    assert(path_sides@[i as int].right_components@.contains(c));
                }
            }
        }
        i += 1;
    }
    CutPathSideComponents { left_components, right_components }
}

} // verus!
