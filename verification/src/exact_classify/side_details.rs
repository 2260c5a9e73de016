//! Which components lie on which side of the cut paths, and the faces of
//! those components.
use vstd::prelude::*;

use crate::edge::{edges_increasing, face_has_directed, increasing, insert_sorted};
use crate::exact_classify::components::{
    adjacency_ok, component_cut_edges, components_ok, connected_components_excluding_cut_edges,
    cut_path_edges, orders_to,
};
use crate::exact_classify::orientation_flip::{
    normalized_sides, orientation_normalized_path_sides, valid_side_coloring,
};
use crate::exact_classify::{
    directed_face_map, edge_in_faces, face_to_component_map, merge_path_sides,
    path_cut_side_components, path_side_has, CutPathSideComponents, DirectedFaceMap,
    PathCutSideComponents,
};
use crate::mesh::{first_face_error, checked_faces, validate_faces, GeometryError};

verus! {

/// `d` records, for each directed edge of `faces`, the faces that walk it.
pub open spec fn directed_map_of(faces: Seq<[usize; 3]>, d: DirectedFaceMap) -> bool {
    &&& d.wf()
    &&& forall|e: [usize; 2]| d.edges@.contains(e) <==> edge_in_faces(faces, e)
    &&& forall|e: [usize; 2], g: usize|
        d.faces_of(e).contains(g) <==> (g < faces.len() && face_has_directed(faces[g as int], e))
}

/// `m` gives each face below `face_count` the last component that lists it.
pub open spec fn component_map_of(
    face_count: usize,
    components: Seq<Vec<usize>>,
    m: Seq<Option<usize>>,
) -> bool {
    &&& m.len() == face_count
    &&& forall|f: int|
        0 <= f < face_count ==> match #[trigger] m[f] {
            Some(c) => c < components.len() && components[c as int]@.contains(f as usize) && forall|
                d: int,
            | c < d < components.len() ==> !components[d]@.contains(f as usize),
            None => forall|d: int| 0 <= d < components.len() ==> !components[d]@.contains(f as usize),
        }
}

/// `ps` holds, for each cut path, the components on its left and on its
/// right, each as an ascending set.
pub open spec fn path_sides_for(
    paths: Seq<Vec<[usize; 2]>>,
    d: DirectedFaceMap,
    face_to_component: Seq<Option<usize>>,
    ps: Seq<PathCutSideComponents>,
) -> bool {
    &&& ps.len() == paths.len()
    &&& forall|i: int| 0 <= i < ps.len() ==> (#[trigger] ps[i]).wf()
    &&& forall|i: int, c: usize|
        0 <= i < ps.len() ==> (#[trigger] ps[i].left_components@.contains(c) <==> path_side_has(
            paths[i]@,
            &d,
            face_to_component,
            true,
            c,
        ))
    &&& forall|i: int, c: usize|
        0 <= i < ps.len() ==> (#[trigger] ps[i].right_components@.contains(c) <==> path_side_has(
            paths[i]@,
            &d,
            face_to_component,
            false,
            c,
        ))
}

/// `out` is the union of the sides of all paths.
pub open spec fn merged_of(ps: Seq<PathCutSideComponents>, out: CutPathSideComponents) -> bool {
    &&& out.wf()
    &&& forall|c: usize|
        out.left_components@.contains(c) <==> exists|i: int|
            0 <= i < ps.len() && (#[trigger] ps[i]).left_components@.contains(c)
    &&& forall|c: usize|
        out.right_components@.contains(c) <==> exists|i: int|
            0 <= i < ps.len() && (#[trigger] ps[i]).right_components@.contains(c)
}

/// The sides settled for a set of paths: their union when no component lies
/// on both sides or no re-orientation is asked for; otherwise the
/// re-oriented sides when a consistent split exists, else the union.
pub open spec fn chosen_sides(
    ps: Seq<PathCutSideComponents>,
    normalize: bool,
    out: CutPathSideComponents,
) -> bool {
    exists|merged: CutPathSideComponents|
        merged_of(ps, merged) && if merged.overlap().len() == 0 || !normalize {
            out == merged
        } else if exists|g: spec_fn(usize) -> bool| valid_side_coloring(ps, g) {
            normalized_sides(ps, out)
        } else {
            out == merged
        }
}

/// The sides of the cut paths: the union of the sides of each path, re-oriented
/// where `normalize_cut_path_orientation` asks for it and the union puts a
/// component on both sides.
pub fn cut_path_side_components_impl(
    cut_edge_paths: &Vec<Vec<[usize; 2]>>,
    directed_faces: &DirectedFaceMap,
    face_to_component: &Vec<Option<usize>>,
    normalize_cut_path_orientation: bool,
) -> (out: CutPathSideComponents)
    requires
        directed_faces.wf(),
    ensures
        out.wf(),
        exists|ps: Seq<PathCutSideComponents>|
            path_sides_for(cut_edge_paths@, *directed_faces, face_to_component@, ps) && chosen_sides(
                ps,
                normalize_cut_path_orientation,
                out,
            ),
{
    let path_sides = path_cut_side_components(cut_edge_paths, directed_faces, face_to_component);
    let fixed_sides = merge_path_sides(&path_sides);
    proof {
        assert(path_sides_for(cut_edge_paths@, *directed_faces, face_to_component@, path_sides@));
        assert(merged_of(path_sides@, fixed_sides));
    }
    if fixed_sides.consistent() || !normalize_cut_path_orientation {
        proof {
            assert(chosen_sides(path_sides@, normalize_cut_path_orientation, fixed_sides));
        }
        return fixed_sides;
    }
    match orientation_normalized_path_sides(&path_sides) {
        Some(r) => {
            proof {
                assert(normalized_sides(path_sides@, r));
                assert(valid_side_coloring(path_sides@, |x: usize| r.right_components@.contains(x)));
                assert(chosen_sides(path_sides@, normalize_cut_path_orientation, r));
            }
            r
        },
        None => {
            proof {
                if forall|x: usize| !crate::exact_classify::orientation_flip::side_member(path_sides@, x) {
                    assert(fixed_sides.overlap() =~= Set::<usize>::empty()) by {
                        assert forall|x: usize| !fixed_sides.overlap().contains(x) by {
                            if fixed_sides.overlap().contains(x) {
                                assert(fixed_sides.left_components@.contains(x));
                                let i = choose|i: int|
                                    0 <= i < path_sides@.len() && (#[trigger] path_sides@[i]).left_components@.contains(x);
                                assert(crate::exact_classify::orientation_flip::side_member(path_sides@, x));
                            }
                        }
                    }
                }
                assert(chosen_sides(path_sides@, normalize_cut_path_orientation, fixed_sides));
            }
            fixed_sides
        },
    }
}

/// The sides of the cut paths, re-oriented where the union of the sides
/// puts a component on both sides.
pub fn cut_path_side_components(
    cut_edge_paths: &Vec<Vec<[usize; 2]>>,
    directed_faces: &DirectedFaceMap,
    face_to_component: &Vec<Option<usize>>,
) -> (out: CutPathSideComponents)
    requires
        directed_faces.wf(),
    ensures
        out.wf(),
        exists|ps: Seq<PathCutSideComponents>|
            path_sides_for(cut_edge_paths@, *directed_faces, face_to_component@, ps) && chosen_sides(
                ps,
                true,
                out,
            ),
{
    cut_path_side_components_impl(cut_edge_paths, directed_faces, face_to_component, true)
}

/// The lists of `components` at the positions `indices` that are in range,
/// in the order of `indices`.
pub open spec fn faces_for_indices(components: Seq<Vec<usize>>, indices: Seq<usize>) -> Seq<Seq<usize>>
    decreases indices.len(),
{
    if indices.len() == 0 {
        Seq::empty()
    } else {
        let rest = faces_for_indices(components, indices.drop_last());
        let i = indices.last();
        if i < components.len() {
            rest.push(components[i as int]@)
        } else {
            rest
        }
    }
}

/// A copy of `v`.
fn copy_list(v: &Vec<usize>) -> (out: Vec<usize>)
    ensures
        out@ == v@,
{
    let mut out: Vec<usize> = Vec::new();
    let mut i: usize = 0;
    while i < v.len()
        invariant
            i <= v@.len(),
            out@ == v@.subrange(0, i as int),
        decreases v@.len() - i,
    {
        out.push(v[i]);
        i += 1;
        assert(out@ =~= v@.subrange(0, i as int));
    }
    assert(out@ =~= v@);
    out
}

/// The face lists of the components at `component_indices`, skipping
/// indices past the last component.
pub fn component_faces_for_indices(
    components: &Vec<Vec<usize>>,
    component_indices: &Vec<usize>,
) -> (out: Vec<Vec<usize>>)
    ensures
        out@.len() == faces_for_indices(components@, component_indices@).len(),
        forall|t: int| 0 <= t < out@.len() ==> (#[trigger] out@[t])@ == faces_for_indices(
            components@,
            component_indices@,
        )[t],
{
    let mut out: Vec<Vec<usize>> = Vec::new();
    let mut i: usize = 0;
    while i < component_indices.len()
        invariant
            i <= component_indices@.len(),
            out@.len() == faces_for_indices(components@, component_indices@.subrange(0, i as int)).len(),
            forall|t: int| 0 <= t < out@.len() ==> (#[trigger] out@[t])@ == faces_for_indices(
                components@,
                component_indices@.subrange(0, i as int),
            )[t],
        decreases component_indices@.len() - i,
    {
        let ghost prefix = component_indices@.subrange(0, i as int);
        let ghost next = component_indices@.subrange(0, i as int + 1);
        assert(next.drop_last() =~= prefix);
        assert(next.last() == component_indices@[i as int]);
        let c = component_indices[i];
        if c < components.len() {
            let list = copy_list(&components[c]);
            out.push(list);
        }
        i += 1;
    }
    assert(component_indices@.subrange(0, component_indices@.len() as int) =~= component_indices@);
    out
}

/// The members of `v` in ascending order, each once.
fn sorted_set(v: &Vec<usize>) -> (out: Vec<usize>)
    ensures
        increasing(out@),
        forall|x: usize| out@.contains(x) <==> v@.contains(x),
{
    let mut out: Vec<usize> = Vec::new();
    let mut i: usize = 0;
    while i < v.len()
        invariant
            i <= v@.len(),
            increasing(out@),
            forall|x: usize| out@.contains(x) <==> v@.subrange(0, i as int).contains(x),
        decreases v@.len() - i,
    {
        let ghost before = out@;
        insert_sorted(&mut out, v[i]);
        proof {
            assert forall|x: usize| out@.contains(x) <==> v@.subrange(0, i as int + 1).contains(x) by {
                assert(out@.contains(x) <==> out@.to_set().contains(x));
                assert(before.contains(x) <==> before.to_set().contains(x));
                let s0 = v@.subrange(0, i as int);
                let s1 = v@.subrange(0, i as int + 1);
                if s1.contains(x) {
                    let t = choose|t: int| 0 <= t < s1.len() && s1[t] == x;
                    if t < i {
                        assert(s0[t] == x);
                    }
                }
                if s0.contains(x) {
                    let t = choose|t: int| 0 <= t < s0.len() && s0[t] == x;
                    assert(s1[t] == x);
                }
                if x == v@[i as int] {
                    assert(s1[i as int] == x);
                }
            }
        }
        i += 1;
    }
    assert(v@.subrange(0, v@.len() as int) =~= v@);
    out
}

/// The members of the ascending set `a` that also lie in `b`, ascending.
fn shared_members(a: &Vec<usize>, b: &Vec<usize>) -> (out: Vec<usize>)
    requires
        increasing(a@),
    ensures
        increasing(out@),
        forall|x: usize| out@.contains(x) <==> (a@.contains(x) && b@.contains(x)),
{
    let mut out: Vec<usize> = Vec::new();
    let mut i: usize = 0;
    while i < a.len()
        invariant
            i <= a@.len(),
            increasing(a@),
            increasing(out@),
            forall|t: int| 0 <= t < out@.len() ==> exists|u: int| 0 <= u < i && a@[u] == #[trigger] out@[t],
            forall|x: usize| out@.contains(x) <==> (a@.subrange(0, i as int).contains(x) && b@.contains(x)),
        decreases a@.len() - i,
    {
        let x = a[i];
        let ghost before = out@;
        proof {
            if before.contains(x) {
                let t = choose|t: int| 0 <= t < before.len() && before[t] == x;
                let u = choose|u: int| 0 <= u < i && a@[u] == before[t];
                assert(a@[u] < a@[i as int]);
            }
        }
        let found = crate::edge::contains_index(b, x);
        if found {
            out.push(x);
        }
        proof {
            let s0 = a@.subrange(0, i as int);
            let s1 = a@.subrange(0, i as int + 1);
            assert forall|t: int| 0 <= t < out@.len() implies exists|u: int| 0 <= u < i + 1 && a@[u] == #[trigger] out@[t] by {
                if t < before.len() {
                    let u = choose|u: int| 0 <= u < i && a@[u] == before[t];
                    assert(a@[u] == out@[t]);
                } else {
                    assert(a@[i as int] == out@[t]);
                }
            }
            assert forall|p: int, q: int| 0 <= p < q < out@.len() implies out@[p] < out@[q] by {
                if q == before.len() {
                    let u = choose|u: int| 0 <= u < i && a@[u] == before[p];
                    assert(a@[u] == out@[p]);
                }
            }
            assert forall|y: usize| out@.contains(y) <==> (s1.contains(y) && b@.contains(y)) by {
                if s1.contains(y) {
                    let t = choose|t: int| 0 <= t < s1.len() && s1[t] == y;
                    if t < i {
                        assert(s0[t] == y);
                    }
                }
                if s0.contains(y) {
                    let t = choose|t: int| 0 <= t < s0.len() && s0[t] == y;
                    assert(s1[t] == y);
                }
                if y == x {
                    assert(s1[i as int] == y);
                }
                if before.contains(y) {
                    let t = choose|t: int| 0 <= t < before.len() && before[t] == y;
                    assert(out@[t] == y);
                }
                if out@.contains(y) && y != x {
                    let t = choose|t: int| 0 <= t < out@.len() && out@[t] == y;
                    if t < before.len() {
                        assert(before[t] == y);
                    }
                }
                if out@.contains(y) && y == x && !before.contains(y) {
                    assert(found);
                }
                if y == x && s1.contains(y) && b@.contains(y) {
                    assert(found);
                    assert(out@[before.len() as int] == x);
                }
            }
        }
        i += 1;
    }
    assert(a@.subrange(0, a@.len() as int) =~= a@);
    out
}

/// The components beside the cut paths: every component's faces, and which
/// components lie on the left, on the right, and on both sides.
pub struct ExactCutPathSideComponentDetails {
    pub component_faces: Vec<Vec<usize>>,
    pub left_component_indices: Vec<usize>,
    pub right_component_indices: Vec<usize>,
    pub overlap_component_indices: Vec<usize>,
    pub left_component_faces: Vec<Vec<usize>>,
    pub right_component_faces: Vec<Vec<usize>>,
    pub overlap_component_faces: Vec<Vec<usize>>,
}

impl ExactCutPathSideComponentDetails {
    /// Whether every list is empty.
    pub open spec fn is_empty(&self) -> bool {
        &&& self.component_faces@.len() == 0
        &&& self.left_component_indices@.len() == 0
        &&& self.right_component_indices@.len() == 0
        &&& self.overlap_component_indices@.len() == 0
        &&& self.left_component_faces@.len() == 0
        &&& self.right_component_faces@.len() == 0
        &&& self.overlap_component_faces@.len() == 0
    }
}

/// `out` lists, for each of `lists`, its members in ascending order.
pub open spec fn sorted_lists(lists: Seq<Vec<usize>>, out: Seq<Vec<usize>>) -> bool {
    &&& out.len() == lists.len()
    &&& forall|c: int| 0 <= c < out.len() ==> increasing((#[trigger] out[c])@)
    &&& forall|c: int, x: usize| 0 <= c < out.len() ==> (#[trigger] out[c]@.contains(x) <==> lists[c]@.contains(x))
}

/// `det` reports on `faces` split by the cut paths and barrier edges: the
/// components, the sides settled for the paths, the shared components, and
/// the faces of each reported component.
pub open spec fn side_details_of(
    faces: Seq<[usize; 3]>,
    paths: Seq<Vec<[usize; 2]>>,
    barriers: Seq<[usize; 2]>,
    det: ExactCutPathSideComponentDetails,
) -> bool {
    exists|
        keys: Seq<[usize; 2]>,
        adj: Seq<Vec<usize>>,
        comps: Seq<Vec<usize>>,
        comp_of: Seq<Option<usize>>,
        d: DirectedFaceMap,
        ps: Seq<PathCutSideComponents>,
        sides: CutPathSideComponents,
    |
        {
            &&& forall|key: [usize; 2]|
                keys.contains(key) <==> ((exists|i: int, j: int|
                    0 <= i < paths.len() && 0 <= j < paths[i]@.len() && crate::edge::spec_ordered(
                        #[trigger] paths[i]@[j],
                    ) == key) || orders_to(barriers, key))
            &&& adjacency_ok(faces, keys, adj)
            &&& components_ok(adj, comps)
            &&& component_map_of(faces.len() as usize, comps, comp_of)
            &&& directed_map_of(faces, d)
            &&& path_sides_for(paths, d, comp_of, ps)
            &&& chosen_sides(ps, true, sides)
            &&& sorted_lists(comps, det.component_faces@)
            &&& det.left_component_indices@ == sides.left_components@
            &&& det.right_component_indices@ == sides.right_components@
            &&& increasing(det.overlap_component_indices@)
            &&& forall|x: usize|
                det.overlap_component_indices@.contains(x) <==> (sides.left_components@.contains(x)
                    && sides.right_components@.contains(x))
            &&& det.left_component_faces@.map_values(|v: Vec<usize>| v@) == faces_for_indices(
                det.component_faces@,
                det.left_component_indices@,
            )
            &&& det.right_component_faces@.map_values(|v: Vec<usize>| v@) == faces_for_indices(
                det.component_faces@,
                det.right_component_indices@,
            )
            &&& det.overlap_component_faces@.map_values(|v: Vec<usize>| v@) == faces_for_indices(
                det.component_faces@,
                det.overlap_component_indices@,
            )
        }
}

/// Like `component_faces_for_indices`, with the result's lists viewed.
proof fn lemma_faces_view(out: Seq<Vec<usize>>, expect: Seq<Seq<usize>>)
    requires
        out.len() == expect.len(),
        forall|t: int| 0 <= t < out.len() ==> (#[trigger] out[t])@ == expect[t],
    ensures
        out.map_values(|v: Vec<usize>| v@) == expect,
{
    assert(out.map_values(|v: Vec<usize>| v@) =~= expect);
}

/// Checks the faces and reports which components lie beside the cut paths,
/// with `extra_barrier_edges` also separating faces; empty lists when there
/// is no path.
pub fn exact_cut_path_side_component_details_with_barriers(
    vertex_count: usize,
    faces_i64: &Vec<[i64; 3]>,
    cut_edge_paths: &Vec<Vec<[usize; 2]>>,
    extra_barrier_edges: &Vec<[usize; 2]>,
) -> (out: Result<ExactCutPathSideComponentDetails, GeometryError>)
    ensures
        match out {
            Err(e) => first_face_error(faces_i64@, vertex_count, e),
            Ok(det) => exists|faces: Seq<[usize; 3]>|
                checked_faces(faces_i64@, vertex_count, faces) && if cut_edge_paths@.len() == 0 {
                    det.is_empty()
                } else {
                    side_details_of(faces, cut_edge_paths@, extra_barrier_edges@, det)
                },
        },
{
    let faces = match validate_faces(faces_i64, vertex_count) {
        Ok(faces) => faces,
        Err(e) => {
            return Err(e);
        },
    };
    if cut_edge_paths.len() == 0 {
        return Ok(
            ExactCutPathSideComponentDetails {
                component_faces: Vec::new(),
                left_component_indices: Vec::new(),
                right_component_indices: Vec::new(),
                overlap_component_indices: Vec::new(),
                left_component_faces: Vec::new(),
                right_component_faces: Vec::new(),
                overlap_component_faces: Vec::new(),
            },
        );
    }
    let path_edges = cut_path_edges(cut_edge_paths);
    let path_cut_edges = component_cut_edges(&path_edges, extra_barrier_edges);
    let components = connected_components_excluding_cut_edges(&faces, &path_cut_edges);
    let face_to_component = face_to_component_map(faces.len(), &components);
    let directed_faces = directed_face_map(&faces);
    let side_components = cut_path_side_components(cut_edge_paths, &directed_faces, &face_to_component);
    let left_component_indices = copy_list(&side_components.left_components);
    let right_component_indices = copy_list(&side_components.right_components);
    let overlap_component_indices = shared_members(
        &side_components.left_components,
        &side_components.right_components,
    );
    let mut component_faces: Vec<Vec<usize>> = Vec::new();
    let mut c: usize = 0;
    while c < components.len()
        invariant
            c <= components@.len(),
            component_faces@.len() == c,
            forall|t: int| 0 <= t < c ==> increasing((#[trigger] component_faces@[t])@),
            forall|t: int, x: usize| 0 <= t < c ==> (#[trigger] component_faces@[t]@.contains(x) <==> components@[t]@.contains(x)),
        decreases components@.len() - c,
    {
        component_faces.push(sorted_set(&components[c]));
        c += 1;
    }
    let left_component_faces = component_faces_for_indices(&component_faces, &left_component_indices);
    let right_component_faces = component_faces_for_indices(&component_faces, &right_component_indices);
    let overlap_component_faces = component_faces_for_indices(&component_faces, &overlap_component_indices);
    let det = ExactCutPathSideComponentDetails {
        component_faces,
        left_component_indices,
        right_component_indices,
        overlap_component_indices,
        left_component_faces,
        right_component_faces,
        overlap_component_faces,
    };
    proof {
        lemma_faces_view(det.left_component_faces@, faces_for_indices(det.component_faces@, det.left_component_indices@));
        lemma_faces_view(det.right_component_faces@, faces_for_indices(det.component_faces@, det.right_component_indices@));
        lemma_faces_view(det.overlap_component_faces@, faces_for_indices(det.component_faces@, det.overlap_component_indices@));
        let adj = choose|adj: Seq<Vec<usize>>| adjacency_ok(faces@, path_cut_edges@, adj) && components_ok(adj, components@);
        let ps = choose|ps: Seq<PathCutSideComponents>|
            path_sides_for(cut_edge_paths@, directed_faces, face_to_component@, ps) && chosen_sides(ps, true, side_components);
        assert(component_map_of(faces@.len() as usize, components@, face_to_component@));
        assert(directed_map_of(faces@, directed_faces));
        assert forall|key: [usize; 2]|
            path_cut_edges@.contains(key) <==> ((exists|i: int, j: int|
                0 <= i < cut_edge_paths@.len() && 0 <= j < cut_edge_paths@[i]@.len() && crate::edge::spec_ordered(
                    #[trigger] cut_edge_paths@[i]@[j],
                ) == key) || orders_to(extra_barrier_edges@, key)) by {
            if orders_to(path_edges@, key) {
                let j = choose|j: int| 0 <= j < path_edges@.len() && crate::edge::spec_ordered(#[trigger] path_edges@[j]) == key;
                assert(path_edges@.contains(path_edges@[j]));
                let (a, b) = choose|a: int, b: int|
                    0 <= a < cut_edge_paths@.len() && 0 <= b < cut_edge_paths@[a]@.len() && crate::edge::spec_ordered(
                        #[trigger] cut_edge_paths@[a]@[b],
                    ) == path_edges@[j];
                crate::edge::lemma_ordered_edge_laws(cut_edge_paths@[a]@[b]);
            }
            if exists|i: int, j: int|
                0 <= i < cut_edge_paths@.len() && 0 <= j < cut_edge_paths@[i]@.len() && crate::edge::spec_ordered(
                    #[trigger] cut_edge_paths@[i]@[j],
                ) == key {
                assert(path_edges@.contains(key));
                let t = choose|t: int| 0 <= t < path_edges@.len() && path_edges@[t] == key;
                let (a, b) = choose|a: int, b: int|
                    0 <= a < cut_edge_paths@.len() && 0 <= b < cut_edge_paths@[a]@.len() && crate::edge::spec_ordered(
                        #[trigger] cut_edge_paths@[a]@[b],
                    ) == key;
                crate::edge::lemma_ordered_edge_laws(cut_edge_paths@[a]@[b]);
                assert(crate::edge::spec_ordered(path_edges@[t]) == key);
                assert(orders_to(path_edges@, key));
            }
        }
        assert(side_details_of(faces@, cut_edge_paths@, extra_barrier_edges@, det));
    }
    Ok(det)
}

/// Checks the faces and reports which components lie beside the cut paths;
/// empty lists when there is no path.
pub fn exact_cut_path_side_component_details(
    vertex_count: usize,
    faces_i64: &Vec<[i64; 3]>,
    cut_edge_paths: &Vec<Vec<[usize; 2]>>,
) -> (out: Result<ExactCutPathSideComponentDetails, GeometryError>)
    ensures
        match out {
            Err(e) => first_face_error(faces_i64@, vertex_count, e),
            Ok(det) => exists|faces: Seq<[usize; 3]>|
                checked_faces(faces_i64@, vertex_count, faces) && if cut_edge_paths@.len() == 0 {
                    det.is_empty()
                } else {
                    side_details_of(faces, cut_edge_paths@, Seq::empty(), det)
                },
        },
{
    let no_barriers: Vec<[usize; 2]> = Vec::new();
    exact_cut_path_side_component_details_with_barriers(vertex_count, faces_i64, cut_edge_paths, &no_barriers)
}

} // verus!
