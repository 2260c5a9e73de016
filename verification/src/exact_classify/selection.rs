//! Which components of a cut mesh the boolean keeps: the plan read off the
//! cut paths, then the selection once it is known which components lie
//! inside the other mesh.
use vstd::prelude::*;

use crate::edge::{extend_sorted, increasing};
use crate::exact_classify::components::{
    adjacency_ok, component_cut_edges, components_ok, connected_components_excluding_cut_edges, cut_path_edges,
    orders_to,
};
use crate::exact_classify::side_details::{chosen_sides, component_map_of, cut_path_side_components_impl, directed_map_of, path_sides_for};
use crate::exact_classify::{directed_face_map, face_to_component_map, CutPathSideComponents, DirectedFaceMap, PathCutSideComponents};
use crate::exact_cut::ExactCutMeshRecords;
use crate::mesh::{checked_faces, first_face_error, validate_faces, GeometryError};

verus! {

/// How the components of a cut mesh are to be selected: the components,
/// whether the cut path sides decide, the components each side forces in
/// or out, and the side counts reported.
pub struct ExactComponentSelectionPlan {
    pub components: Vec<Vec<usize>>,
    pub need_inside: bool,
    pub used_cut_path_sides: bool,
    pub cut_paths_consistent: bool,
    pub include_components: Vec<usize>,
    pub exclude_components: Vec<usize>,
    pub cut_left_components: usize,
    pub cut_right_components: usize,
    pub cut_path_overlap_components: usize,
}

/// `plan` selects the components of `faces` split at the cut paths (or,
/// without paths, at the cut edges) and the barrier edges: with no path, or
/// when some component lies on both sides of the paths, every component is
/// chosen by where it lies; otherwise the side that the operation keeps is
/// forced in and the other side out.
pub open spec fn plan_ok(
    faces: Seq<[usize; 3]>,
    cut_edges: Seq<[usize; 2]>,
    paths: Seq<Vec<[usize; 2]>>,
    barriers: Seq<[usize; 2]>,
    need_inside: bool,
    origin_is_first: bool,
    normalize: bool,
    plan: ExactComponentSelectionPlan,
) -> bool {
    &&& plan.need_inside == need_inside
    &&& if paths.len() == 0 {
        &&& exists|keys: Seq<[usize; 2]>, adj: Seq<Vec<usize>>|
            {
                &&& forall|key: [usize; 2]| keys.contains(key) <==> (orders_to(cut_edges, key) || orders_to(barriers, key))
                &&& adjacency_ok(faces, keys, adj)
                &&& components_ok(adj, plan.components@)
            }
        &&& !plan.used_cut_path_sides
        &&& plan.cut_paths_consistent
        &&& plan.include_components@.len() == 0
        &&& plan.exclude_components@.len() == 0
        &&& plan.cut_left_components == 0
        &&& plan.cut_right_components == 0
        &&& plan.cut_path_overlap_components == 0
    } else {
        exists|
            keys: Seq<[usize; 2]>,
            adj: Seq<Vec<usize>>,
            comp_of: Seq<Option<usize>>,
            d: DirectedFaceMap,
            ps: Seq<PathCutSideComponents>,
            sides: CutPathSideComponents,
        |
            {
                &&& forall|key: [usize; 2]|
                    keys.contains(key) <==> ((exists|i: int, j: int|
                        0 <= i < paths.len() && 0 <= j < paths[i]@.len() && crate::edge::spec_ordered(
                            #[trigger] paths[i]@[j],
                        ) == key) || orders_to(barriers, key))
                &&& adjacency_ok(faces, keys, adj)
                &&& components_ok(adj, plan.components@)
                &&& component_map_of(faces.len() as usize, plan.components@, comp_of)
                &&& directed_map_of(faces, d)
                &&& path_sides_for(paths, d, comp_of, ps)
                &&& chosen_sides(ps, normalize, sides)
                &&& plan.cut_left_components == (if sides.left_components@.len() > 0 { 1int } else { 0int })
                &&& plan.cut_right_components == (if sides.right_components@.len() > 0 { 1int } else { 0int })
                &&& plan.cut_path_overlap_components == sides.overlap().len()
                &&& if sides.overlap().len() != 0 {
                    &&& !plan.used_cut_path_sides
                    &&& !plan.cut_paths_consistent
                    &&& plan.include_components@.len() == 0
                    &&& plan.exclude_components@.len() == 0
                } else {
                    &&& plan.used_cut_path_sides
                    &&& plan.cut_paths_consistent
                    &&& plan.include_components@ == (if need_inside != origin_is_first {
                        sides.right_components@
                    } else {
                        sides.left_components@
                    })
                    &&& plan.exclude_components@ == (if need_inside != origin_is_first {
                        sides.left_components@
                    } else {
                        sides.right_components@
                    })
                }
            }
    }
}

/// `out` is the planning's answer: the first bad corner of the cut mesh,
/// else of the other mesh, or a plan of the checked faces.
pub open spec fn plan_result_ok(
    out: Result<ExactComponentSelectionPlan, GeometryError>,
    vertex_count: usize,
    faces_i64: Seq<[i64; 3]>,
    other_vertex_count: usize,
    other_faces_i64: Seq<[i64; 3]>,
    cut_edges: Seq<[usize; 2]>,
    cut_edge_paths: Seq<Vec<[usize; 2]>>,
    extra_barrier_edges: Seq<[usize; 2]>,
    need_inside: bool,
    origin_is_first: bool,
    normalize: bool,
) -> bool {
    match out {
        Err(e) => first_face_error(faces_i64, vertex_count, e) || ((exists|faces: Seq<[usize; 3]>|
            checked_faces(faces_i64, vertex_count, faces)) && first_face_error(other_faces_i64, other_vertex_count, e)),
        Ok(plan) => (exists|other: Seq<[usize; 3]>| checked_faces(other_faces_i64, other_vertex_count, other)) && exists|
            faces: Seq<[usize; 3]>,
        |
            checked_faces(faces_i64, vertex_count, faces) && plan_ok(
                faces,
                cut_edges,
                cut_edge_paths,
                extra_barrier_edges,
                need_inside,
                origin_is_first,
                normalize,
                plan,
            ),
    }
}

/// Checks both meshes' faces and plans the component selection of the cut
/// mesh: the components split at the cut paths and barrier edges (at the
/// cut edges when there is no path), and, when the cut paths put every
/// component on one side, the side the part keeps (the right side when
/// `need_inside` differs from `origin_is_first`) forced in and the other
/// out.
pub fn exact_classification_plan(
    vertex_count: usize,
    faces_i64: &Vec<[i64; 3]>,
    other_vertex_count: usize,
    other_faces_i64: &Vec<[i64; 3]>,
    cut_edges: &Vec<[usize; 2]>,
    cut_edge_paths: &Vec<Vec<[usize; 2]>>,
    extra_barrier_edges: &Vec<[usize; 2]>,
    need_inside: bool,
    origin_is_first: bool,
    normalize_cut_path_orientation: bool,
) -> (out: Result<ExactComponentSelectionPlan, GeometryError>)
    ensures
        plan_result_ok(
            out,
            vertex_count,
            faces_i64@,
            other_vertex_count,
            other_faces_i64@,
            cut_edges@,
            cut_edge_paths@,
            extra_barrier_edges@,
            need_inside,
            origin_is_first,
            normalize_cut_path_orientation,
        ),
{
    let faces = match validate_faces(faces_i64, vertex_count) {
        Ok(faces) => faces,
        Err(e) => {
            return Err(e);
        },
    };
    match validate_faces(other_faces_i64, other_vertex_count) {
        Ok(_) => {},
        Err(e) => {
            return Err(e);
        },
    }
    if cut_edge_paths.len() == 0 {
        let keys = component_cut_edges(cut_edges, extra_barrier_edges);
        let components = connected_components_excluding_cut_edges(&faces, &keys);
        let plan = ExactComponentSelectionPlan {
            components,
            need_inside,
            used_cut_path_sides: false,
            cut_paths_consistent: true,
            include_components: Vec::new(),
            exclude_components: Vec::new(),
            cut_left_components: 0,
            cut_right_components: 0,
            cut_path_overlap_components: 0,
        };
        return Ok(plan);
    }
    let path_edges = cut_path_edges(cut_edge_paths);
    let keys = component_cut_edges(&path_edges, extra_barrier_edges);
    let components = connected_components_excluding_cut_edges(&faces, &keys);
    let face_to_component = face_to_component_map(faces.len(), &components);
    let directed_faces = directed_face_map(&faces);
    let sides = cut_path_side_components_impl(cut_edge_paths, &directed_faces, &face_to_component, normalize_cut_path_orientation);
    let left_count = sides.left_root_count();
    let right_count = sides.right_root_count();
    let overlap_count = sides.overlap_count();
    proof {
        assert forall|key: [usize; 2]|
            keys@.contains(key) <==> ((exists|i: int, j: int|
                0 <= i < cut_edge_paths@.len() && 0 <= j < cut_edge_paths@[i]@.len() && crate::edge::spec_ordered(
                    #[trigger] cut_edge_paths@[i]@[j],
                ) == key) || orders_to(extra_barrier_edges@, key)) by {
            if orders_to(path_edges@, key) {
                let j = choose|j: int| 0 <= j < path_edges@.len() && crate::edge::spec_ordered(#[trigger] path_edges@[j]) == key;
                assert(path_edges@.contains(path_edges@[j]));
                let (a, b) = choose|a: int, b: int|
                    0 <= a < cut_edge_paths@.len() && 0 <= b < cut_edge_paths@[a]@.len() && crate::edge::spec_ordered(
                        #[trigger] cut_edge_paths@[a]@[b],
                    ) == path_edges@[j];
                crate::edge::lemma_ordered_edge_laws(cut_edge_paths@[a]@[b]);
            }
            if exists|i: int, j: int|
                0 <= i < cut_edge_paths@.len() && 0 <= j < cut_edge_paths@[i]@.len() && crate::edge::spec_ordered(
                    #[trigger] cut_edge_paths@[i]@[j],
                ) == key {
                assert(path_edges@.contains(key));
                let t = choose|t: int| 0 <= t < path_edges@.len() && path_edges@[t] == key;
                let (a, b) = choose|a: int, b: int|
                    0 <= a < cut_edge_paths@.len() && 0 <= b < cut_edge_paths@[a]@.len() && crate::edge::spec_ordered(
                        #[trigger] cut_edge_paths@[a]@[b],
                    ) == key;
                crate::edge::lemma_ordered_edge_laws(cut_edge_paths@[a]@[b]);
                assert(crate::edge::spec_ordered(path_edges@[t]) == key);
                assert(orders_to(path_edges@, key));
            }
        }
        assert(component_map_of(faces@.len() as usize, components@, face_to_component@));
        assert(directed_map_of(faces@, directed_faces));
    }
    if overlap_count != 0 {
        Ok(
            ExactComponentSelectionPlan {
                components,
                need_inside,
                used_cut_path_sides: false,
                cut_paths_consistent: false,
                include_components: Vec::new(),
                exclude_components: Vec::new(),
                cut_left_components: left_count,
                cut_right_components: right_count,
                cut_path_overlap_components: overlap_count,
            },
        )
    } else {
        let need_right_part = need_inside != origin_is_first;
        let (include_components, exclude_components) = if need_right_part {
            (
                crate::source_cut2origin::copy_items(&sides.right_components),
                crate::source_cut2origin::copy_items(&sides.left_components),
            )
        } else {
            (
                crate::source_cut2origin::copy_items(&sides.left_components),
                crate::source_cut2origin::copy_items(&sides.right_components),
            )
        };
        Ok(
            ExactComponentSelectionPlan {
                components,
                need_inside,
                used_cut_path_sides: true,
                cut_paths_consistent: true,
                include_components,
                exclude_components,
                cut_left_components: left_count,
                cut_right_components: right_count,
                cut_path_overlap_components: overlap_count,
            },
        )
    }
}

/// Whether component `i` is kept: forced in, forced out, or kept when it
/// lies inside the other mesh exactly when the part needs inside.
pub open spec fn component_selected(plan: ExactComponentSelectionPlan, inside_other: Seq<bool>, i: int) -> bool {
    if plan.include_components@.contains(i as usize) {
        true
    } else if plan.exclude_components@.contains(i as usize) {
        false
    } else {
        inside_other[i] == plan.need_inside
    }
}

/// The components kept, and their faces ascending and once each.
pub struct ExactComponentSelection {
    pub selected: Vec<bool>,
    pub selected_faces: Vec<usize>,
}

/// Selects the planned components, given for each component whether it
/// lies inside the other mesh.
pub fn select_components(plan: &ExactComponentSelectionPlan, inside_other: &Vec<bool>) -> (out: ExactComponentSelection)
    requires
        inside_other@.len() == plan.components@.len(),
    ensures
        out.selected@.len() == plan.components@.len(),
        forall|i: int| 0 <= i < plan.components@.len() ==> #[trigger] out.selected@[i] == component_selected(*plan, inside_other@, i),
        increasing(out.selected_faces@),
        forall|f: usize|
            #[trigger] out.selected_faces@.contains(f) <==> exists|i: int|
                0 <= i < plan.components@.len() && component_selected(*plan, inside_other@, i) && (
                #[trigger] plan.components@[i])@.contains(f),
{
    let mut selected: Vec<bool> = Vec::new();
    let mut faces: Vec<usize> = Vec::new();
    let mut i: usize = 0;
    while i < plan.components.len()
        invariant
            inside_other@.len() == plan.components@.len(),
            i <= plan.components@.len(),
            selected@.len() == i,
            forall|j: int| 0 <= j < i ==> #[trigger] selected@[j] == component_selected(*plan, inside_other@, j),
            increasing(faces@),
            forall|f: usize|
                #[trigger] faces@.contains(f) <==> exists|j: int|
                    0 <= j < i && component_selected(*plan, inside_other@, j) && (#[trigger] plan.components@[j])@.contains(f),
        decreases plan.components.len() - i,
    {
        let keep = if crate::edge::contains_index(&plan.include_components, i) {
            true
        } else if crate::edge::contains_index(&plan.exclude_components, i) {
            false
        } else {
            inside_other[i] == plan.need_inside
        };
        let ghost before = faces@;
        if keep {
            extend_sorted(&mut faces, &plan.components[i]);
        }
        selected.push(keep);
        proof {
            assert(keep == component_selected(*plan, inside_other@, i as int));
            assert forall|f: usize|
                #[trigger] faces@.contains(f) <==> exists|j: int|
                    0 <= j < i + 1 && component_selected(*plan, inside_other@, j) && (#[trigger] plan.components@[j])@.contains(f) by {
                if exists|j: int|
                    0 <= j < i + 1 && component_selected(*plan, inside_other@, j) && (#[trigger] plan.components@[j])@.contains(f) {
                    let j = choose|j: int|
                        0 <= j < i + 1 && component_selected(*plan, inside_other@, j) && (#[trigger] plan.components@[j])@.contains(f);
                    if j < i {
                        assert(before.contains(f));
                    }
                }
                if before.contains(f) {
                    let j = choose|j: int|
                        0 <= j < i && component_selected(*plan, inside_other@, j) && (#[trigger] plan.components@[j])@.contains(f);
                }
            }
        }
        i += 1;
    }
    ExactComponentSelection { selected, selected_faces: faces }
}

/// When the cut path sides decide, no component is both forced in and
/// forced out, so each component beside a cut path is kept exactly when it
/// lies on the kept side.
pub proof fn lemma_forced_sides_disjoint(
    faces: Seq<[usize; 3]>,
    cut_edges: Seq<[usize; 2]>,
    paths: Seq<Vec<[usize; 2]>>,
    barriers: Seq<[usize; 2]>,
    need_inside: bool,
    origin_is_first: bool,
    normalize: bool,
    plan: ExactComponentSelectionPlan,
    inside_other: Seq<bool>,
)
    requires
        plan_ok(faces, cut_edges, paths, barriers, need_inside, origin_is_first, normalize, plan),
        plan.used_cut_path_sides,
    ensures
        forall|x: usize| !(plan.include_components@.contains(x) && plan.exclude_components@.contains(x)),
        forall|i: int| 0 <= i && plan.include_components@.contains(i as usize) ==> component_selected(plan, inside_other, i),
        forall|i: int| 0 <= i && plan.exclude_components@.contains(i as usize) ==> !component_selected(plan, inside_other, i),
{
    let (keys, adj, comp_of, d, ps, sides) = choose|
        keys: Seq<[usize; 2]>,
        adj: Seq<Vec<usize>>,
        comp_of: Seq<Option<usize>>,
        d: DirectedFaceMap,
        ps: Seq<PathCutSideComponents>,
        sides: CutPathSideComponents,
    |
        {
            &&& forall|key: [usize; 2]|
                keys.contains(key) <==> ((exists|i: int, j: int|
                    0 <= i < paths.len() && 0 <= j < paths[i]@.len() && crate::edge::spec_ordered(
                        #[trigger] paths[i]@[j],
                    ) == key) || orders_to(barriers, key))
            &&& adjacency_ok(faces, keys, adj)
            &&& components_ok(adj, plan.components@)
            &&& component_map_of(faces.len() as usize, plan.components@, comp_of)
            &&& directed_map_of(faces, d)
            &&& path_sides_for(paths, d, comp_of, ps)
            &&& chosen_sides(ps, normalize, sides)
            &&& plan.cut_left_components == (if sides.left_components@.len() > 0 { 1int } else { 0int })
            &&& plan.cut_right_components == (if sides.right_components@.len() > 0 { 1int } else { 0int })
            &&& plan.cut_path_overlap_components == sides.overlap().len()
            &&& if sides.overlap().len() != 0 {
                &&& !plan.used_cut_path_sides
                &&& !plan.cut_paths_consistent
                &&& plan.include_components@.len() == 0
                &&& plan.exclude_components@.len() == 0
            } else {
                &&& plan.used_cut_path_sides
                &&& plan.cut_paths_consistent
                &&& plan.include_components@ == (if need_inside != origin_is_first {
                    sides.right_components@
                } else {
                    sides.left_components@
                })
                &&& plan.exclude_components@ == (if need_inside != origin_is_first {
                    sides.left_components@
                } else {
                    sides.right_components@
                })
            }
        };
    assert(paths.len() != 0);
    let overlap = sides.overlap();
    assert(overlap.finite());
    assert forall|x: usize| !(plan.include_components@.contains(x) && plan.exclude_components@.contains(x)) by {
        if plan.include_components@.contains(x) && plan.exclude_components@.contains(x) {
            assert(sides.left_components@.to_set().contains(x));
            assert(sides.right_components@.to_set().contains(x));
            assert(overlap.contains(x));
            vstd::set_lib::lemma_set_empty_equivalency_len(overlap);
        }
    }
}

/// Whether some face of `component` is among `overlap_faces`.
pub open spec fn touches_overlap(component: Seq<usize>, overlap_faces: Seq<usize>) -> bool {
    exists|k: int| 0 <= k < component.len() && overlap_faces.contains(#[trigger] component[k])
}

/// Whether some face of `component` is among `overlap_faces`.
fn component_touches_overlap(component: &Vec<usize>, overlap_faces: &Vec<usize>) -> (out: bool)
    ensures
        out == touches_overlap(component@, overlap_faces@),
{
    let mut k: usize = 0;
    while k < component.len()
        invariant
            k <= component@.len(),
            forall|j: int| 0 <= j < k ==> !overlap_faces@.contains(#[trigger] component@[j]),
        decreases component.len() - k,
    {
        if crate::edge::contains_index(overlap_faces, component[k]) {
            return true;
        }
        k += 1;
    }
    false
}

/// The faces of the kept components, ascending and once each.
fn faces_of_selected(components: &Vec<Vec<usize>>, selected: &Vec<bool>) -> (out: Vec<usize>)
    requires
        selected@.len() == components@.len(),
    ensures
        increasing(out@),
        forall|f: usize|
            #[trigger] out@.contains(f) <==> exists|i: int|
                0 <= i < components@.len() && selected@[i] && (#[trigger] components@[i])@.contains(f),
{
    let mut faces: Vec<usize> = Vec::new();
    let mut i: usize = 0;
    while i < components.len()
        invariant
            selected@.len() == components@.len(),
            i <= components@.len(),
            increasing(faces@),
            forall|f: usize|
                #[trigger] faces@.contains(f) <==> exists|j: int|
                    0 <= j < i && selected@[j] && (#[trigger] components@[j])@.contains(f),
        decreases components.len() - i,
    {
        let ghost before = faces@;
        if selected[i] {
            extend_sorted(&mut faces, &components[i]);
        }
        proof {
            assert forall|f: usize|
                #[trigger] faces@.contains(f) <==> exists|j: int|
                    0 <= j < i + 1 && selected@[j] && (#[trigger] components@[j])@.contains(f) by {
                if exists|j: int| 0 <= j < i + 1 && selected@[j] && (#[trigger] components@[j])@.contains(f) {
                    let j = choose|j: int| 0 <= j < i + 1 && selected@[j] && (#[trigger] components@[j])@.contains(f);
                    if j < i {
                        assert(before.contains(f));
                    }
                }
                if before.contains(f) {
                    let j = choose|j: int| 0 <= j < i && selected@[j] && (#[trigger] components@[j])@.contains(f);
                }
            }
        }
        i += 1;
    }
    faces
}

/// Which rule reselects the components of a coplanar boolean.
#[derive(Debug, Clone, Copy, PartialEq, Eq, Structural)]
pub enum CoplanarSelectionRule {
    /// Union, first operand winning: keep what lies outside, and, when
    /// asked, what touches a same-oriented overlap.
    UnionFirstWins { keep_same_oriented_overlap: bool },
    /// Intersection, first operand winning: keep what lies inside, unless
    /// it touches a same-oriented overlap and that is not to be kept.
    IntersectionFirstWins { keep_same_oriented_overlap: bool },
    /// The operand subtracted from: keep what lies outside.
    DifferenceMinuend,
    /// The operand subtracted: keep what lies inside and touches no
    /// same-oriented overlap.
    DifferenceSubtrahend,
}

/// Whether a component is kept under `rule`.
pub open spec fn coplanar_selected(rule: CoplanarSelectionRule, inside_other: bool, touches: bool) -> bool {
    match rule {
        CoplanarSelectionRule::UnionFirstWins { keep_same_oriented_overlap } => !inside_other || (keep_same_oriented_overlap
            && touches),
        CoplanarSelectionRule::IntersectionFirstWins { keep_same_oriented_overlap } => inside_other && (
        keep_same_oriented_overlap || !touches),
        CoplanarSelectionRule::DifferenceMinuend => !inside_other,
        CoplanarSelectionRule::DifferenceSubtrahend => inside_other && !touches,
    }
}

/// What each rule keeps, read from where a component lies and whether it
/// touches a same-oriented overlap: a union keeps every component outside
/// the other operand, whatever it touches, and of those inside only the
/// ones touching an overlap when asked to keep them; an intersection keeps
/// nothing outside, and of what lies inside drops what touches an overlap
/// unless asked to keep it; the operand subtracted from keeps exactly what
/// lies outside; the operand subtracted keeps exactly what lies inside and
/// touches no overlap. Without overlap keeping, the union keeps exactly
/// what the operand subtracted from keeps; an intersection that keeps its
/// overlaps keeps exactly what such a union drops.
pub proof fn lemma_coplanar_rules(inside_other: bool, touches: bool, keep: bool)
    ensures
        !inside_other ==> coplanar_selected(CoplanarSelectionRule::UnionFirstWins { keep_same_oriented_overlap: keep }, inside_other, touches),
        inside_other ==> (coplanar_selected(CoplanarSelectionRule::UnionFirstWins { keep_same_oriented_overlap: keep }, inside_other, touches)
            <==> (keep && touches)),
        !inside_other ==> !coplanar_selected(
            CoplanarSelectionRule::IntersectionFirstWins { keep_same_oriented_overlap: keep },
            inside_other,
            touches,
        ),
        inside_other && !touches ==> coplanar_selected(
            CoplanarSelectionRule::IntersectionFirstWins { keep_same_oriented_overlap: keep },
            inside_other,
            touches,
        ),
        inside_other && touches ==> (coplanar_selected(
            CoplanarSelectionRule::IntersectionFirstWins { keep_same_oriented_overlap: keep },
            inside_other,
            touches,
        ) <==> keep),
        coplanar_selected(CoplanarSelectionRule::DifferenceMinuend, inside_other, touches) <==> !inside_other,
        coplanar_selected(CoplanarSelectionRule::DifferenceSubtrahend, inside_other, touches) <==> (inside_other && !touches),
        coplanar_selected(CoplanarSelectionRule::UnionFirstWins { keep_same_oriented_overlap: false }, inside_other, touches)
            == coplanar_selected(CoplanarSelectionRule::DifferenceMinuend, inside_other, touches),
        coplanar_selected(CoplanarSelectionRule::IntersectionFirstWins { keep_same_oriented_overlap: true }, inside_other, touches)
            == !coplanar_selected(CoplanarSelectionRule::UnionFirstWins { keep_same_oriented_overlap: false }, inside_other, touches),
{
}

/// Reselects the components of one operand of a coplanar boolean by
/// `rule`, from whether each lies inside the other operand and whether it
/// touches one of `overlap_faces`.
pub fn coplanar_classification(
    components: &Vec<Vec<usize>>,
    inside_other: &Vec<bool>,
    overlap_faces: &Vec<usize>,
    rule: CoplanarSelectionRule,
) -> (out: ExactComponentSelection)
    requires
        inside_other@.len() == components@.len(),
    ensures
        out.selected@.len() == components@.len(),
        forall|i: int|
            0 <= i < components@.len() ==> #[trigger] out.selected@[i] == coplanar_selected(
                rule,
                inside_other@[i],
                touches_overlap(components@[i]@, overlap_faces@),
            ),
        increasing(out.selected_faces@),
        forall|f: usize|
            #[trigger] out.selected_faces@.contains(f) <==> exists|i: int|
                0 <= i < components@.len() && out.selected@[i] && (#[trigger] components@[i])@.contains(f),
{
    let mut selected: Vec<bool> = Vec::new();
    let mut i: usize = 0;
    while i < components.len()
        invariant
            inside_other@.len() == components@.len(),
            i <= components@.len(),
            selected@.len() == i,
            forall|j: int|
                0 <= j < i ==> #[trigger] selected@[j] == coplanar_selected(
                    rule,
                    inside_other@[j],
                    touches_overlap(components@[j]@, overlap_faces@),
                ),
        decreases components.len() - i,
    {
        let touches = component_touches_overlap(&components[i], overlap_faces);
        let inside = inside_other[i];
        let keep = match rule {
            CoplanarSelectionRule::UnionFirstWins { keep_same_oriented_overlap } => !inside || (keep_same_oriented_overlap
                && touches),
            CoplanarSelectionRule::IntersectionFirstWins { keep_same_oriented_overlap } => inside && (keep_same_oriented_overlap
                || !touches),
            CoplanarSelectionRule::DifferenceMinuend => !inside,
            CoplanarSelectionRule::DifferenceSubtrahend => inside && !touches,
        };
        selected.push(keep);
        i += 1;
    }
    let selected_faces = faces_of_selected(components, &selected);
    ExactComponentSelection { selected, selected_faces }
}

/// The union's reselection of the first operand: keep the components
/// outside the second, and, when asked, those touching a same-oriented
/// overlap.
pub fn coplanar_union_first_wins_classification(
    components: &Vec<Vec<usize>>,
    inside_other: &Vec<bool>,
    overlap_faces: &Vec<usize>,
    keep_same_oriented_overlap: bool,
) -> (out: ExactComponentSelection)
    requires
        inside_other@.len() == components@.len(),
    ensures
        out.selected@.len() == components@.len(),
        forall|i: int|
            0 <= i < components@.len() ==> #[trigger] out.selected@[i] == coplanar_selected(
                CoplanarSelectionRule::UnionFirstWins { keep_same_oriented_overlap },
                inside_other@[i],
                touches_overlap(components@[i]@, overlap_faces@),
            ),
        forall|i: int| 0 <= i < components@.len() && !inside_other@[i] ==> #[trigger] out.selected@[i],
        forall|i: int|
            0 <= i < components@.len() && inside_other@[i] ==> (#[trigger] out.selected@[i] <==> (keep_same_oriented_overlap
                && touches_overlap(components@[i]@, overlap_faces@))),
        increasing(out.selected_faces@),
        forall|f: usize|
            #[trigger] out.selected_faces@.contains(f) <==> exists|i: int|
                0 <= i < components@.len() && out.selected@[i] && (#[trigger] components@[i])@.contains(f),
{
    coplanar_classification(components, inside_other, overlap_faces, CoplanarSelectionRule::UnionFirstWins { keep_same_oriented_overlap })
}

/// The intersection's reselection of the first operand: keep the
/// components inside the second, dropping those touching a same-oriented
/// overlap unless asked to keep them.
pub fn coplanar_intersection_first_wins_classification(
    components: &Vec<Vec<usize>>,
    inside_other: &Vec<bool>,
    overlap_faces: &Vec<usize>,
    keep_same_oriented_overlap: bool,
) -> (out: ExactComponentSelection)
    requires
        inside_other@.len() == components@.len(),
    ensures
        out.selected@.len() == components@.len(),
        forall|i: int|
            0 <= i < components@.len() ==> #[trigger] out.selected@[i] == coplanar_selected(
                CoplanarSelectionRule::IntersectionFirstWins { keep_same_oriented_overlap },
                inside_other@[i],
                touches_overlap(components@[i]@, overlap_faces@),
            ),
        forall|i: int| 0 <= i < components@.len() && !inside_other@[i] ==> !(#[trigger] out.selected@[i]),
        forall|i: int|
            0 <= i < components@.len() && inside_other@[i] ==> (#[trigger] out.selected@[i] <==> (keep_same_oriented_overlap
                || !touches_overlap(components@[i]@, overlap_faces@))),
        increasing(out.selected_faces@),
        forall|f: usize|
            #[trigger] out.selected_faces@.contains(f) <==> exists|i: int|
                0 <= i < components@.len() && out.selected@[i] && (#[trigger] components@[i])@.contains(f),
{
    coplanar_classification(components, inside_other, overlap_faces, CoplanarSelectionRule::IntersectionFirstWins { keep_same_oriented_overlap })
}

/// The difference's reselection of the operand subtracted from: keep the
/// components outside the other.
pub fn coplanar_difference_minuend_classification(
    components: &Vec<Vec<usize>>,
    inside_other: &Vec<bool>,
) -> (out: ExactComponentSelection)
    requires
        inside_other@.len() == components@.len(),
    ensures
        out.selected@.len() == components@.len(),
        forall|i: int| 0 <= i < components@.len() ==> #[trigger] out.selected@[i] == !inside_other@[i],
        increasing(out.selected_faces@),
        forall|f: usize|
            #[trigger] out.selected_faces@.contains(f) <==> exists|i: int|
                0 <= i < components@.len() && out.selected@[i] && (#[trigger] components@[i])@.contains(f),
{
    let no_overlap: Vec<usize> = Vec::new();
    coplanar_classification(components, inside_other, &no_overlap, CoplanarSelectionRule::DifferenceMinuend)
}

/// The difference's reselection of the subtracted operand: keep the
/// components inside the other that touch no same-oriented overlap.
pub fn coplanar_difference_subtrahend_classification(
    components: &Vec<Vec<usize>>,
    inside_other: &Vec<bool>,
    overlap_faces: &Vec<usize>,
) -> (out: ExactComponentSelection)
    requires
        inside_other@.len() == components@.len(),
    ensures
        out.selected@.len() == components@.len(),
        forall|i: int|
            0 <= i < components@.len() ==> #[trigger] out.selected@[i] == coplanar_selected(
                CoplanarSelectionRule::DifferenceSubtrahend,
                inside_other@[i],
                touches_overlap(components@[i]@, overlap_faces@),
            ),
        forall|i: int|
            0 <= i < components@.len() ==> (#[trigger] out.selected@[i] <==> (inside_other@[i] && !touches_overlap(
                components@[i]@,
                overlap_faces@,
            ))),
        increasing(out.selected_faces@),
        forall|f: usize|
            #[trigger] out.selected_faces@.contains(f) <==> exists|i: int|
                0 <= i < components@.len() && out.selected@[i] && (#[trigger] components@[i])@.contains(f),
{
    coplanar_classification(components, inside_other, overlap_faces, CoplanarSelectionRule::DifferenceSubtrahend)
}

/// For each component: its index, whether it is kept, whether it lies
/// inside the other mesh, and its face count.
pub fn classification_component_summaries(
    components: &Vec<Vec<usize>>,
    selected: &Vec<bool>,
    inside_other: &Vec<bool>,
) -> (out: Vec<[usize; 4]>)
    requires
        selected@.len() == components@.len(),
        inside_other@.len() == components@.len(),
    ensures
        out@.len() == components@.len(),
        forall|i: int|
            0 <= i < components@.len() ==> #[trigger] out@[i] == [
                i as usize,
                if selected@[i] { 1usize } else { 0usize },
                if inside_other@[i] { 1usize } else { 0usize },
                components@[i]@.len() as usize,
            ],
{
    let mut out: Vec<[usize; 4]> = Vec::new();
    let mut i: usize = 0;
    while i < components.len()
        invariant
            selected@.len() == components@.len(),
            inside_other@.len() == components@.len(),
            i <= components@.len(),
            out@.len() == i,
            forall|j: int|
                0 <= j < i ==> #[trigger] out@[j] == [
                    j as usize,
                    if selected@[j] { 1usize } else { 0usize },
                    if inside_other@[j] { 1usize } else { 0usize },
                    components@[j]@.len() as usize,
                ],
        decreases components.len() - i,
    {
        let kept: usize = if selected[i] { 1 } else { 0 };
        let inside: usize = if inside_other[i] { 1 } else { 0 };
        out.push([i, kept, inside, components[i].len()]);
        i += 1;
    }
    out
}

/// The faces of each component.
pub fn classification_component_faces(components: &Vec<Vec<usize>>) -> (out: Vec<Vec<usize>>)
    ensures
        out@.len() == components@.len(),
        forall|i: int| 0 <= i < components@.len() ==> (#[trigger] out@[i])@ == components@[i]@,
{
    crate::source_cut2origin::copy_lists(components)
}

/// The kept faces when the cut paths settled the sides; none otherwise.
pub fn barriered_prepare_faces(cut_paths_consistent: bool, selected_faces: &Vec<usize>) -> (out: Vec<usize>)
    ensures
        out@ == (if cut_paths_consistent { selected_faces@ } else { Seq::empty() }),
{
    if cut_paths_consistent {
        crate::source_cut2origin::copy_items(selected_faces)
    } else {
        Vec::new()
    }
}

/// The slots of `valid` below `n`, each at its first occurrence, in order.
pub open spec fn distinct_slots(valid: Seq<usize>, n: int) -> Seq<usize>
    decreases valid.len(),
{
    if valid.len() == 0 {
        Seq::empty()
    } else {
        let before = distinct_slots(valid.drop_last(), n);
        if valid.last() < n && !before.contains(valid.last()) {
            before.push(valid.last())
        } else {
            before
        }
    }
}

/// A classification plan over the valid cut faces, with the cut face slot
/// behind each face the plan numbers.
pub struct ProjectedClassificationPlan {
    pub face_slots: Vec<usize>,
    pub plan: ExactComponentSelectionPlan,
}

/// Plans the component selection of the valid cut faces: the faces of the
/// cut mesh at the valid slots, each slot once and in order; with no such
/// face, an empty plan that reports the cut path sides as used and
/// consistent. The cut paths are `cut_edge_paths` when given, else the cut
/// mesh's own.
pub fn exact_projected_classification_plan(
    cut: &ExactCutMeshRecords,
    vertex_count: usize,
    other_vertex_count: usize,
    other_faces_i64: &Vec<[i64; 3]>,
    valid_cut_faces: &Vec<usize>,
    cut_edge_paths: Option<&Vec<Vec<[usize; 2]>>>,
    extra_barrier_edges: &Vec<[usize; 2]>,
    need_inside: bool,
    origin_is_first: bool,
    normalize_cut_path_orientation: bool,
) -> (out: Result<ProjectedClassificationPlan, GeometryError>)
    ensures
        ({
            let slots = distinct_slots(valid_cut_faces@, cut.faces@.len() as int);
            let projected = slots.map_values(|f: usize| cut.faces@[f as int]);
            let paths = match cut_edge_paths {
                Some(p) => p@,
                None => cut.cut_edge_paths@,
            };
            match out {
                Ok(p) => p.face_slots@ == slots && if slots.len() == 0 {
                    &&& p.plan.components@.len() == 0
                    &&& p.plan.need_inside == need_inside
                    &&& p.plan.used_cut_path_sides
                    &&& p.plan.cut_paths_consistent
                    &&& p.plan.include_components@.len() == 0
                    &&& p.plan.exclude_components@.len() == 0
                    &&& p.plan.cut_left_components == 0
                    &&& p.plan.cut_right_components == 0
                    &&& p.plan.cut_path_overlap_components == 0
                } else {
                    plan_result_ok(
                        Ok(p.plan),
                        vertex_count,
                        projected,
                        other_vertex_count,
                        other_faces_i64@,
                        cut.cut_edges@,
                        paths,
                        extra_barrier_edges@,
                        need_inside,
                        origin_is_first,
                        normalize_cut_path_orientation,
                    )
                },
                Err(e) => slots.len() > 0 && plan_result_ok(
                    Err(e),
                    vertex_count,
                    projected,
                    other_vertex_count,
                    other_faces_i64@,
                    cut.cut_edges@,
                    paths,
                    extra_barrier_edges@,
                    need_inside,
                    origin_is_first,
                    normalize_cut_path_orientation,
                ),
            }
        }),
{
    let ghost n = cut.faces@.len() as int;
    let mut face_slots: Vec<usize> = Vec::new();
    let mut projected: Vec<[i64; 3]> = Vec::new();
    let mut i: usize = 0;
    while i < valid_cut_faces.len()
        invariant
            n == cut.faces@.len(),
            i <= valid_cut_faces@.len(),
            face_slots@ == distinct_slots(valid_cut_faces@.take(i as int), n),
            projected@ == face_slots@.map_values(|f: usize| cut.faces@[f as int]),
        decreases valid_cut_faces.len() - i,
    {
        proof {
            assert(valid_cut_faces@.take(i as int + 1).drop_last() =~= valid_cut_faces@.take(i as int));
            assert(valid_cut_faces@.take(i as int + 1).last() == valid_cut_faces@[i as int]);
        }
        let slot = valid_cut_faces[i];
        if slot < cut.faces.len() && !crate::edge::contains_index(&face_slots, slot) {
            face_slots.push(slot);
            projected.push(cut.faces[slot]);
            proof {
                assert(projected@ =~= face_slots@.map_values(|f: usize| cut.faces@[f as int]));
            }
        }
        i += 1;
    }
    proof {
        assert(valid_cut_faces@.take(valid_cut_faces@.len() as int) =~= valid_cut_faces@);
    }
    if projected.len() == 0 {
        return Ok(
            ProjectedClassificationPlan {
                face_slots,
                plan: ExactComponentSelectionPlan {
                    components: Vec::new(),
                    need_inside,
                    used_cut_path_sides: true,
                    cut_paths_consistent: true,
                    include_components: Vec::new(),
                    exclude_components: Vec::new(),
                    cut_left_components: 0,
                    cut_right_components: 0,
                    cut_path_overlap_components: 0,
                },
            },
        );
    }
    let paths = match cut_edge_paths {
        Some(p) => p,
        None => &cut.cut_edge_paths,
    };
    match exact_classification_plan(
        vertex_count,
        &projected,
        other_vertex_count,
        other_faces_i64,
        &cut.cut_edges,
        paths,
        extra_barrier_edges,
        need_inside,
        origin_is_first,
        normalize_cut_path_orientation,
    ) {
        Ok(plan) => Ok(ProjectedClassificationPlan { face_slots, plan }),
        Err(e) => Err(e),
    }
}

/// A face index of the projected faces read back as its cut face slot;
/// indices past the slots stay as they are.
pub open spec fn slot_of(face_slots: Seq<usize>, f: usize) -> usize {
    if f < face_slots.len() {
        face_slots[f as int]
    } else {
        f
    }
}

/// The face indices of a component read back as cut face slots.
pub fn remap_component_faces(face_indices: &Vec<usize>, face_slots: &Vec<usize>) -> (out: Vec<usize>)
    ensures
        out@ == face_indices@.map_values(|f: usize| slot_of(face_slots@, f)),
{
    let mut out: Vec<usize> = Vec::new();
    let mut i: usize = 0;
    while i < face_indices.len()
        invariant
            i <= face_indices@.len(),
            out@ == face_indices@.take(i as int).map_values(|f: usize| slot_of(face_slots@, f)),
        decreases face_indices.len() - i,
    {
        let f = face_indices[i];
        let slot = if f < face_slots.len() {
            face_slots[f]
        } else {
            f
        };
        out.push(slot);
        proof {
            assert(out@ =~= face_indices@.take(i as int + 1).map_values(|f: usize| slot_of(face_slots@, f)));
        }
        i += 1;
    }
    proof {
        assert(face_indices@.take(face_indices@.len() as int) =~= face_indices@);
    }
    out
}

/// The selected faces read back as cut face slots, ascending and once
/// each; indices past the slots are dropped.
pub fn remap_selected_faces(selected_faces: &Vec<usize>, face_slots: &Vec<usize>) -> (out: Vec<usize>)
    ensures
        increasing(out@),
        forall|x: usize|
            #[trigger] out@.contains(x) <==> exists|t: int|
                0 <= t < selected_faces@.len() && selected_faces@[t] < face_slots@.len() && face_slots@[#[trigger] selected_faces@[t] as int]
                    == x,
{
    let mut out: Vec<usize> = Vec::new();
    let mut i: usize = 0;
    while i < selected_faces.len()
        invariant
            i <= selected_faces@.len(),
            increasing(out@),
            forall|x: usize|
                #[trigger] out@.contains(x) <==> exists|t: int|
                    0 <= t < i && selected_faces@[t] < face_slots@.len() && face_slots@[#[trigger] selected_faces@[t] as int] == x,
        decreases selected_faces.len() - i,
    {
        let ghost before = out@;
        let f = selected_faces[i];
        if f < face_slots.len() {
            crate::edge::insert_sorted(&mut out, face_slots[f]);
        }
        proof {
            assert forall|x: usize|
                #[trigger] out@.contains(x) <==> exists|t: int|
                    0 <= t < i + 1 && selected_faces@[t] < face_slots@.len() && face_slots@[#[trigger] selected_faces@[t] as int] == x by {
                assert(out@.contains(x) <==> out@.to_set().contains(x));
                assert(before.contains(x) <==> before.to_set().contains(x));
                if exists|t: int|
                    0 <= t < i + 1 && selected_faces@[t] < face_slots@.len() && face_slots@[#[trigger] selected_faces@[t] as int] == x {
                    let t = choose|t: int|
                        0 <= t < i + 1 && selected_faces@[t] < face_slots@.len() && face_slots@[#[trigger] selected_faces@[t] as int] == x;
                    if t < i {
                        assert(before.contains(x));
                    }
                }
                if before.contains(x) {
                    let t = choose|t: int|
                        0 <= t < i && selected_faces@[t] < face_slots@.len() && face_slots@[#[trigger] selected_faces@[t] as int] == x;
                }
            }
        }
        i += 1;
    }
    out
}

} // verus!
