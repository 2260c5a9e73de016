//! Appending an operand's selected faces to the assembled result: each
//! cut vertex gets an output vertex at its first use, a preassigned one when
//! the stitch gave it one, else a fresh one; each face is renumbered and
//! records where it came from.
use vstd::prelude::*;

use crate::edge::{extend_sorted, increasing};
use crate::exact_boolean::{
    paths_have_left_hole, spec_result_cut_source_operand, ExactBooleanOperand, ExactBooleanOperation,
    ExactBooleanOutputFaceSource, ExactBooleanStitchedEdgeSource,
};
use crate::exact_cut::ExactCutMeshRecords;
use crate::result_cut_paths::{
    coincident_output_vertices, coincident_spec, mapped_paths, mapped_result_cut_paths, result_edge, split_ok,
    MappedResultCutPaths,
};
use crate::stitch_pairs::ExactStitchPath;
use crate::mesh::face_ok;
use crate::prepare_helpers::keep;
use crate::prepared_parts::{corners, first_seen, lemma_corners_at, lemma_first_seen_contains, nones};

verus! {

/// The assembled result so far: the operand and cut vertex behind each
/// output vertex, the output faces, and where each face came from.
pub struct BooleanAssemblyBuilder {
    pub vertex_sources: Vec<(ExactBooleanOperand, usize)>,
    pub faces: Vec<[i64; 3]>,
    pub face_sources: Vec<ExactBooleanOutputFaceSource>,
}

/// The output vertex that the stitch preassigned to cut vertex `v`.
pub open spec fn preassigned_of(preassigned: Option<Seq<Option<usize>>>, v: usize) -> Option<usize> {
    match preassigned {
        Some(p) => if v < p.len() {
            p[v as int]
        } else {
            None
        },
        None => None,
    }
}

/// The preassigned output vertices, viewed.
pub open spec fn pre_view(preassigned: Option<&Vec<Option<usize>>>) -> Option<Seq<Option<usize>>> {
    match preassigned {
        Some(p) => Some(p@),
        None => None,
    }
}

/// Whether cut vertex `v` needs a fresh output vertex, as a predicate.
pub open spec fn fresh_pred(preassigned: Option<Seq<Option<usize>>>) -> spec_fn(usize) -> bool {
    |v: usize| preassigned_of(preassigned, v) is None
}

/// The cut vertices that get fresh output vertices, in the order of their
/// first use among `seen`.
pub open spec fn fresh_vertices(seen: Seq<usize>, preassigned: Option<Seq<Option<usize>>>) -> Seq<usize> {
    first_seen(keep(seen, fresh_pred(preassigned)))
}

/// `map` gives each cut vertex used in `seen` its output vertex: the
/// preassigned one when there is one, else `base` plus its place among the
/// fresh vertices.
pub open spec fn assembly_map_ok(
    map: Seq<Option<usize>>,
    vertex_count: usize,
    seen: Seq<usize>,
    preassigned: Option<Seq<Option<usize>>>,
    base: int,
) -> bool {
    let fresh = fresh_vertices(seen, preassigned);
    &&& map.len() == vertex_count
    &&& forall|v: int| 0 <= v < vertex_count ==> ((#[trigger] map[v]) is Some <==> seen.contains(v as usize))
    &&& forall|v: int|
        0 <= v < vertex_count && (#[trigger] map[v]) is Some && preassigned_of(preassigned, v as usize) is Some
            ==> map[v] == preassigned_of(preassigned, v as usize)
    &&& forall|v: int|
        0 <= v < vertex_count && (#[trigger] map[v]) is Some && preassigned_of(preassigned, v as usize) is None ==> {
            &&& base <= map[v]->0 < base + fresh.len()
            &&& fresh[map[v]->0 - base] == v
        }
    &&& forall|k: int| 0 <= k < fresh.len() ==> #[trigger] fresh[k] < vertex_count && map[fresh[k] as int] == Some((base + k) as usize)
}

/// The faces `faces` renumbered through `map`, the last two corners
/// swapped when `flip`.
pub open spec fn renumbered(map: Seq<Option<usize>>, face: [i64; 3], flip: bool) -> [i64; 3] {
    crate::prepared_parts::part_face(map, face, flip)
}

/// Where output face of cut face `g` came from.
pub open spec fn face_source_of(operand: ExactBooleanOperand, source_face_for_faces: Seq<usize>, g: usize) -> ExactBooleanOutputFaceSource {
    ExactBooleanOutputFaceSource {
        operand,
        cut_face: g,
        source_face: if g < source_face_for_faces.len() { source_face_for_faces[g as int] } else { g },
    }
}

proof fn lemma_keep_push(s: Seq<usize>, p: spec_fn(usize) -> bool, x: usize)
    ensures
        keep(s.push(x), p) == if p(x) { keep(s, p).push(x) } else { keep(s, p) },
{
    assert(s.push(x).drop_last() =~= s);
}

proof fn lemma_sources_extend(
    prev: Seq<(ExactBooleanOperand, usize)>,
    next: Seq<(ExactBooleanOperand, usize)>,
    base: int,
    f0: Seq<usize>,
    f1: Seq<usize>,
    operand: ExactBooleanOperand,
)
    requires
        0 <= base,
        prev.len() == base + f0.len(),
        forall|k: int| 0 <= k < f0.len() ==> prev[base + k] == (operand, #[trigger] f0[k]),
        f0.len() <= f1.len(),
        f1.take(f0.len() as int) == f0,
        next == prev + f1.skip(f0.len() as int).map_values(|x: usize| (operand, x)),
    ensures
        next.len() == base + f1.len(),
        forall|k: int| 0 <= k < base ==> #[trigger] next[k] == prev[k],
        forall|k: int| 0 <= k < f1.len() ==> next[base + k] == (operand, #[trigger] f1[k]),
{
    assert forall|k: int| 0 <= k < f1.len() implies next[base + k] == (operand, #[trigger] f1[k]) by {
        if k < f0.len() {
            assert(f1.take(f0.len() as int)[k] == f1[k]);
        } else {
            assert(f1.skip(f0.len() as int)[k - f0.len()] == f1[k]);
        }
    }
}

/// The members of `s` in ascending order, each once.
pub open spec fn ascending_members(s: Seq<usize>) -> Seq<usize> {
    choose|o: Seq<usize>| increasing(o) && forall|x: usize| #[trigger] o.contains(x) <==> s.contains(x)
}

/// An ascending list with the members of `s` is `ascending_members(s)`.
pub proof fn lemma_ascending_members(s: Seq<usize>, o: Seq<usize>)
    requires
        increasing(o),
        forall|x: usize| #[trigger] o.contains(x) <==> s.contains(x),
    ensures
        o == ascending_members(s),
{
    let a = ascending_members(s);
    assert(increasing(a) && forall|x: usize| #[trigger] a.contains(x) <==> s.contains(x));
    crate::stitch_pairs::lemma_increasing_same_members(o, a);
}

/// The output vertices that appending the faces `selected` of a mesh adds,
/// each with its operand and cut vertex.
pub open spec fn appended_sources(
    faces: Seq<[i64; 3]>,
    selected: Seq<usize>,
    preassigned: Option<Seq<Option<usize>>>,
    operand: ExactBooleanOperand,
) -> Seq<(ExactBooleanOperand, usize)> {
    fresh_vertices(corners(faces, ascending_members(selected)), preassigned).map_values(|x: usize| (operand, x))
}

/// The output faces that appending the faces `selected` adds.
pub open spec fn appended_faces(map: Seq<Option<usize>>, faces: Seq<[i64; 3]>, selected: Seq<usize>, flip: bool) -> Seq<[i64; 3]> {
    ascending_members(selected).map_values(|g: usize| renumbered(map, faces[g as int], flip))
}

/// Where the output faces that appending the faces `selected` adds came from.
pub open spec fn appended_face_sources(
    operand: ExactBooleanOperand,
    source_face_for_faces: Seq<usize>,
    selected: Seq<usize>,
) -> Seq<ExactBooleanOutputFaceSource> {
    ascending_members(selected).map_values(|g: usize| face_source_of(operand, source_face_for_faces, g))
}

impl BooleanAssemblyBuilder {
    /// The output vertex of cut vertex `v` of `operand`: its number when
    /// it has one, else the preassigned one, else a fresh output vertex.
    fn output_vertex(
        &mut self,
        map: &mut Vec<Option<usize>>,
        v: usize,
        operand: ExactBooleanOperand,
        preassigned: Option<&Vec<Option<usize>>>,
        Ghost(seen): Ghost<Seq<usize>>,
        Ghost(vertex_count): Ghost<usize>,
        Ghost(base): Ghost<int>,
    ) -> (out: usize)
        requires
            v < vertex_count,
            assembly_map_ok(old(map)@, vertex_count, seen, pre_view(preassigned), base),
            old(self).vertex_sources@.len() == base + fresh_vertices(seen, pre_view(preassigned)).len(),
        ensures
            assembly_map_ok(final(map)@, vertex_count, seen.push(v), pre_view(preassigned), base),
            final(map)@[v as int] == Some(out),
            forall|u: int| 0 <= u < vertex_count && (#[trigger] old(map)@[u]) is Some ==> final(map)@[u] == old(map)@[u],
            final(self).vertex_sources@ == old(self).vertex_sources@ + (fresh_vertices(
                seen.push(v),
                pre_view(preassigned),
            ).skip(fresh_vertices(seen, pre_view(preassigned)).len() as int)).map_values(
                |x: usize| (operand, x),
            ),
            final(self).vertex_sources@.len() == base + fresh_vertices(seen.push(v), pre_view(preassigned)).len(),
            fresh_vertices(seen, pre_view(preassigned)).len() <= fresh_vertices(seen.push(v), pre_view(preassigned)).len(),
            fresh_vertices(seen.push(v), pre_view(preassigned)).take(fresh_vertices(seen, pre_view(preassigned)).len() as int)
                == fresh_vertices(seen, pre_view(preassigned)),
            final(self).faces@ == old(self).faces@,
            final(self).face_sources@ == old(self).face_sources@,
    {
        let ghost pre = pre_view(preassigned);
        let ghost fresh = fresh_vertices(seen, pre);
        let ghost kept = keep(seen, fresh_pred(pre));
        proof {
            lemma_keep_push(seen, fresh_pred(pre), v);
            lemma_first_seen_contains(kept, v);
            crate::prepare_helpers::lemma_keep_satisfies(seen, fresh_pred(pre));
            assert(seen.push(v).drop_last() =~= seen);
        }
        match map[v] {
            Some(mapped) => {
                proof {
                    assert(seen.contains(v));
                    let next_fresh = fresh_vertices(seen.push(v), pre);
                    if fresh_pred(pre)(v) {
                        let i = choose|i: int| 0 <= i < seen.len() && seen[i] == v;
                        assert(kept.contains(v)) by {
                            crate::prepare_helpers::lemma_keep_contains(seen, fresh_pred(pre), i);
                        }
                        assert(kept.push(v).drop_last() =~= kept);
                        assert(next_fresh == fresh);
                    } else {
                        assert(next_fresh == fresh);
                    }
                    assert(next_fresh.skip(fresh.len() as int) =~= Seq::<usize>::empty());
                    assert(next_fresh.take(fresh.len() as int) =~= fresh);
                    assert(self.vertex_sources@ =~= self.vertex_sources@ + Seq::<usize>::empty().map_values(|x: usize| (operand, x)));
                    assert forall|u: int| 0 <= u < vertex_count implies ((#[trigger] map@[u]) is Some <==> seen.push(v).contains(u as usize)) by {
                        if seen.contains(u as usize) {
                            let i = choose|i: int| 0 <= i < seen.len() && seen[i] == u as usize;
                            assert(seen.push(v)[i] == u as usize);
                        }
                        if seen.push(v).contains(u as usize) && u as usize != v {
                            let i = choose|i: int| 0 <= i < seen.push(v).len() && seen.push(v)[i] == u as usize;
                            assert(seen[i] == u as usize);
                        }
                    }
                }
                mapped
            },
            None => {
                let given = match preassigned {
                    Some(p) => if v < p.len() {
                        p[v]
                    } else {
                        None
                    },
                    None => None,
                };
                let ghost old_map = map@;
                let ghost old_sources = self.vertex_sources@;
                proof {
                    assert(!seen.contains(v));
                    assert(given == preassigned_of(pre, v));
                }
                let out = match given {
                    Some(o) => {
                        proof {
                            assert(!fresh_pred(pre)(v));
                            assert(fresh_vertices(seen.push(v), pre) == fresh);
                        }
                        o
                    },
                    None => {
                        let o = self.vertex_sources.len();
                        self.vertex_sources.push((operand, v));
                        proof {
                            assert(fresh_pred(pre)(v));
                            assert(!kept.contains(v)) by {
                                if kept.contains(v) {
                                    let i = choose|i: int| 0 <= i < kept.len() && kept[i] == v;
                                    crate::prepare_helpers::lemma_keep_member(seen, fresh_pred(pre), i);
                                }
                            }
                            assert(!fresh.contains(v));
                            assert(keep(seen.push(v), fresh_pred(pre)) == kept.push(v));
                            assert(kept.push(v).drop_last() =~= kept);
                            assert(kept.push(v).last() == v);
                            assert(fresh_vertices(seen.push(v), pre) == fresh.push(v));
                            assert(fresh.push(v).skip(fresh.len() as int) =~= seq![v]);
                            assert(self.vertex_sources@ =~= old_sources + seq![v].map_values(|x: usize| (operand, x)));
                        }
                        o
                    },
                };
                map.set(v, Some(out));
                proof {
                    let next_fresh = fresh_vertices(seen.push(v), pre);
                    assert(next_fresh.take(fresh.len() as int) =~= fresh);
                    if given is Some {
                        assert(next_fresh.skip(fresh.len() as int) =~= Seq::<usize>::empty());
                        assert(self.vertex_sources@ =~= old_sources + Seq::<usize>::empty().map_values(|x: usize| (operand, x)));
                    }
                    assert forall|u: int| 0 <= u < vertex_count implies ((#[trigger] map@[u]) is Some <==> seen.push(v).contains(u as usize)) by {
                        if seen.contains(u as usize) {
                            let i = choose|i: int| 0 <= i < seen.len() && seen[i] == u as usize;
                            assert(seen.push(v)[i] == u as usize);
                        }
                        if seen.push(v).contains(u as usize) && u as usize != v {
                            let i = choose|i: int| 0 <= i < seen.push(v).len() && seen.push(v)[i] == u as usize;
                            assert(seen[i] == u as usize);
                        }
                        if u as usize == v {
                            assert(seen.push(v)[seen.len() as int] == v);
                        }
                    }
                    assert forall|k: int| 0 <= k < next_fresh.len() implies #[trigger] next_fresh[k] < vertex_count && map@[next_fresh[k] as int]
                        == Some((base + k) as usize) by {
                        if k < fresh.len() {
                            assert(next_fresh[k] == fresh[k]);
                            assert(old_map[fresh[k] as int] == Some((base + k) as usize));
                        }
                    }
                    assert forall|u: int|
                        0 <= u < vertex_count && (#[trigger] map@[u]) is Some && preassigned_of(pre, u as usize) is None implies {
                            &&& base <= map@[u]->0 < base + next_fresh.len()
                            &&& next_fresh[map@[u]->0 - base] == u
                        } by {
                        if u != v {
                            assert(old_map[u] is Some);
                            assert(next_fresh[old_map[u]->0 - base] == fresh[old_map[u]->0 - base]);
                        }
                    }
                }
                out
            },
        }
    }

    /// Appends the selected faces of `operand`, ascending and each once:
    /// every corner gets its output vertex at its first use, the one the
    /// stitch preassigned if any, else a fresh output vertex recorded with
    /// its cut vertex; each face is renumbered (the last two corners
    /// swapped when `flip`) and records its cut face and source face.
    /// Returns the output vertex of each cut vertex.
    #[verifier::rlimit(60)]
    #[verifier::spinoff_prover]
    pub fn append_selected(
        &mut self,
        vertex_count: usize,
        faces: &Vec<[i64; 3]>,
        source_face_for_faces: &Vec<usize>,
        selected_faces: &Vec<usize>,
        flip: bool,
        operand: ExactBooleanOperand,
        preassigned: Option<&Vec<Option<usize>>>,
    ) -> (map: Vec<Option<usize>>)
        requires
            forall|t: int|
                0 <= t < selected_faces@.len() ==> #[trigger] selected_faces@[t] < faces@.len() && face_ok(
                    faces@[selected_faces@[t] as int],
                    vertex_count,
                ),
        ensures
            assembly_map_ok(
                map@,
                vertex_count,
                corners(faces@, ascending_members(selected_faces@)),
                pre_view(preassigned),
                old(self).vertex_sources@.len() as int,
            ),
            final(self).vertex_sources@ == old(self).vertex_sources@ + appended_sources(
                faces@,
                selected_faces@,
                pre_view(preassigned),
                operand,
            ),
            final(self).faces@ == old(self).faces@ + appended_faces(map@, faces@, selected_faces@, flip),
            final(self).face_sources@ == old(self).face_sources@ + appended_face_sources(
                operand,
                source_face_for_faces@,
                selected_faces@,
            ),
    {
        let ghost pre = pre_view(preassigned);
        let ghost base = self.vertex_sources@.len() as int;
        let ghost old_sources = self.vertex_sources@;
        let ghost old_faces = self.faces@;
        let ghost old_face_sources = self.face_sources@;
        let mut order: Vec<usize> = Vec::new();
        extend_sorted(&mut order, selected_faces);
        let mut map = nones(vertex_count);
        proof {
            assert(fresh_vertices(corners(faces@, order@.take(0)), pre) =~= Seq::<usize>::empty()) by {
                assert(corners(faces@, order@.take(0)) =~= Seq::<usize>::empty());
                assert(keep(Seq::<usize>::empty(), fresh_pred(pre)) =~= Seq::<usize>::empty());
            }
        }
        let mut t: usize = 0;
        while t < order.len()
            invariant
                pre == pre_view(preassigned),
                base == old_sources.len(),
                increasing(order@),
                forall|x: usize| #[trigger] order@.contains(x) <==> selected_faces@.contains(x),
                forall|s: int|
                    0 <= s < selected_faces@.len() ==> #[trigger] selected_faces@[s] < faces@.len() && face_ok(
                        faces@[selected_faces@[s] as int],
                        vertex_count,
                    ),
                t <= order@.len(),
                assembly_map_ok(map@, vertex_count, corners(faces@, order@.take(t as int)), pre, base),
                self.vertex_sources@.len() == base + fresh_vertices(corners(faces@, order@.take(t as int)), pre).len(),
                forall|k: int| 0 <= k < base ==> #[trigger] self.vertex_sources@[k] == old_sources[k],
                forall|k: int|
                    0 <= k < fresh_vertices(corners(faces@, order@.take(t as int)), pre).len() ==> self.vertex_sources@[base + k] == (
                    operand,
                    #[trigger] fresh_vertices(corners(faces@, order@.take(t as int)), pre)[k],
                ),
                self.faces@.len() == old_faces.len() + t,
                forall|k: int| 0 <= k < old_faces.len() ==> #[trigger] self.faces@[k] == old_faces[k],
                forall|i: int| 0 <= i < t ==> #[trigger] self.faces@[old_faces.len() + i] == renumbered(map@, faces@[order@[i] as int], flip),
                self.face_sources@ == old_face_sources + order@.take(t as int).map_values(
                    |g: usize| face_source_of(operand, source_face_for_faces@, g),
                ),
            decreases order.len() - t,
        {
            let g = order[t];
            proof {
                assert(order@.contains(g));
                let s = choose|s: int| 0 <= s < selected_faces@.len() && selected_faces@[s] == g;
                assert(selected_faces@[s] < faces@.len());
            }
            let face = faces[g];
            let ghost seen0 = corners(faces@, order@.take(t as int));
            let ghost map0 = map@;
            let ghost sources0 = self.vertex_sources@;
            let ghost faces0 = self.faces@;
            proof {
                assert(order@.take(t as int + 1).drop_last() =~= order@.take(t as int));
                assert(order@.take(t as int + 1).last() == g);
                lemma_corners_at(faces@, order@.take(t as int));
            }
            let a = self.output_vertex(&mut map, face[0] as usize, operand, preassigned, Ghost(seen0), Ghost(vertex_count), Ghost(base));
            let ghost seen1 = seen0.push(face[0] as usize);
            let ghost sources1 = self.vertex_sources@;
            proof {
                lemma_sources_extend(sources0, sources1, base, fresh_vertices(seen0, pre), fresh_vertices(seen1, pre), operand);
            }
            let b = self.output_vertex(
                &mut map,
                face[1] as usize,
                operand,
                preassigned,
                Ghost(seen0.push(face[0] as usize)),
                Ghost(vertex_count),
                Ghost(base),
            );
            let ghost seen2 = seen1.push(face[1] as usize);
            let ghost sources2 = self.vertex_sources@;
            proof {
                lemma_sources_extend(sources1, sources2, base, fresh_vertices(seen1, pre), fresh_vertices(seen2, pre), operand);
            }
            let c = self.output_vertex(
                &mut map,
                face[2] as usize,
                operand,
                preassigned,
                Ghost(seen0.push(face[0] as usize).push(face[1] as usize)),
                Ghost(vertex_count),
                Ghost(base),
            );
            let ghost seen3 = seen0.push(face[0] as usize).push(face[1] as usize).push(face[2] as usize);
            proof {
                lemma_sources_extend(sources2, self.vertex_sources@, base, fresh_vertices(seen2, pre), fresh_vertices(seen3, pre), operand);
            }
            if flip {
                self.faces.push([a as i64, c as i64, b as i64]);
            } else {
                self.faces.push([a as i64, b as i64, c as i64]);
            }
            let cut_source = if g < source_face_for_faces.len() {
                source_face_for_faces[g]
            } else {
                g
            };
            self.face_sources.push(ExactBooleanOutputFaceSource { operand, cut_face: g, source_face: cut_source });
            proof {
                assert(corners(faces@, order@.take(t as int + 1)) =~= seen3);
                assert(self.face_sources@ =~= old_face_sources + order@.take(t as int + 1).map_values(
                    |g: usize| face_source_of(operand, source_face_for_faces@, g),
                ));
                assert forall|i: int| 0 <= i < t + 1 implies #[trigger] self.faces@[old_faces.len() + i] == renumbered(
                    map@,
                    faces@[order@[i] as int],
                    flip,
                ) by {
                    if i < t {
                        let h = faces@[order@[i] as int];
                        assert(order@.take(t as int)[i] == order@[i]);
                        assert(seen0[3 * i + 0] == h[0] as usize);
                        assert(seen0[3 * i + 1] == h[1] as usize);
                        assert(seen0[3 * i + 2] == h[2] as usize);
                        assert(seen0.contains(h[0] as usize));
                        assert(seen0.contains(h[1] as usize));
                        assert(seen0.contains(h[2] as usize));
                        assert(order@.contains(order@[i]));
                        let s = choose|s: int| 0 <= s < selected_faces@.len() && selected_faces@[s] == order@[i];
                        assert(face_ok(faces@[selected_faces@[s] as int], vertex_count));
                        assert(faces0[old_faces.len() + i] == renumbered(map0, h, flip));
                    }
                }
            }
            t += 1;
        }
        proof {
            assert(order@.take(order@.len() as int) =~= order@);
            lemma_ascending_members(selected_faces@, order@);
            let fresh = fresh_vertices(corners(faces@, order@), pre);
            assert(self.vertex_sources@ =~= old_sources + fresh.map_values(|x: usize| (operand, x)));
            let renumbered_faces = order@.map_values(|g: usize| renumbered(map@, faces@[g as int], flip));
            assert forall|i: int| 0 <= i < order@.len() implies self.faces@[old_faces.len() + i] == #[trigger] renumbered_faces[i] by {
                assert(self.faces@[old_faces.len() + i] == renumbered(map@, faces@[order@[i] as int], flip));
            }
            assert(self.faces@ =~= old_faces + renumbered_faces);
        }
        map
    }
}


/// One connected part of a cut mesh and the verdict on it.
pub struct ExactComponentClassification {
    pub component_index: usize,
    pub face_indices: Vec<usize>,
    pub inside_other: bool,
    pub selected: bool,
}

/// The classification of one operand's cut mesh: its components, the
/// faces kept, and what the cut paths said.
pub struct ExactMeshPartClassification {
    pub components: Vec<ExactComponentClassification>,
    pub selected_faces: Vec<usize>,
    pub used_cut_path_sides: bool,
    pub cut_paths_consistent: bool,
    pub cut_left_components: usize,
    pub cut_right_components: usize,
    pub cut_path_overlap_components: usize,
}

/// The assembled boolean result: each output vertex by its operand and cut
/// vertex, the output faces and where they came from, the vertex maps, and
/// what each operand's classification contributed.
pub struct ExactBooleanAssemblyResult {
    pub vertex_sources: Vec<(ExactBooleanOperand, usize)>,
    pub faces: Vec<[i64; 3]>,
    pub face_sources: Vec<ExactBooleanOutputFaceSource>,
    pub first_output_vertex_for_cut_vertex: Vec<Option<usize>>,
    pub second_output_vertex_for_cut_vertex: Vec<Option<usize>>,
    pub stitched_edge_sources: Vec<ExactBooleanStitchedEdgeSource>,
    pub stitched_edge_paths: Vec<ExactStitchPath>,
    pub prepare_first_faces: Vec<usize>,
    pub prepare_second_faces: Vec<usize>,
    pub selected_first_faces: Vec<usize>,
    pub selected_second_faces: Vec<usize>,
    pub flipped_first: bool,
    pub flipped_second: bool,
    pub first_cut_paths_consistent: bool,
    pub second_cut_paths_consistent: bool,
    pub first_cut_path_side_components: [usize; 2],
    pub second_cut_path_side_components: [usize; 2],
    pub first_cut_path_overlap_components: usize,
    pub second_cut_path_overlap_components: usize,
    pub result_cut_paths: Vec<Vec<[usize; 2]>>,
    pub result_cut_path_closed: Vec<bool>,
    pub result_cut_paths_complete: bool,
}

/// The faces a classification keeps; none without one.
pub open spec fn selected_of(classification: Option<&ExactMeshPartClassification>) -> Seq<usize> {
    match classification {
        Some(c) => c.selected_faces@,
        None => Seq::empty(),
    }
}

/// The faces handed on to preparation: the kept faces when the cut paths
/// were consistent, else none.
pub open spec fn prepare_of(classification: Option<&ExactMeshPartClassification>) -> Seq<usize> {
    match classification {
        Some(c) => if c.cut_paths_consistent {
            c.selected_faces@
        } else {
            Seq::empty()
        },
        None => Seq::empty(),
    }
}

/// Every kept face is a face of the mesh with corners below `vertex_count`.
pub open spec fn selection_fits(faces: Seq<[i64; 3]>, selected: Seq<usize>, vertex_count: usize) -> bool {
    forall|t: int| 0 <= t < selected.len() ==> #[trigger] selected[t] < faces.len() && face_ok(faces[selected[t] as int], vertex_count)
}

fn prepare_part_faces(classification: Option<&ExactMeshPartClassification>) -> (out: Vec<usize>)
    ensures
        out@ == prepare_of(classification),
{
    match classification {
        Some(c) => if c.cut_paths_consistent {
            crate::source_cut2origin::copy_items(&c.selected_faces)
        } else {
            Vec::new()
        },
        None => Vec::new(),
    }
}

fn selected_part_faces(classification: Option<&ExactMeshPartClassification>) -> (out: Vec<usize>)
    ensures
        out@ == selected_of(classification),
{
    match classification {
        Some(c) => crate::source_cut2origin::copy_items(&c.selected_faces),
        None => Vec::new(),
    }
}

/// The components left and right of the cut paths; none without a
/// classification.
pub open spec fn side_components_of(classification: Option<&ExactMeshPartClassification>) -> [usize; 2] {
    match classification {
        Some(c) => [c.cut_left_components, c.cut_right_components],
        None => [0, 0],
    }
}

/// Whether the cut paths were consistent; so without a classification.
pub open spec fn consistent_of(classification: Option<&ExactMeshPartClassification>) -> bool {
    match classification {
        Some(c) => c.cut_paths_consistent,
        None => true,
    }
}

/// The components on both sides of the cut paths; none without a
/// classification.
pub open spec fn overlap_of(classification: Option<&ExactMeshPartClassification>) -> usize {
    match classification {
        Some(c) => c.cut_path_overlap_components,
        None => 0,
    }
}

fn cut_path_side_components(classification: Option<&ExactMeshPartClassification>) -> (out: [usize; 2])
    ensures
        out == side_components_of(classification),
{
    match classification {
        Some(c) => [c.cut_left_components, c.cut_right_components],
        None => [0, 0],
    }
}

fn cut_path_overlap_components(classification: Option<&ExactMeshPartClassification>) -> (out: usize)
    ensures
        out == overlap_of(classification),
{
    match classification {
        Some(c) => c.cut_path_overlap_components,
        None => 0,
    }
}

fn cut_paths_consistent(classification: Option<&ExactMeshPartClassification>) -> (out: bool)
    ensures
        out == consistent_of(classification),
{
    match classification {
        Some(c) => c.cut_paths_consistent,
        None => true,
    }
}

/// The number of output vertices that appending the kept faces of a mesh
/// adds when nothing is preassigned.
pub open spec fn fresh_count(faces: Seq<[i64; 3]>, selected: Seq<usize>) -> int {
    fresh_vertices(corners(faces, ascending_members(selected)), None).len() as int
}

/// Assembles two classified cut meshes without a stitch: the kept faces of
/// each operand are appended, the second's first for an intersection, the
/// first's first otherwise; the second operand's faces are flipped for
/// `DifferenceAB` and the first's for `DifferenceBA`. Each cut vertex used
/// gets an output vertex at its first use. The result's cut paths are the
/// source operand's, mapped through its vertex map, else through the output
/// vertex at the same position (`close_first[s]` and `close_second[s]` list
/// the cut vertices of each operand at source vertex `s`'s position), split
/// where an edge does not map.
#[verifier::rlimit(40)]
pub fn assemble_classified_boolean(
    first: &ExactCutMeshRecords,
    first_vertex_count: usize,
    second: &ExactCutMeshRecords,
    second_vertex_count: usize,
    first_classification: Option<&ExactMeshPartClassification>,
    second_classification: Option<&ExactMeshPartClassification>,
    operation: ExactBooleanOperation,
    close_first: &Vec<Vec<usize>>,
    close_second: &Vec<Vec<usize>>,
) -> (out: ExactBooleanAssemblyResult)
    requires
        selection_fits(first.faces@, selected_of(first_classification), first_vertex_count),
        selection_fits(second.faces@, selected_of(second_classification), second_vertex_count),
    ensures
        ({
            let sel1 = selected_of(first_classification);
            let sel2 = selected_of(second_classification);
            let flip1 = operation == ExactBooleanOperation::DifferenceBA;
            let flip2 = operation == ExactBooleanOperation::DifferenceAB;
            let second_leads = operation == ExactBooleanOperation::Intersection;
            let base1 = if second_leads { fresh_count(second.faces@, sel2) } else { 0 };
            let base2 = if second_leads { 0 } else { fresh_count(first.faces@, sel1) };
            let map1 = out.first_output_vertex_for_cut_vertex@;
            let map2 = out.second_output_vertex_for_cut_vertex@;
            let src1 = appended_sources(first.faces@, sel1, None, ExactBooleanOperand::First);
            let src2 = appended_sources(second.faces@, sel2, None, ExactBooleanOperand::Second);
            let faces1 = appended_faces(map1, first.faces@, sel1, flip1);
            let faces2 = appended_faces(map2, second.faces@, sel2, flip2);
            let fs1 = appended_face_sources(ExactBooleanOperand::First, first.source_face_for_faces@, sel1);
            let fs2 = appended_face_sources(ExactBooleanOperand::Second, second.source_face_for_faces@, sel2);
            let op = spec_result_cut_source_operand(operation);
            let source = if op == ExactBooleanOperand::First { *first } else { *second };
            let vmap = if op == ExactBooleanOperand::First { map1 } else { map2 };
            let coincident = coincident_spec(close_first@, close_second@, map1, map2);
            &&& assembly_map_ok(map1, first_vertex_count, corners(first.faces@, ascending_members(sel1)), None, base1)
            &&& assembly_map_ok(map2, second_vertex_count, corners(second.faces@, ascending_members(sel2)), None, base2)
            &&& out.vertex_sources@ == if second_leads { src2 + src1 } else { src1 + src2 }
            &&& out.faces@ == if second_leads { faces2 + faces1 } else { faces1 + faces2 }
            &&& out.face_sources@ == if second_leads { fs2 + fs1 } else { fs1 + fs2 }
            &&& out.stitched_edge_sources@.len() == 0
            &&& out.stitched_edge_paths@.len() == 0
            &&& out.prepare_first_faces@ == prepare_of(first_classification)
            &&& out.prepare_second_faces@ == prepare_of(second_classification)
            &&& out.selected_first_faces@ == sel1
            &&& out.selected_second_faces@ == sel2
            &&& out.flipped_first == flip1
            &&& out.flipped_second == flip2
            &&& out.first_cut_paths_consistent == consistent_of(first_classification)
            &&& out.second_cut_paths_consistent == consistent_of(second_classification)
            &&& out.first_cut_path_side_components == side_components_of(first_classification)
            &&& out.second_cut_path_side_components == side_components_of(second_classification)
            &&& out.first_cut_path_overlap_components == overlap_of(first_classification)
            &&& out.second_cut_path_overlap_components == overlap_of(second_classification)
            &&& split_ok(
                mapped_paths(source.cut_edge_paths@, |e: [usize; 2]| result_edge(vmap, coincident, Map::empty(), e)),
                source.cut_edge_path_closed@,
                MappedResultCutPaths {
                    paths: out.result_cut_paths,
                    closed: out.result_cut_path_closed,
                    complete: out.result_cut_paths_complete,
                },
            )
        }),
{
    let selected_first = selected_part_faces(first_classification);
    let selected_second = selected_part_faces(second_classification);
    let prepare_first_faces = prepare_part_faces(first_classification);
    let prepare_second_faces = prepare_part_faces(second_classification);
    let flipped_first = operation == ExactBooleanOperation::DifferenceBA;
    let flipped_second = operation == ExactBooleanOperation::DifferenceAB;
    let mut output = BooleanAssemblyBuilder { vertex_sources: Vec::new(), faces: Vec::new(), face_sources: Vec::new() };
    let (first_vertex_map, second_vertex_map) = if paths_have_left_hole(operation) {
        let second_vertex_map = output.append_selected(
            second_vertex_count,
            &second.faces,
            &second.source_face_for_faces,
            &selected_second,
            flipped_second,
            ExactBooleanOperand::Second,
            None,
        );
        proof {
            assert(output.vertex_sources@.len() == fresh_count(second.faces@, selected_second@));
        }
        let first_vertex_map = output.append_selected(
            first_vertex_count,
            &first.faces,
            &first.source_face_for_faces,
            &selected_first,
            flipped_first,
            ExactBooleanOperand::First,
            None,
        );
        (first_vertex_map, second_vertex_map)
    } else {
        let first_vertex_map = output.append_selected(
            first_vertex_count,
            &first.faces,
            &first.source_face_for_faces,
            &selected_first,
            flipped_first,
            ExactBooleanOperand::First,
            None,
        );
        proof {
            assert(output.vertex_sources@.len() == fresh_count(first.faces@, selected_first@));
        }
        let second_vertex_map = output.append_selected(
            second_vertex_count,
            &second.faces,
            &second.source_face_for_faces,
            &selected_second,
            flipped_second,
            ExactBooleanOperand::Second,
            None,
        );
        (first_vertex_map, second_vertex_map)
    };
    let coincident = coincident_output_vertices(close_first, close_second, &first_vertex_map, &second_vertex_map);
    let result_cut = mapped_result_cut_paths(
        operation,
        first,
        second,
        None,
        &first_vertex_map,
        &second_vertex_map,
        &coincident,
    );
    proof {
        assert(Seq::<(ExactBooleanOperand, usize)>::empty() + output.vertex_sources@ =~= output.vertex_sources@);
    }
    ExactBooleanAssemblyResult {
        vertex_sources: output.vertex_sources,
        faces: output.faces,
        face_sources: output.face_sources,
        first_output_vertex_for_cut_vertex: first_vertex_map,
        second_output_vertex_for_cut_vertex: second_vertex_map,
        stitched_edge_sources: Vec::new(),
        stitched_edge_paths: Vec::new(),
        prepare_first_faces,
        prepare_second_faces,
        selected_first_faces: selected_first,
        selected_second_faces: selected_second,
        flipped_first,
        flipped_second,
        first_cut_paths_consistent: cut_paths_consistent(first_classification),
        second_cut_paths_consistent: cut_paths_consistent(second_classification),
        first_cut_path_side_components: cut_path_side_components(first_classification),
        second_cut_path_side_components: cut_path_side_components(second_classification),
        first_cut_path_overlap_components: cut_path_overlap_components(first_classification),
        second_cut_path_overlap_components: cut_path_overlap_components(second_classification),
        result_cut_paths: result_cut.paths,
        result_cut_path_closed: result_cut.closed,
        result_cut_paths_complete: result_cut.complete,
    }
}

} // verus!
