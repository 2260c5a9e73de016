//! Inputs of the record rewrite read off the cut meshes: which cut edge
//! each cut path edge is, each cut edge claimed once, the prepared faces
//! that no fill appended, and each operand's side of a stitch pair.
use vstd::prelude::*;

use crate::edge::spec_ordered;
use crate::exact_boolean::ExactBooleanOperand;
use crate::exact_boolean_topology::AssemblyTopology;
use crate::exact_cut::ExactCutMeshRecords;
use crate::prepare_helpers::{in_ranges, keep};
use crate::stitch_pairs::ExactStitchEdgePair;

verus! {

/// Cut edges handed out to the cut path edges that name them, each at most
/// once: an edge goes to the first unused cut edge with the same direction,
/// else to the first unused one with the same ends.
pub struct CutEdgeOccurrenceLookup {
    pub edges: Vec<[usize; 2]>,
    pub used: Vec<bool>,
}

/// The first cut edge from `start` on that is unused and is `edge`, in that
/// direction when `directed`, else with the same ends.
pub open spec fn first_unused(edges: Seq<[usize; 2]>, used: Seq<bool>, edge: [usize; 2], directed: bool, start: int) -> Option<usize>
    decreases edges.len() - start,
{
    if start < 0 || start >= edges.len() || start >= used.len() {
        None
    } else if !used[start] && (if directed { edges[start] == edge } else { spec_ordered(edges[start]) == spec_ordered(edge) }) {
        Some(start as usize)
    } else {
        first_unused(edges, used, edge, directed, start + 1)
    }
}

/// The cut edge that `edge` takes: a same-direction one first.
pub open spec fn spec_take(edges: Seq<[usize; 2]>, used: Seq<bool>, edge: [usize; 2]) -> Option<usize> {
    match first_unused(edges, used, edge, true, 0) {
        Some(i) => Some(i),
        None => first_unused(edges, used, edge, false, 0),
    }
}

/// The marks after taking `taken`.
pub open spec fn mark(used: Seq<bool>, taken: Option<usize>) -> Seq<bool> {
    match taken {
        Some(i) => used.update(i as int, true),
        None => used,
    }
}

impl CutEdgeOccurrenceLookup {
    /// The lookup is over one mark per cut edge.
    pub open spec fn wf(&self) -> bool {
        self.used@.len() == self.edges@.len()
    }

    /// A lookup over `cut_edges` with none of them taken.
    pub fn new(cut_edges: &Vec<[usize; 2]>) -> (out: Self)
        ensures
            out.wf(),
            out.edges@ == cut_edges@,
            forall|i: int| 0 <= i < out.used@.len() ==> !out.used@[i],
    {
        let mut edges: Vec<[usize; 2]> = Vec::new();
        let mut used: Vec<bool> = Vec::new();
        let mut i: usize = 0;
        while i < cut_edges.len()
            invariant
                i <= cut_edges@.len(),
                edges@ == cut_edges@.subrange(0, i as int),
                used@.len() == i,
                forall|j: int| 0 <= j < i ==> !used@[j],
            decreases cut_edges.len() - i,
        {
            edges.push(cut_edges[i]);
            used.push(false);
            proof {
                assert(edges@ =~= cut_edges@.subrange(0, i as int + 1));
            }
            i += 1;
        }
        proof {
            assert(edges@ =~= cut_edges@);
        }
        CutEdgeOccurrenceLookup { edges, used }
    }

    /// Takes the first unused cut edge among `indices`, marking it used.
    pub fn take_from_indices(&mut self, indices: &Vec<usize>) -> (out: Option<usize>)
        requires
            old(self).wf(),
            forall|t: int| 0 <= t < indices@.len() ==> #[trigger] indices@[t] < old(self).edges@.len(),
        ensures
            final(self).wf(),
            final(self).edges@ == old(self).edges@,
            final(self).used@ == mark(old(self).used@, out),
            out matches Some(i) ==> i < old(self).used@.len() && !old(self).used@[i as int],
            out is None ==> forall|t: int| 0 <= t < indices@.len() ==> old(self).used@[#[trigger] indices@[t] as int],
            out matches Some(i) ==> exists|t: int|
                0 <= t < indices@.len() && #[trigger] indices@[t] == i
                    && forall|u: int| 0 <= u < t ==> old(self).used@[#[trigger] indices@[u] as int],
    {
        let mut t: usize = 0;
        while t < indices.len()
            invariant
                self.wf(),
                self.edges@ == old(self).edges@,
                self.used@ == old(self).used@,
                t <= indices@.len(),
                forall|s: int| 0 <= s < indices@.len() ==> #[trigger] indices@[s] < old(self).edges@.len(),
                forall|u: int| 0 <= u < t ==> old(self).used@[#[trigger] indices@[u] as int],
            decreases indices.len() - t,
        {
            let index = indices[t];
            if !self.used[index] {
                self.used.set(index, true);
                proof {
                    assert(indices@[t as int] == index);
                    assert(forall|u: int| 0 <= u < t ==> old(self).used@[#[trigger] indices@[u] as int]);
                }
                return Some(index);
            }
            t += 1;
        }
        None
    }

    /// The indices of the cut edges that are `edge`, in that direction when
    /// `directed`, else with the same ends, ascending.
    fn matching_indices(&self, edge: [usize; 2], directed: bool) -> (out: Vec<usize>)
        ensures
            forall|t: int| 0 <= t < out@.len() ==> #[trigger] out@[t] < self.edges@.len(),
            forall|t: int|
                0 <= t < out@.len() ==> (if directed {
                    self.edges@[out@[t] as int] == edge
                } else {
                    spec_ordered(self.edges@[#[trigger] out@[t] as int]) == spec_ordered(edge)
                }),
            forall|i: int|
                0 <= i < self.edges@.len() && (if directed { self.edges@[i] == edge } else { spec_ordered(self.edges@[i]) == spec_ordered(edge) })
                    ==> exists|t: int| 0 <= t < out@.len() && #[trigger] out@[t] == i,
            forall|a: int, b: int| 0 <= a < b < out@.len() ==> out@[a] < out@[b],
    {
        let mut out: Vec<usize> = Vec::new();
        let key = crate::edge::ordered_edge(edge);
        let mut i: usize = 0;
        while i < self.edges.len()
            invariant
                i <= self.edges@.len(),
                key == spec_ordered(edge),
                forall|t: int| 0 <= t < out@.len() ==> #[trigger] out@[t] < i,
                forall|t: int|
                    0 <= t < out@.len() ==> (if directed {
                        self.edges@[out@[t] as int] == edge
                    } else {
                        spec_ordered(self.edges@[#[trigger] out@[t] as int]) == spec_ordered(edge)
                    }),
                forall|j: int|
                    0 <= j < i && (if directed { self.edges@[j] == edge } else { spec_ordered(self.edges@[j]) == spec_ordered(edge) })
                        ==> exists|t: int| 0 <= t < out@.len() && #[trigger] out@[t] == j,
                forall|a: int, b: int| 0 <= a < b < out@.len() ==> out@[a] < out@[b],
            decreases self.edges.len() - i,
        {
            let current = self.edges[i];
            let hit = if directed {
                crate::edge::same_edge(current, edge)
            } else {
                crate::edge::same_edge(crate::edge::ordered_edge(current), key)
            };
            let ghost before = out@;
            if hit {
                out.push(i);
                proof {
                    assert(out@[before.len() as int] == i);
                }
            }
            proof {
                assert forall|j: int|
                    0 <= j < i + 1 && (if directed { self.edges@[j] == edge } else { spec_ordered(self.edges@[j]) == spec_ordered(edge) })
                        implies exists|t: int| 0 <= t < out@.len() && #[trigger] out@[t] == j by {
                    if j < i {
                        let t = choose|t: int| 0 <= t < before.len() && #[trigger] before[t] == j;
                        assert(out@[t] == before[t]);
                    } else {
                        assert(out@[before.len() as int] == i);
                    }
                }
            }
            i += 1;
        }
        out
    }

    /// The cut edge that the path edge `edge` is: the first unused cut edge
    /// with its direction, else the first unused one with its ends; marked
    /// used so no later path edge takes it.
    pub fn take(&mut self, edge: [usize; 2]) -> (out: Option<usize>)
        requires
            old(self).wf(),
        ensures
            final(self).wf(),
            final(self).edges@ == old(self).edges@,
            out == spec_take(old(self).edges@, old(self).used@, edge),
            final(self).used@ == mark(old(self).used@, out),
    {
        let directed = self.matching_indices(edge, true);
        let ghost before = self.used@;
        let first = self.take_from_indices(&directed);
        proof {
            lemma_first_unused_matches(self.edges@, before, edge, true, directed@, first);
        }
        if first.is_some() {
            return first;
        }
        let undirected = self.matching_indices(edge, false);
        let second = self.take_from_indices(&undirected);
        proof {
            lemma_first_unused_matches(self.edges@, before, edge, false, undirected@, second);
        }
        second
    }
}

/// Taking the first unused index of the ascending list of matching cut
/// edges takes the first unused matching cut edge.
proof fn lemma_first_unused_matches(
    edges: Seq<[usize; 2]>,
    used: Seq<bool>,
    edge: [usize; 2],
    directed: bool,
    list: Seq<usize>,
    taken: Option<usize>,
)
    requires
        used.len() == edges.len(),
        forall|t: int| 0 <= t < list.len() ==> #[trigger] list[t] < edges.len(),
        forall|t: int|
            0 <= t < list.len() ==> (if directed {
                edges[list[t] as int] == edge
            } else {
                spec_ordered(edges[#[trigger] list[t] as int]) == spec_ordered(edge)
            }),
        forall|i: int|
            0 <= i < edges.len() && (if directed { edges[i] == edge } else { spec_ordered(edges[i]) == spec_ordered(edge) })
                ==> exists|t: int| 0 <= t < list.len() && #[trigger] list[t] == i,
        forall|a: int, b: int| 0 <= a < b < list.len() ==> list[a] < list[b],
        taken is None ==> forall|t: int| 0 <= t < list.len() ==> used[#[trigger] list[t] as int],
        taken matches Some(i) ==> i < used.len() && !used[i as int] && exists|t: int|
            0 <= t < list.len() && #[trigger] list[t] == i && forall|u: int| 0 <= u < t ==> used[#[trigger] list[u] as int],
    ensures
        taken == first_unused(edges, used, edge, directed, 0),
{
    lemma_first_unused_scan(edges, used, edge, directed, list, taken, 0);
}

proof fn lemma_first_unused_scan(
    edges: Seq<[usize; 2]>,
    used: Seq<bool>,
    edge: [usize; 2],
    directed: bool,
    list: Seq<usize>,
    taken: Option<usize>,
    start: int,
)
    requires
        0 <= start,
        used.len() == edges.len(),
        forall|t: int| 0 <= t < list.len() ==> #[trigger] list[t] < edges.len(),
        forall|t: int|
            0 <= t < list.len() ==> (if directed {
                edges[list[t] as int] == edge
            } else {
                spec_ordered(edges[#[trigger] list[t] as int]) == spec_ordered(edge)
            }),
        forall|i: int|
            0 <= i < edges.len() && (if directed { edges[i] == edge } else { spec_ordered(edges[i]) == spec_ordered(edge) })
                ==> exists|t: int| 0 <= t < list.len() && #[trigger] list[t] == i,
        forall|a: int, b: int| 0 <= a < b < list.len() ==> list[a] < list[b],
        taken is None ==> forall|t: int| 0 <= t < list.len() ==> used[#[trigger] list[t] as int],
        taken matches Some(i) ==> start <= i && i < used.len() && !used[i as int] && exists|t: int|
            0 <= t < list.len() && #[trigger] list[t] == i && forall|u: int| 0 <= u < t ==> used[#[trigger] list[u] as int],
    ensures
        taken == first_unused(edges, used, edge, directed, start),
    decreases edges.len() - start,
{
    if start < edges.len() {
        let hit = if directed { edges[start] == edge } else { spec_ordered(edges[start]) == spec_ordered(edge) };
        if !used[start] && hit {
            let t0 = choose|t: int| 0 <= t < list.len() && #[trigger] list[t] == start;
            match taken {
                None => {
                    assert(used[list[t0] as int]);
                },
                Some(i) => {
                    let t = choose|t: int|
                        0 <= t < list.len() && #[trigger] list[t] == i && forall|u: int| 0 <= u < t ==> used[#[trigger] list[u] as int];
                    if i != start as usize {
                        assert(start < i);
                        if t0 < t {
                            assert(used[list[t0] as int]);
                        } else {
                            assert(list[t] < list[t0]);
                        }
                    }
                },
            }
        } else {
            match taken {
                Some(i) => {
                    if i == start as usize {
                        let t = choose|t: int|
                            0 <= t < list.len() && #[trigger] list[t] == i && forall|u: int| 0 <= u < t ==> used[#[trigger] list[u] as int];
                    }
                },
                None => {},
            }
            lemma_first_unused_scan(edges, used, edge, directed, list, taken, start + 1);
        }
    } else {
        if let Some(i) = taken {
            assert(i < used.len());
        }
    }
}

/// The cut path edges of the first `n` paths, path after path.
pub open spec fn path_edges_upto(paths: Seq<Vec<[usize; 2]>>, n: int) -> Seq<[usize; 2]>
    decreases n,
{
    if n <= 0 {
        Seq::empty()
    } else {
        path_edges_upto(paths, n - 1) + paths[n - 1]@
    }
}

/// The cut edges that the path edges take in turn, and the marks after.
pub open spec fn takes(edges: Seq<[usize; 2]>, used: Seq<bool>, path_edges: Seq<[usize; 2]>) -> (Seq<Option<usize>>, Seq<bool>)
    decreases path_edges.len(),
{
    if path_edges.len() == 0 {
        (Seq::empty(), used)
    } else {
        let (taken, marks) = takes(edges, used, path_edges.drop_last());
        let next = spec_take(edges, marks, path_edges.last());
        (taken.push(next), mark(marks, next))
    }
}

/// For each cut path edge, path after path, the cut edge it is: the first
/// unused cut edge with its direction, else with its ends; none when every
/// such cut edge is taken.
pub fn cut_path_edge_source_indices(cut_mesh: &ExactCutMeshRecords) -> (out: Vec<Option<usize>>)
    ensures
        out@ == takes(
            cut_mesh.cut_edges@,
            Seq::new(cut_mesh.cut_edges@.len(), |i: int| false),
            path_edges_upto(cut_mesh.cut_edge_paths@, cut_mesh.cut_edge_paths@.len() as int),
        ).0,
{
    let mut lookup = CutEdgeOccurrenceLookup::new(&cut_mesh.cut_edges);
    let ghost start = lookup.used@;
    proof {
        assert(start =~= Seq::new(cut_mesh.cut_edges@.len(), |i: int| false));
    }
    let mut indices: Vec<Option<usize>> = Vec::new();
    let paths = &cut_mesh.cut_edge_paths;
    let mut p: usize = 0;
    while p < paths.len()
        invariant
            p <= paths@.len(),
            paths@ == cut_mesh.cut_edge_paths@,
            lookup.wf(),
            lookup.edges@ == cut_mesh.cut_edges@,
            (indices@, lookup.used@) == takes(cut_mesh.cut_edges@, start, path_edges_upto(paths@, p as int)),
        decreases paths.len() - p,
    {
        let path = &paths[p];
        let ghost base = path_edges_upto(paths@, p as int);
        let mut k: usize = 0;
        while k < path.len()
            invariant
                p < paths@.len(),
                path@ == paths@[p as int]@,
                base == path_edges_upto(paths@, p as int),
                k <= path@.len(),
                lookup.wf(),
                lookup.edges@ == cut_mesh.cut_edges@,
                (indices@, lookup.used@) == takes(cut_mesh.cut_edges@, start, base + path@.subrange(0, k as int)),
            decreases path.len() - k,
        {
            proof {
                assert((base + path@.subrange(0, k as int + 1)).drop_last() =~= base + path@.subrange(0, k as int));
                assert((base + path@.subrange(0, k as int + 1)).last() == path@[k as int]);
            }
            let taken = lookup.take(path[k]);
            indices.push(taken);
            k += 1;
        }
        proof {
            assert(path@.subrange(0, path@.len() as int) =~= path@);
        }
        p += 1;
    }
    indices
}

proof fn lemma_first_unused_ok(edges: Seq<[usize; 2]>, used: Seq<bool>, edge: [usize; 2], directed: bool, start: int)
    requires
        edges.len() <= usize::MAX,
    ensures
        first_unused(edges, used, edge, directed, start) matches Some(i) ==> i < edges.len() && i < used.len()
            && !used[i as int],
    decreases edges.len() - start,
{
    if 0 <= start < edges.len() && start < used.len() {
        lemma_first_unused_ok(edges, used, edge, directed, start + 1);
    }
}

/// The marks after taking hold each cut edge taken and each one marked before.
proof fn lemma_take_ok(edges: Seq<[usize; 2]>, used: Seq<bool>, edge: [usize; 2])
    requires
        edges.len() <= usize::MAX,
    ensures
        spec_take(edges, used, edge) matches Some(i) ==> i < edges.len() && i < used.len() && !used[i as int],
{
    lemma_first_unused_ok(edges, used, edge, true, 0);
    lemma_first_unused_ok(edges, used, edge, false, 0);
}

/// The cut path edges never share a cut edge: each cut edge that one of them
/// takes was free before, is marked after, and no other path edge takes it.
pub proof fn lemma_takes_distinct(edges: Seq<[usize; 2]>, used: Seq<bool>, path_edges: Seq<[usize; 2]>)
    requires
        edges.len() <= usize::MAX,
        used.len() == edges.len(),
    ensures
        takes(edges, used, path_edges).0.len() == path_edges.len(),
        takes(edges, used, path_edges).1.len() == used.len(),
        forall|j: int| 0 <= j < used.len() && #[trigger] used[j] ==> takes(edges, used, path_edges).1[j],
        forall|a: int|
            0 <= a < path_edges.len() && (#[trigger] takes(edges, used, path_edges).0[a]) is Some ==> {
                let i = takes(edges, used, path_edges).0[a]->0;
                &&& i < edges.len()
                &&& !used[i as int]
                &&& takes(edges, used, path_edges).1[i as int]
            },
        forall|a: int, b: int|
            0 <= a < b < path_edges.len() && (#[trigger] takes(edges, used, path_edges).0[a]) is Some
                && (#[trigger] takes(edges, used, path_edges).0[b]) is Some
                ==> takes(edges, used, path_edges).0[a]->0 != takes(edges, used, path_edges).0[b]->0,
    decreases path_edges.len(),
{
    if path_edges.len() > 0 {
        let rest = path_edges.drop_last();
        lemma_takes_distinct(edges, used, rest);
        let (taken, marks) = takes(edges, used, rest);
        let next = spec_take(edges, marks, path_edges.last());
        lemma_take_ok(edges, marks, path_edges.last());
        let all = takes(edges, used, path_edges).0;
        assert(all == taken.push(next));
        assert forall|a: int, b: int|
            0 <= a < b < path_edges.len() && (#[trigger] all[a]) is Some && (#[trigger] all[b]) is Some
                implies all[a]->0 != all[b]->0 by {
            if b == path_edges.len() - 1 {
                assert(all[a] == taken[a]);
                assert(marks[taken[a]->0 as int]);
            } else {
                assert(all[a] == taken[a]);
                assert(all[b] == taken[b]);
            }
        }
        assert forall|a: int|
            0 <= a < path_edges.len() && (#[trigger] all[a]) is Some implies ({
                let i = all[a]->0;
                &&& i < edges.len()
                &&& !used[i as int]
                &&& takes(edges, used, path_edges).1[i as int]
            }) by {
            if a < path_edges.len() - 1 {
                assert(all[a] == taken[a]);
            }
        }
    }
}

/// Whether some `[start, end)` range holds `face`.
pub fn face_in_ranges(face: usize, ranges: &Vec<[usize; 2]>) -> (out: bool)
    ensures
        out == in_ranges(ranges@, face),
{
    let mut r: usize = 0;
    while r < ranges.len()
        invariant
            r <= ranges@.len(),
            forall|q: int| 0 <= q < r ==> !(#[trigger] ranges@[q][0] <= face && face < ranges@[q][1]),
        decreases ranges.len() - r,
    {
        if ranges[r][0] <= face && face < ranges[r][1] {
            return true;
        }
        r += 1;
    }
    false
}

/// The operand's prepared faces that no fill appended, in order.
pub fn filtered_prepared_faces(
    assembly: &AssemblyTopology,
    first_added_face_ranges: &Vec<[usize; 2]>,
    second_added_face_ranges: &Vec<[usize; 2]>,
    operand: ExactBooleanOperand,
) -> (out: Vec<usize>)
    ensures
        out@ == (match operand {
            ExactBooleanOperand::First => keep(assembly.prepare_first_faces@, |f: usize| !in_ranges(first_added_face_ranges@, f)),
            ExactBooleanOperand::Second => keep(assembly.prepare_second_faces@, |f: usize| !in_ranges(second_added_face_ranges@, f)),
        }),
{
    let (prepared, ranges) = match operand {
        ExactBooleanOperand::First => (&assembly.prepare_first_faces, first_added_face_ranges),
        ExactBooleanOperand::Second => (&assembly.prepare_second_faces, second_added_face_ranges),
    };
    let ghost p = |f: usize| !in_ranges(ranges@, f);
    let mut out: Vec<usize> = Vec::new();
    let mut i: usize = 0;
    while i < prepared.len()
        invariant
            i <= prepared@.len(),
            p == (|f: usize| !in_ranges(ranges@, f)),
            out@ == keep(prepared@.subrange(0, i as int), p),
        decreases prepared.len() - i,
    {
        proof {
            assert(prepared@.subrange(0, i as int + 1).drop_last() =~= prepared@.subrange(0, i as int));
        }
        if !face_in_ranges(prepared[i], ranges) {
            out.push(prepared[i]);
        }
        i += 1;
    }
    proof {
        assert(prepared@.subrange(0, prepared@.len() as int) =~= prepared@);
    }
    out
}

/// The stitch pair's cut edge on `operand`'s side.
pub fn stitch_pair_edge_for_operand(pair: &ExactStitchEdgePair, operand: ExactBooleanOperand) -> (out: [usize; 2])
    ensures
        out == (match operand {
            ExactBooleanOperand::First => pair.first_edge,
            ExactBooleanOperand::Second => pair.second_edge,
        }),
{
    match operand {
        ExactBooleanOperand::First => pair.first_edge,
        ExactBooleanOperand::Second => pair.second_edge,
    }
}

/// The index of the stitch pair's cut edge on `operand`'s side.
pub fn stitch_pair_edge_index_for_operand(pair: &ExactStitchEdgePair, operand: ExactBooleanOperand) -> (out: usize)
    ensures
        out == (match operand {
            ExactBooleanOperand::First => pair.first_edge_index,
            ExactBooleanOperand::Second => pair.second_edge_index,
        }),
{
    match operand {
        ExactBooleanOperand::First => pair.first_edge_index,
        ExactBooleanOperand::Second => pair.second_edge_index,
    }
}

} // verus!
