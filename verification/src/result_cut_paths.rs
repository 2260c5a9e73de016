//! The result's cut paths: each source cut path mapped edge by edge into
//! the output, split where an edge does not map.
use vstd::prelude::*;

use crate::edge::spec_ordered;
use crate::exact_boolean::{
    fallbacks_upto, prepared_state, result_cut_source_operand, spec_mapped_directed, spec_result_cut_source_operand,
    ExactBooleanOperand, ExactBooleanOperation, PreparedPartMap,
};
use crate::exact_cut::ExactCutMeshRecords;
use crate::stitch_pairs::{ExactStitchEdgePair, ExactStitchPlan};

verus! {

/// The result's cut paths, which of them close, and whether every source
/// edge mapped.
#[derive(Debug, Clone, PartialEq, Eq)]
pub struct MappedResultCutPaths {
    pub paths: Vec<Vec<[usize; 2]>>,
    pub closed: Vec<bool>,
    pub complete: bool,
}

/// Splitting the first `n` mapped edges of a path: the runs already cut
/// off, the run under way, and whether every edge so far mapped.
pub open spec fn split_state(mapped: Seq<Option<[usize; 2]>>, n: int) -> (Seq<(Seq<[usize; 2]>, bool)>, Seq<[usize; 2]>, bool)
    decreases n,
{
    if n <= 0 {
        (Seq::empty(), Seq::empty(), true)
    } else {
        let (done, run, all) = split_state(mapped, n - 1);
        match mapped[n - 1] {
            Some(e) => (done, run.push(e), all),
            None => (if run.len() > 0 { done.push((run, false)) } else { done }, Seq::empty(), false),
        }
    }
}

/// The mapped runs of one path: each maximal run of mapped edges, open
/// when an edge of the path did not map; the last run closes when the
/// source path closed and every edge mapped. An empty path stays one empty
/// path.
pub open spec fn split_path(mapped: Seq<Option<[usize; 2]>>, closed: bool) -> Seq<(Seq<[usize; 2]>, bool)> {
    let (done, run, all) = split_state(mapped, mapped.len() as int);
    if run.len() > 0 || mapped.len() == 0 {
        done.push((run, closed && all))
    } else {
        done
    }
}

/// Whether the source path `i` is marked closed.
pub open spec fn closed_at(closed: Seq<bool>, i: int) -> bool {
    i < closed.len() && closed[i]
}

/// The mapped runs of the first `n` paths, path after path.
pub open spec fn split_all(mapped: Seq<Seq<Option<[usize; 2]>>>, closed: Seq<bool>, n: int) -> Seq<(Seq<[usize; 2]>, bool)>
    decreases n,
{
    if n <= 0 {
        Seq::empty()
    } else {
        split_all(mapped, closed, n - 1) + split_path(mapped[n - 1], closed_at(closed, n - 1))
    }
}

/// Whether every edge of the first `n` paths mapped.
pub open spec fn all_mapped(mapped: Seq<Seq<Option<[usize; 2]>>>, n: int) -> bool {
    forall|i: int, k: int| 0 <= i < n && 0 <= k < mapped[i].len() ==> (#[trigger] mapped[i][k]) is Some
}

/// `out` holds the mapped runs of `mapped`.
pub open spec fn split_ok(mapped: Seq<Seq<Option<[usize; 2]>>>, closed: Seq<bool>, out: MappedResultCutPaths) -> bool {
    let runs = split_all(mapped, closed, mapped.len() as int);
    &&& out.paths@.len() == runs.len()
    &&& out.closed@.len() == runs.len()
    &&& forall|r: int| 0 <= r < runs.len() ==> (#[trigger] out.paths@[r])@ == runs[r].0 && out.closed@[r] == runs[r].1
    &&& out.complete == all_mapped(mapped, mapped.len() as int)
}

/// Splits each path of mapped edges into its mapped runs.
pub fn split_mapped_paths(mapped: &Vec<Vec<Option<[usize; 2]>>>, source_closed: &Vec<bool>) -> (out: MappedResultCutPaths)
    ensures
        split_ok(mapped@.map_values(|p: Vec<Option<[usize; 2]>>| p@), source_closed@, out),
{
    let ghost views = mapped@.map_values(|p: Vec<Option<[usize; 2]>>| p@);
    let mut paths: Vec<Vec<[usize; 2]>> = Vec::new();
    let mut closed: Vec<bool> = Vec::new();
    let mut complete = true;
    let mut p: usize = 0;
    while p < mapped.len()
        invariant
            views == mapped@.map_values(|p: Vec<Option<[usize; 2]>>| p@),
            p <= mapped@.len(),
            paths@.len() == split_all(views, source_closed@, p as int).len(),
            closed@.len() == split_all(views, source_closed@, p as int).len(),
            forall|r: int|
                0 <= r < paths@.len() ==> (#[trigger] paths@[r])@ == split_all(views, source_closed@, p as int)[r].0
                    && closed@[r] == split_all(views, source_closed@, p as int)[r].1,
            complete == all_mapped(views, p as int),
        decreases mapped.len() - p,
    {
        let path = &mapped[p];
        let source = p < source_closed.len() && source_closed[p];
        let ghost head = split_all(views, source_closed@, p as int);
        let ghost head_len = paths@.len();
        let ghost complete_before = complete;
        let mut run: Vec<[usize; 2]> = Vec::new();
        let mut path_complete = true;
        let mut k: usize = 0;
        while k < path.len()
            invariant
                views == mapped@.map_values(|p: Vec<Option<[usize; 2]>>| p@),
                p < mapped@.len(),
                path@ == views[p as int],
                head == split_all(views, source_closed@, p as int),
                head_len == head.len(),
                k <= path@.len(),
                run@ == split_state(path@, k as int).1,
                path_complete == split_state(path@, k as int).2,
                paths@.len() == head.len() + split_state(path@, k as int).0.len(),
                closed@.len() == paths@.len(),
                forall|r: int|
                    0 <= r < paths@.len() ==> (#[trigger] paths@[r])@ == (head + split_state(path@, k as int).0)[r].0
                        && closed@[r] == (head + split_state(path@, k as int).0)[r].1,
                complete == (complete_before && path_complete),
                complete_before == all_mapped(views, p as int),
                path_complete == forall|j: int| 0 <= j < k ==> (#[trigger] path@[j]) is Some,
            decreases path.len() - k,
        {
            let ghost done_before = split_state(path@, k as int).0;
            let ghost paths_before = paths@;
            let ghost closed_before = closed@;
            match path[k] {
                Some(edge) => {
                    run.push(edge);
                },
                None => {
                    complete = false;
                    path_complete = false;
                    if run.len() > 0 {
                        let mut finished: Vec<[usize; 2]> = Vec::new();
                        std::mem::swap(&mut finished, &mut run);
                        paths.push(finished);
                        closed.push(false);
                    } else {
                        run = Vec::new();
                    }
                },
            }
            proof {
                let next = split_state(path@, k as int + 1);
                assert(next == match path@[k as int] {
                    Some(e) => (done_before, split_state(path@, k as int).1.push(e), split_state(path@, k as int).2),
                    None => (
                        if split_state(path@, k as int).1.len() > 0 {
                            done_before.push((split_state(path@, k as int).1, false))
                        } else {
                            done_before
                        },
                        Seq::empty(),
                        false,
                    ),
                });
                assert(run@ =~= next.1);
                assert forall|r: int|
                    0 <= r < paths@.len() implies (#[trigger] paths@[r])@ == (head + next.0)[r].0 && closed@[r] == (head + next.0)[r].1 by {
                    if r < paths_before.len() {
                        assert(paths@[r] == paths_before[r]);
                        assert(closed@[r] == closed_before[r]);
                        assert((head + next.0)[r] == (head + done_before)[r]);
                    }
                }
                assert((forall|j: int| 0 <= j < k + 1 ==> (#[trigger] path@[j]) is Some) == (path_complete)) by {
                    if path_complete {
                        assert forall|j: int| 0 <= j < k + 1 implies (#[trigger] path@[j]) is Some by {}
                    } else if path@[k as int] is Some {
                        let j = choose|j: int| 0 <= j < k && !((#[trigger] path@[j]) is Some);
                    }
                }
            }
            k += 1;
        }
        let ghost tail = split_path(views[p as int], source);
        let ghost paths_before = paths@;
        let ghost closed_before = closed@;
        let ghost state = split_state(path@, path@.len() as int);
        proof {
            assert(views[p as int] == path@);
        }
        if run.len() > 0 || path.len() == 0 {
            paths.push(run);
            closed.push(source && path_complete);
        }
        proof {
            assert(split_all(views, source_closed@, p as int + 1) == head + tail);
            assert(source == closed_at(source_closed@, p as int));
            assert forall|r: int|
                0 <= r < paths@.len() implies (#[trigger] paths@[r])@ == (head + tail)[r].0 && closed@[r] == (head + tail)[r].1 by {
                if r < paths_before.len() {
                    assert(paths@[r] == paths_before[r]);
                    assert(closed@[r] == closed_before[r]);
                    assert((head + tail)[r] == (head + state.0)[r]);
                }
            }
            assert(complete == all_mapped(views, p as int + 1)) by {
                if complete {
                    assert forall|i: int, k2: int| 0 <= i < p + 1 && 0 <= k2 < views[i].len() implies (#[trigger] views[i][k2]) is Some by {
                        if i == p {
                            assert(views[i][k2] == path@[k2]);
                        }
                    }
                } else if complete_before {
                    let j = choose|j: int| 0 <= j < path@.len() && !((#[trigger] path@[j]) is Some);
                    assert(views[p as int][j] == path@[j]);
                }
            }
        }
        p += 1;
    }
    MappedResultCutPaths { paths, closed, complete }
}

proof fn lemma_split_state_all_mapped(mapped: Seq<Option<[usize; 2]>>, n: int)
    requires
        0 <= n <= mapped.len(),
        forall|k: int| 0 <= k < n ==> (#[trigger] mapped[k]) is Some,
    ensures
        split_state(mapped, n).0.len() == 0,
        split_state(mapped, n).2,
        split_state(mapped, n).1 == Seq::new(n as nat, |k: int| mapped[k]->0),
    decreases n,
{
    if n > 0 {
        lemma_split_state_all_mapped(mapped, n - 1);
        assert(split_state(mapped, n).1 =~= Seq::new(n as nat, |k: int| mapped[k]->0));
    } else {
        assert(split_state(mapped, n).1 =~= Seq::new(0, |k: int| mapped[k]->0));
    }
}

/// When every edge maps, the result keeps the source paths one for one:
/// each path mapped edge by edge, closed as its source path.
pub proof fn lemma_complete_paths_map_one_for_one(mapped: Seq<Seq<Option<[usize; 2]>>>, closed: Seq<bool>)
    requires
        all_mapped(mapped, mapped.len() as int),
    ensures
        split_all(mapped, closed, mapped.len() as int).len() == mapped.len(),
        forall|i: int|
            0 <= i < mapped.len() ==> #[trigger] split_all(mapped, closed, mapped.len() as int)[i] == (
                Seq::new(mapped[i].len(), |k: int| mapped[i][k]->0),
                closed_at(closed, i),
            ),
{
    lemma_split_all_mapped(mapped, closed, mapped.len() as int);
}

proof fn lemma_split_all_mapped(mapped: Seq<Seq<Option<[usize; 2]>>>, closed: Seq<bool>, n: int)
    requires
        0 <= n <= mapped.len(),
        all_mapped(mapped, n),
    ensures
        split_all(mapped, closed, n).len() == n,
        forall|i: int|
            0 <= i < n ==> #[trigger] split_all(mapped, closed, n)[i] == (
                Seq::new(mapped[i].len(), |k: int| mapped[i][k]->0),
                closed_at(closed, i),
            ),
    decreases n,
{
    if n > 0 {
        lemma_split_all_mapped(mapped, closed, n - 1);
        let m = mapped[n - 1];
        assert forall|k: int| 0 <= k < m.len() implies (#[trigger] m[k]) is Some by {
            assert(mapped[n - 1][k] is Some);
        }
        lemma_split_state_all_mapped(m, m.len() as int);
        let tail = split_path(m, closed_at(closed, n - 1));
        assert(tail =~= seq![(Seq::new(m.len(), |k: int| m[k]->0), closed_at(closed, n - 1))]);
        let prev = split_all(mapped, closed, n - 1);
        assert forall|i: int|
            0 <= i < n implies #[trigger] split_all(mapped, closed, n)[i] == (
                Seq::new(mapped[i].len(), |k: int| mapped[i][k]->0),
                closed_at(closed, i),
            ) by {
            if i < n - 1 {
                assert(split_all(mapped, closed, n)[i] == prev[i]);
            }
        }
    }
}

/// The image of a source path edge in the prepared part: its ends
/// numbered as first met among the prepared faces, when the prepared faces
/// have the edge and its ends get different numbers.
pub open spec fn prepare_mapped_edge(vertex_count: usize, faces: Seq<[i64; 3]>, prepare_faces: Seq<usize>, edge: [usize; 2]) -> Option<[usize; 2]> {
    let state = prepared_state(vertex_count, faces, prepare_faces, prepare_faces.len() as int);
    if state.1.contains(spec_ordered(edge)) {
        match spec_mapped_directed(state.0, edge) {
            Some(m) => if m[0] != m[1] {
                Some(m)
            } else {
                None
            },
            None => None,
        }
    } else {
        None
    }
}

/// The mapped edges of each path under `f`.
pub open spec fn mapped_paths(paths: Seq<Vec<[usize; 2]>>, f: spec_fn([usize; 2]) -> Option<[usize; 2]>) -> Seq<Seq<Option<[usize; 2]>>> {
    Seq::new(paths.len(), |i: int| Seq::new(paths[i]@.len(), |k: int| f(paths[i]@[k])))
}

/// The result operand's cut paths read in its prepared part: each edge
/// mapped through the numbering of the prepared faces' vertices, the paths
/// split where an edge is not in the prepared part.
pub fn mapped_prepare_result_cut_paths(
    operation: ExactBooleanOperation,
    first: &ExactCutMeshRecords,
    first_vertex_count: usize,
    second: &ExactCutMeshRecords,
    second_vertex_count: usize,
    first_prepare_faces: &Vec<usize>,
    second_prepare_faces: &Vec<usize>,
) -> (out: MappedResultCutPaths)
    ensures
        ({
            let op = spec_result_cut_source_operand(operation);
            let source = if op == ExactBooleanOperand::First { *first } else { *second };
            let vc = if op == ExactBooleanOperand::First { first_vertex_count } else { second_vertex_count };
            let prepare = if op == ExactBooleanOperand::First { first_prepare_faces@ } else { second_prepare_faces@ };
            split_ok(
                mapped_paths(source.cut_edge_paths@, |e: [usize; 2]| prepare_mapped_edge(vc, source.faces@, prepare, e)),
                source.cut_edge_path_closed@,
                out,
            )
        }),
{
    let operand = result_cut_source_operand(operation);
    let (source, vertex_count, prepare_faces) = match operand {
        ExactBooleanOperand::First => (first, first_vertex_count, first_prepare_faces),
        ExactBooleanOperand::Second => (second, second_vertex_count, second_prepare_faces),
    };
    let map = PreparedPartMap::new(vertex_count, &source.faces, prepare_faces);
    let ghost f = |e: [usize; 2]| prepare_mapped_edge(vertex_count, source.faces@, prepare_faces@, e);
    let ghost target = mapped_paths(source.cut_edge_paths@, f);
    let paths = &source.cut_edge_paths;
    let mut mapped: Vec<Vec<Option<[usize; 2]>>> = Vec::new();
    let mut p: usize = 0;
    while p < paths.len()
        invariant
            paths@ == source.cut_edge_paths@,
            f == (|e: [usize; 2]| prepare_mapped_edge(vertex_count, source.faces@, prepare_faces@, e)),
            target == mapped_paths(source.cut_edge_paths@, f),
            map.vertices@ == prepared_state(vertex_count, source.faces@, prepare_faces@, prepare_faces@.len() as int).0,
            map.edges@.to_set() == prepared_state(vertex_count, source.faces@, prepare_faces@, prepare_faces@.len() as int).1,
            p <= paths@.len(),
            mapped@.len() == p,
            forall|i: int| 0 <= i < p ==> (#[trigger] mapped@[i])@ == target[i],
        decreases paths.len() - p,
    {
        let path = &paths[p];
        let mut row: Vec<Option<[usize; 2]>> = Vec::new();
        let mut k: usize = 0;
        while k < path.len()
            invariant
                paths@ == source.cut_edge_paths@,
                p < paths@.len(),
                path@ == paths@[p as int]@,
                f == (|e: [usize; 2]| prepare_mapped_edge(vertex_count, source.faces@, prepare_faces@, e)),
                map.vertices@ == prepared_state(vertex_count, source.faces@, prepare_faces@, prepare_faces@.len() as int).0,
                map.edges@.to_set() == prepared_state(vertex_count, source.faces@, prepare_faces@, prepare_faces@.len() as int).1,
                k <= path@.len(),
                row@.len() == k,
                forall|j: int| 0 <= j < k ==> #[trigger] row@[j] == f(path@[j]),
            decreases path.len() - k,
        {
            let edge = path[k];
            proof {
                assert(map.edges@.contains(spec_ordered(edge)) <==> map.edges@.to_set().contains(spec_ordered(edge)));
            }
            row.push(map.mapped_directed_edge(edge));
            k += 1;
        }
        proof {
            assert(row@ =~= target[p as int]);
        }
        mapped.push(row);
        p += 1;
    }
    proof {
        assert(mapped@.map_values(|p: Vec<Option<[usize; 2]>>| p@) =~= target);
    }
    split_mapped_paths(&mapped, &source.cut_edge_path_closed)
}

/// The output vertex of a source vertex: through the vertex map, else the
/// output vertex found at its position.
pub open spec fn lookup_vertex(source_map: Seq<Option<usize>>, coincident: Seq<Option<usize>>, v: usize) -> Option<usize> {
    if v < source_map.len() && source_map[v as int] is Some {
        source_map[v as int]
    } else if v < coincident.len() {
        coincident[v as int]
    } else {
        None
    }
}

/// The output edge of a source edge through the vertex lookup, when both
/// ends map to different vertices.
pub open spec fn lookup_edge(source_map: Seq<Option<usize>>, coincident: Seq<Option<usize>>, edge: [usize; 2]) -> Option<[usize; 2]> {
    match (lookup_vertex(source_map, coincident, edge[0]), lookup_vertex(source_map, coincident, edge[1])) {
        (Some(a), Some(b)) => if a != b {
            Some([a, b])
        } else {
            None
        },
        _ => None,
    }
}

/// Source vertices looked up in the output: by the vertex map, else by
/// `coincident`, which gives for each source vertex the output vertex
/// found at its position, if any.
pub struct ResultCutVertexLookup {
    pub source_map: Vec<Option<usize>>,
    pub coincident: Vec<Option<usize>>,
}

impl ResultCutVertexLookup {
    /// The output vertex of source vertex `vertex`.
    pub fn mapped_source_vertex(&self, vertex: usize) -> (out: Option<usize>)
        ensures
            out == lookup_vertex(self.source_map@, self.coincident@, vertex),
    {
        if vertex < self.source_map.len() {
            if let Some(v) = self.source_map[vertex] {
                return Some(v);
            }
        }
        if vertex < self.coincident.len() {
            self.coincident[vertex]
        } else {
            None
        }
    }

    /// The output edge of source edge `edge`.
    pub fn mapped_source_edge(&self, edge: [usize; 2]) -> (out: Option<[usize; 2]>)
        ensures
            out == lookup_edge(self.source_map@, self.coincident@, edge),
    {
        let a = self.mapped_source_vertex(edge[0]);
        let b = self.mapped_source_vertex(edge[1]);
        match (a, b) {
            (Some(a), Some(b)) => if a != b {
                Some([a, b])
            } else {
                None
            },
            _ => None,
        }
    }
}

/// The output edge of a result cut edge: through the vertex map, else the
/// vertex lookup, else the stitch fallbacks.
pub open spec fn result_edge(
    vertex_map: Seq<Option<usize>>,
    coincident: Seq<Option<usize>>,
    fallbacks: Map<[usize; 2], [usize; 2]>,
    edge: [usize; 2],
) -> Option<[usize; 2]> {
    match spec_mapped_directed(vertex_map, edge) {
        Some(m) => Some(m),
        None => match lookup_edge(vertex_map, coincident, edge) {
            Some(m) => Some(m),
            None => if fallbacks.contains_key(edge) {
                Some(fallbacks[edge])
            } else {
                None
            },
        },
    }
}

/// The result's cut paths in the output: the cut paths of the operand
/// whose paths the result keeps, each edge mapped through that operand's
/// vertex map, else through the output vertices found at the source
/// vertices' positions (`coincident_vertices`), else through the stitch
/// fallbacks; split where an edge does not map.
pub fn mapped_result_cut_paths(
    operation: ExactBooleanOperation,
    first: &ExactCutMeshRecords,
    second: &ExactCutMeshRecords,
    stitch_plan: Option<&ExactStitchPlan>,
    first_vertex_map: &Vec<Option<usize>>,
    second_vertex_map: &Vec<Option<usize>>,
    coincident_vertices: &Vec<Option<usize>>,
) -> (out: MappedResultCutPaths)
    ensures
        ({
            let op = spec_result_cut_source_operand(operation);
            let source = if op == ExactBooleanOperand::First { *first } else { *second };
            let vmap = if op == ExactBooleanOperand::First { first_vertex_map@ } else { second_vertex_map@ };
            let fallbacks = match stitch_plan {
                None => Map::empty(),
                Some(plan) => fallbacks_upto(op, plan.pairs@, first_vertex_map@, second_vertex_map@, plan.pairs@.len() as int),
            };
            split_ok(
                mapped_paths(source.cut_edge_paths@, |e: [usize; 2]| result_edge(vmap, coincident_vertices@, fallbacks, e)),
                source.cut_edge_path_closed@,
                out,
            )
        }),
{
    let operand = result_cut_source_operand(operation);
    let (source, vertex_map) = match operand {
        ExactBooleanOperand::First => (first, first_vertex_map),
        ExactBooleanOperand::Second => (second, second_vertex_map),
    };
    let lookup = ResultCutVertexLookup {
        source_map: crate::source_cut2origin::copy_items(vertex_map),
        coincident: crate::source_cut2origin::copy_items(coincident_vertices),
    };
    let fallbacks = crate::exact_boolean::result_cut_stitch_fallbacks(operand, stitch_plan, first_vertex_map, second_vertex_map);
    let ghost fb = fallbacks.view_map();
    let ghost f = |e: [usize; 2]| result_edge(vertex_map@, coincident_vertices@, fb, e);
    let ghost target = mapped_paths(source.cut_edge_paths@, f);
    let paths = &source.cut_edge_paths;
    let mut mapped: Vec<Vec<Option<[usize; 2]>>> = Vec::new();
    let mut p: usize = 0;
    while p < paths.len()
        invariant
            paths@ == source.cut_edge_paths@,
            fallbacks.wf(),
            fb == fallbacks.view_map(),
            lookup.source_map@ == vertex_map@,
            lookup.coincident@ == coincident_vertices@,
            f == (|e: [usize; 2]| result_edge(vertex_map@, coincident_vertices@, fb, e)),
            target == mapped_paths(source.cut_edge_paths@, f),
            p <= paths@.len(),
            mapped@.len() == p,
            forall|i: int| 0 <= i < p ==> (#[trigger] mapped@[i])@ == target[i],
        decreases paths.len() - p,
    {
        let path = &paths[p];
        let mut row: Vec<Option<[usize; 2]>> = Vec::new();
        let mut k: usize = 0;
        while k < path.len()
            invariant
                paths@ == source.cut_edge_paths@,
                p < paths@.len(),
                path@ == paths@[p as int]@,
                fallbacks.wf(),
                fb == fallbacks.view_map(),
                lookup.source_map@ == vertex_map@,
                lookup.coincident@ == coincident_vertices@,
                f == (|e: [usize; 2]| result_edge(vertex_map@, coincident_vertices@, fb, e)),
                k <= path@.len(),
                row@.len() == k,
                forall|j: int| 0 <= j < k ==> #[trigger] row@[j] == f(path@[j]),
            decreases path.len() - k,
        {
            let edge = path[k];
            let mapped_edge = match crate::exact_boolean::mapped_directed_edge(vertex_map, edge) {
                Some(m) => Some(m),
                None => match lookup.mapped_source_edge(edge) {
                    Some(m) => Some(m),
                    None => fallbacks.get(edge),
                },
            };
            row.push(mapped_edge);
            k += 1;
        }
        proof {
            assert(row@ =~= target[p as int]);
        }
        mapped.push(row);
        p += 1;
    }
    proof {
        assert(mapped@.map_values(|p: Vec<Option<[usize; 2]>>| p@) =~= target);
    }
    split_mapped_paths(&mapped, &source.cut_edge_path_closed)
}

/// The `j`-th matched endpoint pair of a stitch pair: a vertex of the
/// first edge with the vertex of the second edge it meets.
pub open spec fn endpoint(pair: ExactStitchEdgePair, j: int) -> (usize, usize) {
    if pair.second_reversed {
        if j == 0 {
            (pair.first_edge[0], pair.second_edge[1])
        } else {
            (pair.first_edge[1], pair.second_edge[0])
        }
    } else {
        if j == 0 {
            (pair.first_edge[0], pair.second_edge[0])
        } else {
            (pair.first_edge[1], pair.second_edge[1])
        }
    }
}

/// Whether some endpoint pair among the first `n` pairs, the `m` first of
/// pair `n` included, matches first vertex `f` with second vertex `s`.
pub open spec fn matched_upto(pairs: Seq<ExactStitchEdgePair>, n: int, m: int, f: usize, s: usize) -> bool {
    exists|i: int, j: int| 0 <= j < 2 && 0 <= i && (i < n || (i == n && j < m)) && #[trigger] endpoint(pairs[i], j) == (f, s)
}

/// Whether the endpoint pairs of all stitch pairs name first vertices below
/// `vertex_count` and never match one first vertex with two second vertices.
pub open spec fn endpoints_fit(pairs: Seq<ExactStitchEdgePair>, vertex_count: usize) -> bool {
    &&& forall|i: int, j: int| 0 <= i < pairs.len() && 0 <= j < 2 ==> (#[trigger] endpoint(pairs[i], j)).0 < vertex_count
    &&& forall|i1: int, j1: int, i2: int, j2: int|
        0 <= i1 < pairs.len() && 0 <= j1 < 2 && 0 <= i2 < pairs.len() && 0 <= j2 < 2 && (#[trigger] endpoint(pairs[i1], j1)).0
            == (#[trigger] endpoint(pairs[i2], j2)).0 ==> endpoint(pairs[i1], j1).1 == endpoint(pairs[i2], j2).1
}

/// The output vertex of the second vertex matched with first vertex `f`,
/// through the second operand's vertex map.
pub open spec fn preassigned(pairs: Seq<ExactStitchEdgePair>, second_vertex_map: Seq<Option<usize>>, f: usize) -> Option<usize> {
    if exists|s: usize| matched_upto(pairs, pairs.len() as int, 0, f, s) {
        let s = choose|s: usize| matched_upto(pairs, pairs.len() as int, 0, f, s);
        if s < second_vertex_map.len() {
            second_vertex_map[s as int]
        } else {
            None
        }
    } else {
        None
    }
}

/// The output vertices preassigned to the first operand's cut vertices by
/// the stitch: each first vertex on a stitch pair takes the output vertex
/// of the second vertex it meets; `None` when a pair names a first vertex
/// past `first_vertex_count` or meets one first vertex with two second
/// vertices.
pub fn first_preassigned_vertices(
    stitch_plan: &ExactStitchPlan,
    first_vertex_count: usize,
    second_vertex_map: &Vec<Option<usize>>,
) -> (out: Option<Vec<Option<usize>>>)
    ensures
        out is Some <==> endpoints_fit(stitch_plan.pairs@, first_vertex_count),
        out matches Some(v) ==> v@.len() == first_vertex_count && forall|f: int|
            0 <= f < first_vertex_count ==> #[trigger] v@[f] == preassigned(stitch_plan.pairs@, second_vertex_map@, f as usize),
{
    let ghost pairs = stitch_plan.pairs@;
    let mut first_to_second: Vec<Option<usize>> = Vec::new();
    let mut k: usize = 0;
    while k < first_vertex_count
        invariant
            k <= first_vertex_count,
            first_to_second@.len() == k,
            forall|f: int| 0 <= f < k ==> (#[trigger] first_to_second@[f]) is None,
        decreases first_vertex_count - k,
    {
        first_to_second.push(None);
        k += 1;
    }
    let mut i: usize = 0;
    while i < stitch_plan.pairs.len()
        invariant
            pairs == stitch_plan.pairs@,
            i <= pairs.len(),
            first_to_second@.len() == first_vertex_count,
            forall|f: usize, s: usize|
                #![trigger matched_upto(pairs, i as int, 0, f, s)]
                f < first_vertex_count ==> (first_to_second@[f as int] == Some(s) <==> matched_upto(pairs, i as int, 0, f, s)),
            forall|i1: int, j1: int| 0 <= i1 < i && 0 <= j1 < 2 ==> (#[trigger] endpoint(pairs[i1], j1)).0 < first_vertex_count,
            forall|i1: int, j1: int, i2: int, j2: int|
                0 <= i1 < i && 0 <= j1 < 2 && 0 <= i2 < i && 0 <= j2 < 2 && (#[trigger] endpoint(pairs[i1], j1)).0
                    == (#[trigger] endpoint(pairs[i2], j2)).0 ==> endpoint(pairs[i1], j1).1 == endpoint(pairs[i2], j2).1,
        decreases pairs.len() - i,
    {
        let pair = &stitch_plan.pairs[i];
        let ends: [(usize, usize); 2] = if pair.second_reversed {
            [(pair.first_edge[0], pair.second_edge[1]), (pair.first_edge[1], pair.second_edge[0])]
        } else {
            [(pair.first_edge[0], pair.second_edge[0]), (pair.first_edge[1], pair.second_edge[1])]
        };
        proof {
            assert(ends[0] == endpoint(pairs[i as int], 0));
            assert(ends[1] == endpoint(pairs[i as int], 1));
        }
        let mut m: usize = 0;
        while m < 2
            invariant
                pairs == stitch_plan.pairs@,
                i < pairs.len(),
                m <= 2,
                ends[0] == endpoint(pairs[i as int], 0),
                ends[1] == endpoint(pairs[i as int], 1),
                first_to_second@.len() == first_vertex_count,
                forall|f: usize, s: usize|
                #![trigger matched_upto(pairs,
                        i as int,
                        m as int,
                        f,
                        s,)]
                    f < first_vertex_count ==> (first_to_second@[f as int] == Some(s) <==> matched_upto(pairs,
                        i as int,
                        m as int,
                        f,
                        s,)),
                forall|i1: int, j1: int|
                    0 <= j1 < 2 && 0 <= i1 && (i1 < i || (i1 == i && j1 < m)) ==> (#[trigger] endpoint(pairs[i1], j1)).0
                        < first_vertex_count,
                forall|i1: int, j1: int, i2: int, j2: int|
                    0 <= j1 < 2 && 0 <= i1 && (i1 < i || (i1 == i && j1 < m)) && 0 <= j2 < 2 && 0 <= i2 && (i2 < i || (i2 == i
                        && j2 < m)) && (#[trigger] endpoint(pairs[i1], j1)).0 == (#[trigger] endpoint(pairs[i2], j2)).0
                        ==> endpoint(pairs[i1], j1).1 == endpoint(pairs[i2], j2).1,
            decreases 2 - m,
        {
            let (first_vertex, second_vertex) = ends[m];
            proof {
                assert(ends[m as int] == endpoint(pairs[i as int], m as int));
            }
            if first_vertex >= first_to_second.len() {
                proof {
                    assert(!(endpoint(pairs[i as int], m as int).0 < first_vertex_count));
                }
                return None;
            }
            match first_to_second[first_vertex] {
                Some(existing) => {
                    if existing != second_vertex {
                        proof {
                            assert(matched_upto(pairs, i as int, m as int, first_vertex, existing));
                            let (i1, j1) = choose|i1: int, j1: int|
                                0 <= j1 < 2 && 0 <= i1 && (i1 < i || (i1 == i && j1 < m)) && #[trigger] endpoint(pairs[i1], j1)
                                    == (first_vertex, existing);
                            assert(endpoint(pairs[i1], j1).0 == endpoint(pairs[i as int], m as int).0);
                        }
                        return None;
                    }
                },
                None => {
                    first_to_second.set(first_vertex, Some(second_vertex));
                },
            }
            proof {
                assert forall|f: usize, s: usize|
                #![trigger matched_upto(pairs,
                        i as int,
                        m as int + 1,
                        f,
                        s,)]
                    f < first_vertex_count implies (first_to_second@[f as int] == Some(s) <==> matched_upto(pairs,
                        i as int,
                        m as int + 1,
                        f,
                        s,)) by {
                    if matched_upto(pairs, i as int, m as int + 1, f as usize, s) {
                        let (i1, j1) = choose|i1: int, j1: int|
                            0 <= j1 < 2 && 0 <= i1 && (i1 < i || (i1 == i && j1 < m + 1)) && #[trigger] endpoint(pairs[i1], j1)
                                == (f as usize, s);
                        if !(i1 == i && j1 == m) {
                            assert(matched_upto(pairs, i as int, m as int, f as usize, s));
                        }
                    }
                    if matched_upto(pairs, i as int, m as int, f as usize, s) || f == first_vertex {
                    }
                    if f == first_vertex && first_to_second@[f as int] == Some(s) {
                        assert(endpoint(pairs[i as int], m as int) == (first_vertex, second_vertex));
                    }
                    if matched_upto(pairs, i as int, m as int, f as usize, s) {
                        let (i1, j1) = choose|i1: int, j1: int|
                            0 <= j1 < 2 && 0 <= i1 && (i1 < i || (i1 == i && j1 < m)) && #[trigger] endpoint(pairs[i1], j1)
                                == (f as usize, s);
                        assert(matched_upto(pairs, i as int, m as int + 1, f as usize, s));
                    }
                }
                assert forall|i1: int, j1: int, i2: int, j2: int|
                    0 <= j1 < 2 && 0 <= i1 && (i1 < i || (i1 == i && j1 < m + 1)) && 0 <= j2 < 2 && 0 <= i2 && (i2 < i || (i2
                        == i && j2 < m + 1)) && (#[trigger] endpoint(pairs[i1], j1)).0 == (#[trigger] endpoint(pairs[i2], j2)).0
                        implies endpoint(pairs[i1], j1).1 == endpoint(pairs[i2], j2).1 by {
                    let e1 = endpoint(pairs[i1], j1);
                    let e2 = endpoint(pairs[i2], j2);
                    if (i1 == i && j1 == m) && !(i2 == i && j2 == m) {
                        assert(matched_upto(pairs, i as int, m as int, e2.0, e2.1));
                        assert(first_to_second@[e2.0 as int] == Some(e2.1));
                    } else if (i2 == i && j2 == m) && !(i1 == i && j1 == m) {
                        assert(matched_upto(pairs, i as int, m as int, e1.0, e1.1));
                        assert(first_to_second@[e1.0 as int] == Some(e1.1));
                    }
                }
            }
            m += 1;
        }
        proof {
            assert forall|f: usize, s: usize|
                #![trigger matched_upto(pairs,
                    i as int + 1,
                    0,
                    f,
                    s,)]
                f < first_vertex_count implies (first_to_second@[f as int] == Some(s) <==> matched_upto(pairs,
                    i as int + 1,
                    0,
                    f,
                    s,)) by {
                if matched_upto(pairs, i as int + 1, 0, f as usize, s) {
                    let (i1, j1) = choose|i1: int, j1: int|
                        0 <= j1 < 2 && 0 <= i1 && (i1 < i + 1 || (i1 == i + 1 && j1 < 0)) && #[trigger] endpoint(pairs[i1], j1)
                            == (f as usize, s);
                    assert(matched_upto(pairs, i as int, 2, f as usize, s));
                }
                if matched_upto(pairs, i as int, 2, f as usize, s) {
                    let (i1, j1) = choose|i1: int, j1: int|
                        0 <= j1 < 2 && 0 <= i1 && (i1 < i || (i1 == i && j1 < 2)) && #[trigger] endpoint(pairs[i1], j1)
                            == (f as usize, s);
                    assert(matched_upto(pairs, i as int + 1, 0, f as usize, s));
                }
            }
        }
        i += 1;
    }
    let mut out: Vec<Option<usize>> = Vec::new();
    let mut f: usize = 0;
    while f < first_to_second.len()
        invariant
            pairs == stitch_plan.pairs@,
            first_to_second@.len() == first_vertex_count,
            forall|g: usize, s: usize|
                #![trigger matched_upto(pairs,
                    pairs.len() as int,
                    0,
                    g,
                    s,)]
                g < first_vertex_count ==> (first_to_second@[g as int] == Some(s) <==> matched_upto(pairs,
                    pairs.len() as int,
                    0,
                    g,
                    s,)),
            f <= first_vertex_count,
            out@.len() == f,
            forall|g: int| 0 <= g < f ==> #[trigger] out@[g] == preassigned(pairs, second_vertex_map@, g as usize),
        decreases first_vertex_count - f,
    {
        let mapped = match first_to_second[f] {
            Some(s) => if s < second_vertex_map.len() {
                second_vertex_map[s]
            } else {
                None
            },
            None => None,
        };
        proof {
            match first_to_second@[f as int] {
                Some(s) => {
                    assert(matched_upto(pairs, pairs.len() as int, 0, f, s));
                    let t = choose|t: usize| matched_upto(pairs, pairs.len() as int, 0, f, t);
                    assert(first_to_second@[f as int] == Some(t));
                },
                None => {
                    if exists|s: usize| matched_upto(pairs, pairs.len() as int, 0, f, s) {
                        let t = choose|t: usize| matched_upto(pairs, pairs.len() as int, 0, f, t);
                        assert(first_to_second@[f as int] == Some(t));
                    }
                },
            }
        }
        out.push(mapped);
        f += 1;
    }
    Some(out)
}


/// The output vertex of cut vertex `v` under `map`, if it has one.
pub open spec fn map_at(map: Seq<Option<usize>>, v: usize) -> Option<usize> {
    if v < map.len() {
        map[v as int]
    } else {
        None
    }
}

/// The output vertex of the first of `candidates` that has one.
pub open spec fn first_mapped(candidates: Seq<usize>, map: Seq<Option<usize>>) -> Option<usize>
    decreases candidates.len(),
{
    if candidates.len() == 0 {
        None
    } else {
        match map_at(map, candidates[0]) {
            Some(o) => Some(o),
            None => first_mapped(candidates.drop_first(), map),
        }
    }
}

/// For source vertex `s`: the output vertex of the first first-operand cut
/// vertex at its position that has one, else of the first second-operand
/// cut vertex.
pub open spec fn coincident_at(
    close_first: Seq<Vec<usize>>,
    close_second: Seq<Vec<usize>>,
    first_map: Seq<Option<usize>>,
    second_map: Seq<Option<usize>>,
    s: int,
) -> Option<usize> {
    match first_mapped(close_first[s]@, first_map) {
        Some(o) => Some(o),
        None => if s < close_second.len() {
            first_mapped(close_second[s]@, second_map)
        } else {
            None
        },
    }
}

/// The coincident output vertex of each source vertex.
pub open spec fn coincident_spec(
    close_first: Seq<Vec<usize>>,
    close_second: Seq<Vec<usize>>,
    first_map: Seq<Option<usize>>,
    second_map: Seq<Option<usize>>,
) -> Seq<Option<usize>> {
    Seq::new(close_first.len(), |s: int| coincident_at(close_first, close_second, first_map, second_map, s))
}

fn first_mapped_exec(candidates: &Vec<usize>, map: &Vec<Option<usize>>) -> (out: Option<usize>)
    ensures
        out == first_mapped(candidates@, map@),
{
    let mut i: usize = candidates.len();
    let mut out: Option<usize> = None;
    proof {
        assert(candidates@.skip(i as int) =~= Seq::<usize>::empty());
    }
    while i > 0
        invariant
            i <= candidates@.len(),
            out == first_mapped(candidates@.skip(i as int), map@),
        decreases i,
    {
        i -= 1;
        let c = candidates[i];
        let here = if c < map.len() {
            map[c]
        } else {
            None
        };
        proof {
            assert(candidates@.skip(i as int).drop_first() =~= candidates@.skip(i as int + 1));
            assert(candidates@.skip(i as int)[0] == c);
        }
        if here.is_some() {
            out = here;
        }
    }
    proof {
        assert(candidates@.skip(0) =~= candidates@);
    }
    out
}

/// The output vertex at each source vertex's position: `close_first[s]`
/// and `close_second[s]` list the cut vertices of the first and second
/// operand at the position of source vertex `s`; the first of the first
/// operand's that has an output vertex gives it, else the first of the
/// second operand's.
pub fn coincident_output_vertices(
    close_first: &Vec<Vec<usize>>,
    close_second: &Vec<Vec<usize>>,
    first_map: &Vec<Option<usize>>,
    second_map: &Vec<Option<usize>>,
) -> (out: Vec<Option<usize>>)
    ensures
        out@ == coincident_spec(close_first@, close_second@, first_map@, second_map@),
{
    let mut out: Vec<Option<usize>> = Vec::new();
    let mut s: usize = 0;
    while s < close_first.len()
        invariant
            s <= close_first@.len(),
            out@.len() == s,
            forall|t: int| 0 <= t < s ==> #[trigger] out@[t] == coincident_at(close_first@, close_second@, first_map@, second_map@, t),
        decreases close_first@.len() - s,
    {
        let mut found = first_mapped_exec(&close_first[s], first_map);
        if found.is_none() && s < close_second.len() {
            found = first_mapped_exec(&close_second[s], second_map);
        }
        out.push(found);
        s += 1;
    }
    proof {
        assert(out@ =~= coincident_spec(close_first@, close_second@, first_map@, second_map@));
    }
    out
}

} // verus!
