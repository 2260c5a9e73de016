//! The source faces around the cut edges of a cut mesh: per cut edge, per
//! cut path, and on each side of the edges, and the faces that the removed
//! faces along closed cut paths are owned by.
use vstd::prelude::*;

use crate::edge::{increasing, insert_sorted, spec_ordered};
use crate::exact_cut::ExactCutMeshRecords;
use crate::stitch_pairs::{
    edge_grouped_stitch_pair_paths, grouped_upto, lemma_grouped_paths_bound, path_total, ExactStitchEdgePair,
    ExactStitchPath, ExactStitchPlan,
};
use crate::source_details::{
    all_entries, all_misses, group_entries, group_misses, group_views, source_paths_ok,
    stitch_source_paths_from_pair_groups, StitchSourcePaths,
    decode_runs, face_has_directed_edge, face_has_edge, meshlib_removed_face_owner_candidate,
    primary_edge_source_faces, primary_faces, runs_canonical, signed_face_edges, signed_face_has_edge,
    source_face_runs, source_face_runs_by_path, spec_owner_candidate,
};

verus! {

/// Which side of a directed cut edge.
#[derive(Debug, Clone, Copy, PartialEq, Eq, Structural)]
pub enum DirectedEdgeSide {
    Left,
    Right,
}

/// The directed edge whose faces lie on `side` of `edge`: the edge itself
/// for the left, reversed for the right.
pub open spec fn side_edge(edge: [usize; 2], side: DirectedEdgeSide) -> [usize; 2] {
    match side {
        DirectedEdgeSide::Left => edge,
        DirectedEdgeSide::Right => [edge[1], edge[0]],
    }
}

/// Whether face `f` of the cut mesh has a source record and has `edge`:
/// in that direction when `directed`, else ordered.
pub open spec fn face_meets(cut: &ExactCutMeshRecords, f: int, edge: [usize; 2], directed: bool) -> bool {
    &&& 0 <= f < cut.faces@.len()
    &&& f < cut.source_face_for_faces@.len()
    &&& if directed {
        exists|k: int| 0 <= k < 3 && signed_face_edges(cut.faces@[f])[k] == edge
    } else {
        signed_face_has_edge(cut.faces@[f], edge)
    }
}

/// Whether `x` is the source face of a face of the cut mesh that meets `edge`.
pub open spec fn meets_source(cut: &ExactCutMeshRecords, edge: [usize; 2], directed: bool, x: usize) -> bool {
    exists|f: int| #[trigger] face_meets(cut, f, edge, directed) && cut.source_face_for_faces@[f] == x
}

/// `list` holds, ascending and once each, the source faces of the faces
/// that meet `edge`.
pub open spec fn edge_sources_ok(cut: &ExactCutMeshRecords, edge: [usize; 2], directed: bool, list: Seq<usize>) -> bool {
    &&& increasing(list)
    &&& forall|x: usize| list.contains(x) <==> meets_source(cut, edge, directed, x)
}

/// The source faces, ascending and once each, of the faces that meet `edge`.
fn sources_of_faces_meeting(cut: &ExactCutMeshRecords, edge: [usize; 2], directed: bool) -> (out: Vec<usize>)
    ensures
        edge_sources_ok(cut, edge, directed, out@),
{
    let mut out: Vec<usize> = Vec::new();
    let mut f: usize = 0;
    while f < cut.faces.len()
        invariant
            f <= cut.faces@.len(),
            increasing(out@),
            forall|x: usize|
                out@.contains(x) <==> exists|g: int|
                    0 <= g < f && #[trigger] face_meets(cut, g, edge, directed) && cut.source_face_for_faces@[g] == x,
        decreases cut.faces.len() - f,
    {
        let meets = if directed {
            face_has_directed_edge(cut.faces[f], edge)
        } else {
            face_has_edge(cut.faces[f], edge)
        };
        let ghost before = out@;
        assert(face_meets(cut, f as int, edge, directed) == (meets && f < cut.source_face_for_faces@.len()));
        if meets && f < cut.source_face_for_faces.len() {
            insert_sorted(&mut out, cut.source_face_for_faces[f]);
        }
        proof {
            assert forall|x: usize|
                out@.contains(x) <==> exists|g: int|
                    0 <= g < f + 1 && #[trigger] face_meets(cut, g, edge, directed) && cut.source_face_for_faces@[g] == x by {
                assert(out@.contains(x) <==> out@.to_set().contains(x));
                assert(before.contains(x) <==> before.to_set().contains(x));
                if exists|g: int| 0 <= g < f + 1 && #[trigger] face_meets(cut, g, edge, directed) && cut.source_face_for_faces@[g] == x {
                    let g = choose|g: int| 0 <= g < f + 1 && #[trigger] face_meets(cut, g, edge, directed) && cut.source_face_for_faces@[g] == x;
                    if g < f {
                        assert(exists|g: int| 0 <= g < f && #[trigger] face_meets(cut, g, edge, directed) && cut.source_face_for_faces@[g] == x);
                    }
                }
                if exists|g: int| 0 <= g < f && #[trigger] face_meets(cut, g, edge, directed) && cut.source_face_for_faces@[g] == x {
                    let g = choose|g: int| 0 <= g < f && #[trigger] face_meets(cut, g, edge, directed) && cut.source_face_for_faces@[g] == x;
                    assert(exists|g: int| 0 <= g < f + 1 && #[trigger] face_meets(cut, g, edge, directed) && cut.source_face_for_faces@[g] == x);
                }
            }
        }
        f += 1;
    }
    proof {
        assert forall|x: usize| out@.contains(x) <==> meets_source(cut, edge, directed, x) by {
            if meets_source(cut, edge, directed, x) {
                let g = choose|g: int| #[trigger] face_meets(cut, g, edge, directed) && cut.source_face_for_faces@[g] == x;
                assert(exists|g: int| 0 <= g < f && #[trigger] face_meets(cut, g, edge, directed) && cut.source_face_for_faces@[g] == x);
            }
        }
    }
    out
}

/// The source faces, ascending and once each, of the faces on `side` of
/// the directed cut edge `edge`.
pub fn cut_edge_side_source_faces(cut: &ExactCutMeshRecords, edge: [usize; 2], side: DirectedEdgeSide) -> (out: Vec<usize>)
    ensures
        edge_sources_ok(cut, side_edge(edge, side), true, out@),
{
    let directed_edge = match side {
        DirectedEdgeSide::Left => edge,
        DirectedEdgeSide::Right => [edge[1], edge[0]],
    };
    sources_of_faces_meeting(cut, directed_edge, true)
}

/// The source faces, ascending and once each, of the faces on either side
/// of the cut edge `edge`.
pub fn cut_edge_adjacent_source_faces(cut: &ExactCutMeshRecords, edge: [usize; 2]) -> (out: Vec<usize>)
    ensures
        edge_sources_ok(cut, spec_ordered(edge), false, out@),
{
    let ordered = crate::edge::ordered_edge(edge);
    sources_of_faces_meeting(cut, ordered, false)
}

/// The least source face of the faces that meet `edge`, if any.
#[verifier::opaque]
pub open spec fn least_source(cut: &ExactCutMeshRecords, edge: [usize; 2], directed: bool) -> Option<usize> {
    if exists|x: usize| meets_source(cut, edge, directed, x) {
        Some(
            choose|x: usize|
                meets_source(cut, edge, directed, x) && forall|y: usize| meets_source(cut, edge, directed, y) ==> x <= y,
        )
    } else {
        None
    }
}

/// The first entry of an ascending list of the sources meeting an edge is
/// the least of them.
proof fn lemma_first_is_least(cut: &ExactCutMeshRecords, edge: [usize; 2], directed: bool, list: Seq<usize>)
    requires
        edge_sources_ok(cut, edge, directed, list),
    ensures
        (if list.len() > 0 { Some(list[0]) } else { None }) == least_source(cut, edge, directed),
{
    reveal(least_source);
    if list.len() > 0 {
        assert(list.contains(list[0]));
        assert forall|y: usize| meets_source(cut, edge, directed, y) implies list[0] <= y by {
            assert(list.contains(y));
            let t = choose|t: int| 0 <= t < list.len() && list[t] == y;
            if t > 0 {
                assert(list[0] < list[t]);
            }
        }
        let c = choose|x: usize|
            meets_source(cut, edge, directed, x) && forall|y: usize| meets_source(cut, edge, directed, y) ==> x <= y;
        assert(meets_source(cut, edge, directed, c));
        assert(c <= list[0]);
        assert(list[0] <= c);
    } else {
        assert forall|x: usize| !meets_source(cut, edge, directed, x) by {
            if meets_source(cut, edge, directed, x) {
                assert(list.contains(x));
            }
        }
    }
}

/// The last cut edge among the first `n` whose ordered form is `key`.
pub open spec fn last_edge_index(edges: Seq<[usize; 2]>, key: [usize; 2], n: int) -> Option<usize>
    decreases n,
{
    if n <= 0 {
        None
    } else if spec_ordered(edges[n - 1]) == key {
        Some((n - 1) as usize)
    } else {
        last_edge_index(edges, key, n - 1)
    }
}

/// The index of the last cut edge whose ordered form is `key`.
fn last_cut_edge_index(edges: &Vec<[usize; 2]>, key: [usize; 2]) -> (out: Option<usize>)
    ensures
        out == last_edge_index(edges@, key, edges@.len() as int),
        out matches Some(i) ==> i < edges@.len(),
{
    let mut n = edges.len();
    while n > 0
        invariant
            n <= edges@.len(),
            last_edge_index(edges@, key, edges@.len() as int) == last_edge_index(edges@, key, n as int),
        decreases n,
    {
        let ordered = crate::edge::ordered_edge(edges[n - 1]);
        if crate::edge::same_edge(ordered, key) {
            return Some(n - 1);
        }
        n -= 1;
    }
    None
}

/// How many cut paths carry both a path and source faces.
pub open spec fn sourced_path_count(cut: &ExactCutMeshRecords) -> int {
    if cut.cut_edge_paths@.len() <= cut.cut_edge_path_source_faces@.len() {
        cut.cut_edge_paths@.len() as int
    } else {
        cut.cut_edge_path_source_faces@.len() as int
    }
}

/// How many edges of path `p` carry a source record.
pub open spec fn sourced_edge_count(cut: &ExactCutMeshRecords, p: int) -> int {
    let path = cut.cut_edge_paths@[p]@;
    let sources = cut.cut_edge_path_source_faces@[p]@;
    if path.len() <= sources.len() {
        path.len() as int
    } else {
        sources.len() as int
    }
}

/// The edges of path `p` with their source records.
pub open spec fn path_entries(cut: &ExactCutMeshRecords, p: int) -> Seq<([usize; 2], Option<usize>)> {
    Seq::new(
        sourced_edge_count(cut, p) as nat,
        |k: int| (cut.cut_edge_paths@[p]@[k], cut.cut_edge_path_source_faces@[p]@[k]),
    )
}

/// The edges of the first `n` paths with their source records, path after path.
pub open spec fn entries_upto(cut: &ExactCutMeshRecords, n: int) -> Seq<([usize; 2], Option<usize>)>
    decreases n,
{
    if n <= 0 {
        Seq::empty()
    } else {
        entries_upto(cut, n - 1) + path_entries(cut, n - 1)
    }
}

/// The per-cut-edge table after recording one path edge: a known source
/// face is kept for the last cut edge with the same ordered form, unless
/// that cut edge already has one.
pub open spec fn record_entry(cut: &ExactCutMeshRecords, table: Seq<Option<usize>>, entry: ([usize; 2], Option<usize>)) -> Seq<Option<usize>> {
    match entry.1 {
        Some(f) => match last_edge_index(cut.cut_edges@, spec_ordered(entry.0), cut.cut_edges@.len() as int) {
            Some(i) => if (i as int) < table.len() && table[i as int] is None {
                table.update(i as int, Some(f))
            } else {
                table
            },
            None => table,
        },
        None => table,
    }
}

/// The per-cut-edge table after recording `entries` in order, from a table
/// with no entries.
pub open spec fn table_of(cut: &ExactCutMeshRecords, entries: Seq<([usize; 2], Option<usize>)>) -> Seq<Option<usize>>
    decreases entries.len(),
{
    if entries.len() == 0 {
        Seq::new(cut.cut_edges@.len(), |i: int| None)
    } else {
        record_entry(cut, table_of(cut, entries.drop_last()), entries.last())
    }
}

proof fn lemma_table_len(cut: &ExactCutMeshRecords, entries: Seq<([usize; 2], Option<usize>)>)
    ensures
        table_of(cut, entries).len() == cut.cut_edges@.len(),
    decreases entries.len(),
{
    if entries.len() > 0 {
        lemma_table_len(cut, entries.drop_last());
    }
}

/// For each cut edge, the first known source face recorded for it along
/// the cut paths.
pub fn cut_edge_source_faces_by_index(cut: &ExactCutMeshRecords) -> (out: Vec<Option<usize>>)
    ensures
        out@ == table_of(cut, entries_upto(cut, sourced_path_count(cut))),
{
    let mut table: Vec<Option<usize>> = Vec::new();
    let mut i: usize = 0;
    while i < cut.cut_edges.len()
        invariant
            i <= cut.cut_edges@.len(),
            table@ == Seq::new(i as nat, |j: int| None::<usize>),
        decreases cut.cut_edges.len() - i,
    {
        table.push(None);
        proof {
            assert(table@ =~= Seq::new((i + 1) as nat, |j: int| None::<usize>));
        }
        i += 1;
    }
    proof {
        assert(table@ =~= table_of(cut, entries_upto(cut, 0)));
    }
    let mut n = cut.cut_edge_paths.len();
    if cut.cut_edge_path_source_faces.len() < n {
        n = cut.cut_edge_path_source_faces.len();
    }
    let mut p: usize = 0;
    while p < n
        invariant
            n == sourced_path_count(cut),
            p <= n,
            table@ == table_of(cut, entries_upto(cut, p as int)),
        decreases n - p,
    {
        let path = &cut.cut_edge_paths[p];
        let sources = &cut.cut_edge_path_source_faces[p];
        let mut m = path.len();
        if sources.len() < m {
            m = sources.len();
        }
        let ghost base = entries_upto(cut, p as int);
        let ghost entries = path_entries(cut, p as int);
        let mut k: usize = 0;
        while k < m
            invariant
                n == sourced_path_count(cut),
                p < n,
                path@ == cut.cut_edge_paths@[p as int]@,
                sources@ == cut.cut_edge_path_source_faces@[p as int]@,
                m == sourced_edge_count(cut, p as int),
                entries == path_entries(cut, p as int),
                k <= m,
                table@ == table_of(cut, base + entries.subrange(0, k as int)),
            decreases m - k,
        {
            proof {
                lemma_table_len(cut, base + entries.subrange(0, k as int));
                assert((base + entries.subrange(0, k as int + 1)).drop_last() =~= base + entries.subrange(0, k as int));
                assert((base + entries.subrange(0, k as int + 1)).last() == (path@[k as int], sources@[k as int]));
            }
            if let Some(f) = sources[k] {
                let key = crate::edge::ordered_edge(path[k]);
                if let Some(index) = last_cut_edge_index(&cut.cut_edges, key) {
                    if table[index].is_none() {
                        table.set(index, Some(f));
                    }
                }
            }
            k += 1;
        }
        proof {
            assert(entries.subrange(0, m as int) =~= entries);
        }
        p += 1;
    }
    table
}

/// The face a removed face along cut edge `i` is owned by, from the edge's
/// entry in `table` and the least source faces on its two sides.
pub open spec fn owner_candidate_at(cut: &ExactCutMeshRecords, table: Seq<Option<usize>>, i: int) -> Option<usize> {
    let edge = cut.cut_edges@[i];
    spec_owner_candidate(
        if i < table.len() { table[i] } else { None },
        least_source(cut, side_edge(edge, DirectedEdgeSide::Left), true),
        least_source(cut, side_edge(edge, DirectedEdgeSide::Right), true),
    )
}

/// For each cut edge, the face that a removed face along it is owned by.
pub fn cut_edge_meshlib_removed_face_owner_candidates_by_index(
    cut: &ExactCutMeshRecords,
    source_faces_by_edge: &Vec<Option<usize>>,
) -> (out: Vec<Option<usize>>)
    ensures
        out@.len() == cut.cut_edges@.len(),
        forall|i: int| 0 <= i < out@.len() ==> #[trigger] out@[i] == owner_candidate_at(cut, source_faces_by_edge@, i),
{
    let mut out: Vec<Option<usize>> = Vec::new();
    let mut i: usize = 0;
    while i < cut.cut_edges.len()
        invariant
            i <= cut.cut_edges@.len(),
            out@.len() == i,
            forall|j: int| 0 <= j < i ==> #[trigger] out@[j] == owner_candidate_at(cut, source_faces_by_edge@, j),
        decreases cut.cut_edges.len() - i,
    {
        let edge = cut.cut_edges[i];
        let entry = if i < source_faces_by_edge.len() {
            source_faces_by_edge[i]
        } else {
            None
        };
        let left = cut_edge_side_source_faces(cut, edge, DirectedEdgeSide::Left);
        let right = cut_edge_side_source_faces(cut, edge, DirectedEdgeSide::Right);
        proof {
            lemma_first_is_least(cut, side_edge(edge, DirectedEdgeSide::Left), true, left@);
            lemma_first_is_least(cut, side_edge(edge, DirectedEdgeSide::Right), true, right@);
        }
        let left_first = if left.len() > 0 {
            Some(left[0])
        } else {
            None
        };
        let right_first = if right.len() > 0 {
            Some(right[0])
        } else {
            None
        };
        out.push(meshlib_removed_face_owner_candidate(entry, left_first, right_first));
        i += 1;
    }
    out
}

/// Whether cut path `p` is marked closed.
pub open spec fn is_closed_path(cut: &ExactCutMeshRecords, p: int) -> bool {
    0 <= p < cut.cut_edge_path_closed@.len() && cut.cut_edge_path_closed@[p]
}

/// The closed cut paths among the first `n`, in order.
pub open spec fn closed_positions(cut: &ExactCutMeshRecords, n: int) -> Seq<int>
    decreases n,
{
    if n <= 0 {
        Seq::empty()
    } else if is_closed_path(cut, n - 1) {
        closed_positions(cut, n - 1).push(n - 1)
    } else {
        closed_positions(cut, n - 1)
    }
}

proof fn lemma_closed_positions(cut: &ExactCutMeshRecords, n: int)
    ensures
        closed_positions(cut, n).len() <= if n > 0 { n } else { 0 },
        forall|j: int| 0 <= j < closed_positions(cut, n).len() ==> 0 <= #[trigger] closed_positions(cut, n)[j] < n,
    decreases n,
{
    if n > 0 {
        lemma_closed_positions(cut, n - 1);
    }
}

/// The list at `j`, or an empty one past the end.
pub open spec fn list_or_empty(lists: Seq<Vec<usize>>, j: int) -> Seq<usize> {
    if 0 <= j < lists.len() {
        lists[j]@
    } else {
        Seq::empty()
    }
}

/// The entry at `k`, if there is one.
pub open spec fn entry_at(s: Seq<usize>, k: int) -> Option<usize> {
    if 0 <= k < s.len() {
        Some(s[k])
    } else {
        None
    }
}

/// The source record of edge `k` of cut path `p`, if there is one.
pub open spec fn path_source_at(cut: &ExactCutMeshRecords, p: int, k: int) -> Option<usize> {
    if 0 <= p < cut.cut_edge_path_source_faces@.len() && 0 <= k < cut.cut_edge_path_source_faces@[p]@.len() {
        cut.cut_edge_path_source_faces@[p]@[k]
    } else {
        None
    }
}

/// The owner candidates of the first `n` edges of cut path `p`, given the
/// first source face on the left and right of each edge; edges with no
/// candidate are skipped.
pub open spec fn path_candidates(cut: &ExactCutMeshRecords, p: int, left: Seq<usize>, right: Seq<usize>, n: int) -> Seq<usize>
    decreases n,
{
    if n <= 0 {
        Seq::empty()
    } else {
        match spec_owner_candidate(path_source_at(cut, p, n - 1), entry_at(left, n - 1), entry_at(right, n - 1)) {
            Some(c) => path_candidates(cut, p, left, right, n - 1).push(c),
            None => path_candidates(cut, p, left, right, n - 1),
        }
    }
}

/// For each closed cut path, in order, the faces that the removed faces
/// along its edges are owned by, from the `j`-th lists of first left and
/// right source faces for the `j`-th closed path.
pub fn closed_path_meshlib_removed_face_owner_candidates(
    cut: &ExactCutMeshRecords,
    closed_left_primary_sources: &Vec<Vec<usize>>,
    closed_right_primary_sources: &Vec<Vec<usize>>,
) -> (out: Vec<Vec<usize>>)
    ensures
        out@.len() == closed_positions(cut, cut.cut_edge_paths@.len() as int).len(),
        forall|j: int|
            0 <= j < out@.len() ==> (#[trigger] out@[j])@ == path_candidates(
                cut,
                closed_positions(cut, cut.cut_edge_paths@.len() as int)[j],
                list_or_empty(closed_left_primary_sources@, j),
                list_or_empty(closed_right_primary_sources@, j),
                cut.cut_edge_paths@[closed_positions(cut, cut.cut_edge_paths@.len() as int)[j]]@.len() as int,
            ),
{
    let mut out: Vec<Vec<usize>> = Vec::new();
    let mut p: usize = 0;
    while p < cut.cut_edge_paths.len()
        invariant
            p <= cut.cut_edge_paths@.len(),
            out@.len() == closed_positions(cut, p as int).len(),
            forall|j: int|
                0 <= j < out@.len() ==> (#[trigger] out@[j])@ == path_candidates(
                    cut,
                    closed_positions(cut, p as int)[j],
                    list_or_empty(closed_left_primary_sources@, j),
                    list_or_empty(closed_right_primary_sources@, j),
                    cut.cut_edge_paths@[closed_positions(cut, p as int)[j]]@.len() as int,
                ),
        decreases cut.cut_edge_paths.len() - p,
    {
        let closed = p < cut.cut_edge_path_closed.len() && cut.cut_edge_path_closed[p];
        if closed {
            let j = out.len();
            let path_len = cut.cut_edge_paths[p].len();
            let ghost left = list_or_empty(closed_left_primary_sources@, j as int);
            let ghost right = list_or_empty(closed_right_primary_sources@, j as int);
            let mut candidates: Vec<usize> = Vec::new();
            let mut k: usize = 0;
            while k < path_len
                invariant
                    p < cut.cut_edge_paths@.len(),
                    path_len == cut.cut_edge_paths@[p as int]@.len(),
                    left == list_or_empty(closed_left_primary_sources@, j as int),
                    right == list_or_empty(closed_right_primary_sources@, j as int),
                    k <= path_len,
                    candidates@ == path_candidates(cut, p as int, left, right, k as int),
                decreases path_len - k,
            {
                let source = if p < cut.cut_edge_path_source_faces.len() && k < cut.cut_edge_path_source_faces[p].len() {
                    cut.cut_edge_path_source_faces[p][k]
                } else {
                    None
                };
                let left_entry = if j < closed_left_primary_sources.len() && k < closed_left_primary_sources[j].len() {
                    Some(closed_left_primary_sources[j][k])
                } else {
                    None
                };
                let right_entry = if j < closed_right_primary_sources.len() && k < closed_right_primary_sources[j].len() {
                    Some(closed_right_primary_sources[j][k])
                } else {
                    None
                };
                proof {
                    assert(source == path_source_at(cut, p as int, k as int));
                    assert(left_entry == entry_at(left, k as int));
                    assert(right_entry == entry_at(right, k as int));
                }
                if let Some(c) = meshlib_removed_face_owner_candidate(source, left_entry, right_entry) {
                    candidates.push(c);
                }
                k += 1;
            }
            out.push(candidates);
            proof {
                assert(closed_positions(cut, p as int + 1) == closed_positions(cut, p as int).push(p as int));
            }
        }
        p += 1;
    }
    out
}

/// The first `n` cut paths, or only the closed ones among them.
pub open spec fn selected_positions(cut: &ExactCutMeshRecords, n: int, closed_only: bool) -> Seq<int> {
    if closed_only {
        closed_positions(cut, n)
    } else {
        Seq::new(if n > 0 { n as nat } else { 0 }, |i: int| i)
    }
}

/// The next position selected after the first `p`.
proof fn lemma_selected_step(cut: &ExactCutMeshRecords, p: int, closed_only: bool)
    requires
        p >= 0,
    ensures
        selected_positions(cut, p + 1, closed_only) == if !closed_only || is_closed_path(cut, p) {
            selected_positions(cut, p, closed_only).push(p)
        } else {
            selected_positions(cut, p, closed_only)
        },
{
    if !closed_only {
        assert(selected_positions(cut, p + 1, closed_only) =~= selected_positions(cut, p, closed_only).push(p));
    }
}

/// The known source faces among a path's source records, in order.
pub open spec fn flat_sources(sources: Seq<Option<usize>>) -> Seq<usize>
    decreases sources.len(),
{
    if sources.len() == 0 {
        Seq::empty()
    } else {
        match sources.last() {
            Some(f) => flat_sources(sources.drop_last()).push(f),
            None => flat_sources(sources.drop_last()),
        }
    }
}

/// The known source faces among a path's source records, in order.
pub fn known_sources(sources: &Vec<Option<usize>>) -> (out: Vec<usize>)
    ensures
        out@ == flat_sources(sources@),
{
    let mut out: Vec<usize> = Vec::new();
    let mut k: usize = 0;
    while k < sources.len()
        invariant
            k <= sources@.len(),
            out@ == flat_sources(sources@.subrange(0, k as int)),
        decreases sources.len() - k,
    {
        proof {
            assert(sources@.subrange(0, k as int + 1).drop_last() =~= sources@.subrange(0, k as int));
        }
        if let Some(f) = sources[k] {
            out.push(f);
        }
        k += 1;
    }
    proof {
        assert(sources@.subrange(0, sources@.len() as int) =~= sources@);
    }
    out
}

/// The edge whose faces are read: ordered for the faces on either side,
/// else directed to the asked side.
pub open spec fn view_edge(edge: [usize; 2], side: Option<DirectedEdgeSide>) -> [usize; 2] {
    match side {
        None => spec_ordered(edge),
        Some(s) => side_edge(edge, s),
    }
}

/// `lists` holds, for each edge of cut path `p`, the source faces around it
/// (on either side, or on the asked side).
pub open spec fn edge_lists_ok(cut: &ExactCutMeshRecords, p: int, side: Option<DirectedEdgeSide>, lists: Seq<Vec<usize>>) -> bool {
    &&& lists.len() == cut.cut_edge_paths@[p]@.len()
    &&& forall|k: int|
        0 <= k < lists.len() ==> edge_sources_ok(
            cut,
            view_edge(cut.cut_edge_paths@[p]@[k], side),
            side is Some,
            (#[trigger] lists[k])@,
        )
}

/// For each edge of cut path `p`, the source faces around it.
fn edge_source_lists(cut: &ExactCutMeshRecords, p: usize, side: Option<DirectedEdgeSide>) -> (out: Vec<Vec<usize>>)
    requires
        p < cut.cut_edge_paths@.len(),
    ensures
        edge_lists_ok(cut, p as int, side, out@),
{
    let path = &cut.cut_edge_paths[p];
    let mut out: Vec<Vec<usize>> = Vec::new();
    let mut k: usize = 0;
    while k < path.len()
        invariant
            path@ == cut.cut_edge_paths@[p as int]@,
            k <= path@.len(),
            out@.len() == k,
            forall|j: int|
                0 <= j < k ==> edge_sources_ok(cut, view_edge(path@[j], side), side is Some, (#[trigger] out@[j])@),
        decreases path.len() - k,
    {
        let list = match side {
            None => cut_edge_adjacent_source_faces(cut, path[k]),
            Some(s) => cut_edge_side_source_faces(cut, path[k], s),
        };
        out.push(list);
        k += 1;
    }
    out
}

/// For each selected cut path, the source faces around each of its edges.
fn path_edge_lists(cut: &ExactCutMeshRecords, closed_only: bool, side: Option<DirectedEdgeSide>) -> (out: Vec<Vec<Vec<usize>>>)
    ensures
        out@.len() == selected_positions(cut, cut.cut_edge_paths@.len() as int, closed_only).len(),
        forall|j: int|
            0 <= j < out@.len() ==> edge_lists_ok(
                cut,
                selected_positions(cut, cut.cut_edge_paths@.len() as int, closed_only)[j],
                side,
                (#[trigger] out@[j])@,
            ),
{
    let mut out: Vec<Vec<Vec<usize>>> = Vec::new();
    let mut p: usize = 0;
    while p < cut.cut_edge_paths.len()
        invariant
            p <= cut.cut_edge_paths@.len(),
            out@.len() == selected_positions(cut, p as int, closed_only).len(),
            forall|j: int|
                0 <= j < out@.len() ==> edge_lists_ok(cut, selected_positions(cut, p as int, closed_only)[j], side, (#[trigger] out@[j])@),
        decreases cut.cut_edge_paths.len() - p,
    {
        proof {
            lemma_selected_step(cut, p as int, closed_only);
        }
        let closed = p < cut.cut_edge_path_closed.len() && cut.cut_edge_path_closed[p];
        if !closed_only || closed {
            out.push(edge_source_lists(cut, p, side));
        }
        p += 1;
    }
    out
}

/// For each selected path among those with source records, its known
/// source faces.
fn path_known_sources(cut: &ExactCutMeshRecords, closed_only: bool) -> (out: Vec<Vec<usize>>)
    ensures
        out@.len() == selected_positions(cut, cut.cut_edge_path_source_faces@.len() as int, closed_only).len(),
        forall|j: int|
            0 <= j < out@.len() ==> (#[trigger] out@[j])@ == flat_sources(
                cut.cut_edge_path_source_faces@[selected_positions(cut, cut.cut_edge_path_source_faces@.len() as int, closed_only)[j]]@,
            ),
{
    let mut out: Vec<Vec<usize>> = Vec::new();
    let mut p: usize = 0;
    while p < cut.cut_edge_path_source_faces.len()
        invariant
            p <= cut.cut_edge_path_source_faces@.len(),
            out@.len() == selected_positions(cut, p as int, closed_only).len(),
            forall|j: int|
                0 <= j < out@.len() ==> (#[trigger] out@[j])@ == flat_sources(
                    cut.cut_edge_path_source_faces@[selected_positions(cut, p as int, closed_only)[j]]@,
                ),
        decreases cut.cut_edge_path_source_faces.len() - p,
    {
        proof {
            lemma_selected_step(cut, p as int, closed_only);
        }
        let closed = p < cut.cut_edge_path_closed.len() && cut.cut_edge_path_closed[p];
        if !closed_only || closed {
            out.push(known_sources(&cut.cut_edge_path_source_faces[p]));
        }
        p += 1;
    }
    out
}

/// The length of each selected cut path.
fn selected_path_lengths(cut: &ExactCutMeshRecords, closed_only: bool) -> (out: Vec<usize>)
    ensures
        out@.len() == selected_positions(cut, cut.cut_edge_paths@.len() as int, closed_only).len(),
        forall|j: int|
            0 <= j < out@.len() ==> #[trigger] out@[j] == cut.cut_edge_paths@[selected_positions(
                cut,
                cut.cut_edge_paths@.len() as int,
                closed_only,
            )[j]]@.len(),
{
    let mut out: Vec<usize> = Vec::new();
    let mut p: usize = 0;
    while p < cut.cut_edge_paths.len()
        invariant
            p <= cut.cut_edge_paths@.len(),
            out@.len() == selected_positions(cut, p as int, closed_only).len(),
            forall|j: int|
                0 <= j < out@.len() ==> #[trigger] out@[j] == cut.cut_edge_paths@[selected_positions(cut, p as int, closed_only)[j]]@.len(),
        decreases cut.cut_edge_paths.len() - p,
    {
        proof {
            lemma_selected_step(cut, p as int, closed_only);
        }
        let closed = p < cut.cut_edge_path_closed.len() && cut.cut_edge_path_closed[p];
        if !closed_only || closed {
            out.push(cut.cut_edge_paths[p].len());
        }
        p += 1;
    }
    out
}

/// Each list of `runs` is the canonical run-length form of the matching list.
pub open spec fn runs_of_each(lists: Seq<Vec<usize>>, runs: Seq<Vec<[usize; 2]>>) -> bool {
    &&& runs.len() == lists.len()
    &&& forall|j: int|
        0 <= j < runs.len() ==> decode_runs((#[trigger] runs[j])@) == lists[j]@ && runs_canonical(runs[j]@)
}

/// Each list of `lists` holds the source faces around the edges of the
/// matching selected path.
pub open spec fn lists_for_paths(
    cut: &ExactCutMeshRecords,
    positions: Seq<int>,
    side: Option<DirectedEdgeSide>,
    lists: Seq<Vec<Vec<usize>>>,
) -> bool {
    &&& lists.len() == positions.len()
    &&& forall|j: int| 0 <= j < lists.len() ==> edge_lists_ok(cut, positions[j], side, (#[trigger] lists[j])@)
}

/// What the cut paths of a cut mesh run along, path by path and for the
/// closed paths alone: lengths, source faces and their runs, the source
/// faces around each edge and on each side of it, and the faces that the
/// removed faces along closed paths are owned by.
#[derive(Debug, Clone, PartialEq, Eq)]
pub struct CutPathInventory {
    pub path_lengths: Vec<usize>,
    pub closed_path_lengths: Vec<usize>,
    pub path_source_faces: Vec<Vec<usize>>,
    pub path_source_face_runs: Vec<Vec<[usize; 2]>>,
    pub closed_path_source_faces: Vec<Vec<usize>>,
    pub closed_path_source_face_runs: Vec<Vec<[usize; 2]>>,
    pub path_edge_adjacent_source_faces: Vec<Vec<Vec<usize>>>,
    pub closed_path_edge_adjacent_source_faces: Vec<Vec<Vec<usize>>>,
    pub path_edge_left_source_faces: Vec<Vec<Vec<usize>>>,
    pub path_edge_right_source_faces: Vec<Vec<Vec<usize>>>,
    pub closed_path_edge_left_source_faces: Vec<Vec<Vec<usize>>>,
    pub closed_path_edge_right_source_faces: Vec<Vec<Vec<usize>>>,
    pub closed_path_edge_left_primary_source_faces: Vec<Vec<usize>>,
    pub closed_path_edge_right_primary_source_faces: Vec<Vec<usize>>,
    pub closed_path_edge_left_primary_source_face_runs: Vec<Vec<[usize; 2]>>,
    pub closed_path_edge_right_primary_source_face_runs: Vec<Vec<[usize; 2]>>,
    pub closed_path_meshlib_removed_face_owner_candidates: Vec<Vec<usize>>,
    pub closed_path_meshlib_removed_face_owner_candidate_runs: Vec<Vec<[usize; 2]>>,
}

/// The inventory of a cut mesh's cut paths.
pub open spec fn cut_path_inventory_ok(cut: &ExactCutMeshRecords, inv: &CutPathInventory) -> bool {
    let paths = cut.cut_edge_paths@;
    let sources = cut.cut_edge_path_source_faces@;
    let all_paths = selected_positions(cut, paths.len() as int, false);
    let closed_paths = selected_positions(cut, paths.len() as int, true);
    let closed_sources = selected_positions(cut, sources.len() as int, true);
    &&& inv.path_lengths@.len() == paths.len()
    &&& forall|p: int| 0 <= p < paths.len() ==> #[trigger] inv.path_lengths@[p] == paths[p]@.len()
    &&& inv.closed_path_lengths@.len() == closed_paths.len()
    &&& forall|j: int|
        0 <= j < closed_paths.len() ==> #[trigger] inv.closed_path_lengths@[j] == paths[closed_paths[j]]@.len()
    &&& inv.path_source_faces@.len() == sources.len()
    &&& forall|p: int| 0 <= p < sources.len() ==> (#[trigger] inv.path_source_faces@[p])@ == flat_sources(sources[p]@)
    &&& runs_of_each(inv.path_source_faces@, inv.path_source_face_runs@)
    &&& inv.closed_path_source_faces@.len() == closed_sources.len()
    &&& forall|j: int|
        0 <= j < closed_sources.len() ==> (#[trigger] inv.closed_path_source_faces@[j])@ == flat_sources(
            sources[closed_sources[j]]@,
        )
    &&& runs_of_each(inv.closed_path_source_faces@, inv.closed_path_source_face_runs@)
    &&& lists_for_paths(cut, all_paths, None, inv.path_edge_adjacent_source_faces@)
    &&& lists_for_paths(cut, closed_paths, None, inv.closed_path_edge_adjacent_source_faces@)
    &&& lists_for_paths(cut, all_paths, Some(DirectedEdgeSide::Left), inv.path_edge_left_source_faces@)
    &&& lists_for_paths(cut, all_paths, Some(DirectedEdgeSide::Right), inv.path_edge_right_source_faces@)
    &&& lists_for_paths(cut, closed_paths, Some(DirectedEdgeSide::Left), inv.closed_path_edge_left_source_faces@)
    &&& lists_for_paths(cut, closed_paths, Some(DirectedEdgeSide::Right), inv.closed_path_edge_right_source_faces@)
    &&& inv.closed_path_edge_left_primary_source_faces@.len() == closed_paths.len()
    &&& inv.closed_path_edge_right_primary_source_faces@.len() == closed_paths.len()
    &&& forall|j: int|
        0 <= j < closed_paths.len() ==> (#[trigger] inv.closed_path_edge_left_primary_source_faces@[j])@ == primary_faces(
            inv.closed_path_edge_left_source_faces@[j]@,
        ) && inv.closed_path_edge_right_primary_source_faces@[j]@ == primary_faces(
            inv.closed_path_edge_right_source_faces@[j]@,
        )
    &&& runs_of_each(inv.closed_path_edge_left_primary_source_faces@, inv.closed_path_edge_left_primary_source_face_runs@)
    &&& runs_of_each(inv.closed_path_edge_right_primary_source_faces@, inv.closed_path_edge_right_primary_source_face_runs@)
    &&& inv.closed_path_meshlib_removed_face_owner_candidates@.len() == closed_paths.len()
    &&& forall|j: int|
        0 <= j < closed_paths.len() ==> (#[trigger] inv.closed_path_meshlib_removed_face_owner_candidates@[j])@
            == path_candidates(
            cut,
            closed_paths[j],
            inv.closed_path_edge_left_primary_source_faces@[j]@,
            inv.closed_path_edge_right_primary_source_faces@[j]@,
            paths[closed_paths[j]]@.len() as int,
        )
    &&& runs_of_each(
        inv.closed_path_meshlib_removed_face_owner_candidates@,
        inv.closed_path_meshlib_removed_face_owner_candidate_runs@,
    )
}

/// The inventory of a cut mesh's cut paths: lengths and source faces of
/// each path and of the closed ones, the source faces around and on each
/// side of every path edge, the first of those on each side, and the faces
/// that the removed faces along closed paths are owned by.
pub fn cut_path_inventory(cut: &ExactCutMeshRecords) -> (inv: CutPathInventory)
    ensures
        cut_path_inventory_ok(cut, &inv),
{
    let path_lengths = selected_path_lengths(cut, false);
    let closed_path_lengths = selected_path_lengths(cut, true);
    let path_source_faces = path_known_sources(cut, false);
    let path_source_face_runs = source_face_runs_by_path(&path_source_faces);
    let closed_path_source_faces = path_known_sources(cut, true);
    let closed_path_source_face_runs = source_face_runs_by_path(&closed_path_source_faces);
    let adjacent = path_edge_lists(cut, false, None);
    let closed_adjacent = path_edge_lists(cut, true, None);
    let left = path_edge_lists(cut, false, Some(DirectedEdgeSide::Left));
    let right = path_edge_lists(cut, false, Some(DirectedEdgeSide::Right));
    let closed_left = path_edge_lists(cut, true, Some(DirectedEdgeSide::Left));
    let closed_right = path_edge_lists(cut, true, Some(DirectedEdgeSide::Right));
    let left_primary = primary_edge_source_faces(&closed_left);
    let right_primary = primary_edge_source_faces(&closed_right);
    let left_primary_runs = source_face_runs_by_path(&left_primary);
    let right_primary_runs = source_face_runs_by_path(&right_primary);
    let candidates = closed_path_meshlib_removed_face_owner_candidates(cut, &left_primary, &right_primary);
    let candidate_runs = source_face_runs_by_path(&candidates);
    let inv = CutPathInventory {
        path_lengths,
        closed_path_lengths,
        path_source_faces,
        path_source_face_runs,
        closed_path_source_faces,
        closed_path_source_face_runs,
        path_edge_adjacent_source_faces: adjacent,
        closed_path_edge_adjacent_source_faces: closed_adjacent,
        path_edge_left_source_faces: left,
        path_edge_right_source_faces: right,
        closed_path_edge_left_source_faces: closed_left,
        closed_path_edge_right_source_faces: closed_right,
        closed_path_edge_left_primary_source_faces: left_primary,
        closed_path_edge_right_primary_source_faces: right_primary,
        closed_path_edge_left_primary_source_face_runs: left_primary_runs,
        closed_path_edge_right_primary_source_face_runs: right_primary_runs,
        closed_path_meshlib_removed_face_owner_candidates: candidates,
        closed_path_meshlib_removed_face_owner_candidate_runs: candidate_runs,
    };
    proof {
        let closed_paths = selected_positions(cut, cut.cut_edge_paths@.len() as int, true);
        assert forall|j: int| 0 <= j < closed_paths.len() implies
            list_or_empty(inv.closed_path_edge_left_primary_source_faces@, j) == inv.closed_path_edge_left_primary_source_faces@[j]@
            && list_or_empty(inv.closed_path_edge_right_primary_source_faces@, j) == inv.closed_path_edge_right_primary_source_faces@[j]@ by {}
    }
    inv
}

/// The number of pairs in the first `g` groups together.
pub open spec fn groups_total(groups: Seq<Seq<usize>>, g: int) -> nat
    decreases g,
{
    if g <= 0 {
        0
    } else {
        groups_total(groups, g - 1) + groups[g - 1].len()
    }
}

proof fn lemma_group_misses_bound(group: Seq<usize>, pairs: Seq<ExactStitchEdgePair>, table: Seq<Option<usize>>, first: bool, n: int)
    requires
        n >= 0,
    ensures
        group_misses(group, pairs, table, first, n) <= n,
    decreases n,
{
    if n > 0 {
        lemma_group_misses_bound(group, pairs, table, first, n - 1);
    }
}

/// A side misses at most one entry per pair of the groups.
proof fn lemma_misses_bound(groups: Seq<Seq<usize>>, pairs: Seq<ExactStitchEdgePair>, table: Seq<Option<usize>>, first: bool, g: int)
    ensures
        all_misses(groups, pairs, table, first, g) <= groups_total(groups, g),
    decreases g,
{
    if g > 0 {
        lemma_misses_bound(groups, pairs, table, first, g - 1);
        lemma_group_misses_bound(groups[g - 1], pairs, table, first, groups[g - 1].len() as int);
    }
}

proof fn lemma_totals_match(paths: Seq<(Seq<usize>, bool)>, k: int)
    requires
        k <= paths.len(),
    ensures
        groups_total(paths.map_values(|x: (Seq<usize>, bool)| x.0), k) == path_total(paths, k),
    decreases k,
{
    if k > 0 {
        lemma_totals_match(paths, k - 1);
    }
}

/// The stitch plan's paths as groups of pair indices.
pub open spec fn plan_groups(plan: &ExactStitchPlan) -> Seq<Seq<usize>> {
    plan.paths@.map_values(|p: ExactStitchPath| p.pair_indices@)
}

/// The stitch pairs grouped into paths along shared vertices, as groups of
/// pair indices.
pub open spec fn edge_groups(plan: &ExactStitchPlan) -> Seq<Seq<usize>> {
    grouped_upto(plan.pairs@, plan.pairs@.len() as nat).0.map_values(|x: (Seq<usize>, bool)| x.0)
}

/// How many of the first `k` paths are closed.
pub open spec fn closed_count(paths: Seq<(Seq<usize>, bool)>, k: int) -> nat
    decreases k,
{
    if k <= 0 {
        0
    } else {
        closed_count(paths, k - 1) + if paths[k - 1].1 { 1nat } else { 0nat }
    }
}

/// Each cut edge's owner candidate, from a table of its source faces.
pub open spec fn owner_table(cut: &ExactCutMeshRecords, table: Seq<Option<usize>>) -> Seq<Option<usize>> {
    Seq::new(cut.cut_edges@.len(), |i: int| owner_candidate_at(cut, table, i))
}

/// The per-cut-edge table of first known source faces.
pub open spec fn edge_source_table(cut: &ExactCutMeshRecords) -> Seq<Option<usize>> {
    table_of(cut, entries_upto(cut, sourced_path_count(cut)))
}

/// The source faces and owner candidates of two cut meshes along their
/// stitch: along the plan's paths (with runs and missing records), and
/// along the pairs grouped into paths by shared vertices.
#[derive(Debug, Clone, PartialEq, Eq)]
pub struct StitchResultCutSourceInventory {
    pub path_lengths: Vec<usize>,
    pub first_path_source_faces: Vec<Vec<usize>>,
    pub second_path_source_faces: Vec<Vec<usize>>,
    pub first_path_source_face_runs: Vec<Vec<[usize; 2]>>,
    pub second_path_source_face_runs: Vec<Vec<[usize; 2]>>,
    pub first_path_meshlib_removed_face_owner_candidates: Vec<Vec<usize>>,
    pub second_path_meshlib_removed_face_owner_candidates: Vec<Vec<usize>>,
    pub first_path_meshlib_removed_face_owner_candidate_runs: Vec<Vec<[usize; 2]>>,
    pub second_path_meshlib_removed_face_owner_candidate_runs: Vec<Vec<[usize; 2]>>,
    pub first_source_faces: Vec<usize>,
    pub second_source_faces: Vec<usize>,
    pub first_source_face_runs: Vec<[usize; 2]>,
    pub second_source_face_runs: Vec<[usize; 2]>,
    pub first_meshlib_removed_face_owner_candidates: Vec<usize>,
    pub second_meshlib_removed_face_owner_candidates: Vec<usize>,
    pub first_meshlib_removed_face_owner_candidate_runs: Vec<[usize; 2]>,
    pub second_meshlib_removed_face_owner_candidate_runs: Vec<[usize; 2]>,
    pub meshlib_removed_face_owner_candidate_missing_records: [usize; 2],
    pub missing_source_records: [usize; 2],
    pub edge_grouped_path_lengths: Vec<usize>,
    pub edge_grouped_closed_paths: usize,
    pub first_edge_grouped_path_source_faces: Vec<Vec<usize>>,
    pub second_edge_grouped_path_source_faces: Vec<Vec<usize>>,
    pub first_edge_grouped_path_source_face_runs: Vec<Vec<[usize; 2]>>,
    pub second_edge_grouped_path_source_face_runs: Vec<Vec<[usize; 2]>>,
    pub first_edge_grouped_source_faces: Vec<usize>,
    pub second_edge_grouped_source_faces: Vec<usize>,
    pub first_edge_grouped_source_face_runs: Vec<[usize; 2]>,
    pub second_edge_grouped_source_face_runs: Vec<[usize; 2]>,
    pub edge_grouped_missing_source_records: [usize; 2],
}

/// The part of the inventory along the plan's paths.
pub open spec fn plan_part(inv: &StitchResultCutSourceInventory) -> StitchSourcePaths {
    StitchSourcePaths {
        path_lengths: inv.path_lengths,
        first_path_source_faces: inv.first_path_source_faces,
        second_path_source_faces: inv.second_path_source_faces,
        first_path_source_face_runs: inv.first_path_source_face_runs,
        second_path_source_face_runs: inv.second_path_source_face_runs,
        first_path_meshlib_removed_face_owner_candidates: inv.first_path_meshlib_removed_face_owner_candidates,
        second_path_meshlib_removed_face_owner_candidates: inv.second_path_meshlib_removed_face_owner_candidates,
        first_path_meshlib_removed_face_owner_candidate_runs: inv.first_path_meshlib_removed_face_owner_candidate_runs,
        second_path_meshlib_removed_face_owner_candidate_runs: inv.second_path_meshlib_removed_face_owner_candidate_runs,
        first_source_faces: inv.first_source_faces,
        second_source_faces: inv.second_source_faces,
        first_source_face_runs: inv.first_source_face_runs,
        second_source_face_runs: inv.second_source_face_runs,
        first_meshlib_removed_face_owner_candidates: inv.first_meshlib_removed_face_owner_candidates,
        second_meshlib_removed_face_owner_candidates: inv.second_meshlib_removed_face_owner_candidates,
        first_meshlib_removed_face_owner_candidate_runs: inv.first_meshlib_removed_face_owner_candidate_runs,
        second_meshlib_removed_face_owner_candidate_runs: inv.second_meshlib_removed_face_owner_candidate_runs,
        meshlib_removed_face_owner_candidate_missing_records: inv.meshlib_removed_face_owner_candidate_missing_records,
        missing_source_records: inv.missing_source_records,
    }
}

/// The inventory along the stitch of two cut meshes.
pub open spec fn stitch_inventory_ok(
    first: &ExactCutMeshRecords,
    second: &ExactCutMeshRecords,
    plan: &ExactStitchPlan,
    inv: &StitchResultCutSourceInventory,
) -> bool {
    let t1 = edge_source_table(first);
    let t2 = edge_source_table(second);
    let pairs = plan.pairs@;
    let groups = edge_groups(plan);
    let n = groups.len() as int;
    &&& source_paths_ok(plan_groups(plan), pairs, t1, t2, owner_table(first, t1), owner_table(second, t2), &plan_part(inv))
    &&& inv.edge_grouped_closed_paths == closed_count(grouped_upto(pairs, pairs.len() as nat).0, n)
    &&& inv.edge_grouped_path_lengths@.len() == n
    &&& inv.first_edge_grouped_path_source_faces@.len() == n
    &&& inv.second_edge_grouped_path_source_faces@.len() == n
    &&& forall|g: int| 0 <= g < n ==> {
        &&& #[trigger] inv.edge_grouped_path_lengths@[g] == groups[g].len()
        &&& inv.first_edge_grouped_path_source_faces@[g]@ == group_entries(groups[g], pairs, t1, true, groups[g].len() as int)
        &&& inv.second_edge_grouped_path_source_faces@[g]@ == group_entries(groups[g], pairs, t2, false, groups[g].len() as int)
    }
    &&& runs_of_each(inv.first_edge_grouped_path_source_faces@, inv.first_edge_grouped_path_source_face_runs@)
    &&& runs_of_each(inv.second_edge_grouped_path_source_faces@, inv.second_edge_grouped_path_source_face_runs@)
    &&& inv.first_edge_grouped_source_faces@ == all_entries(groups, pairs, t1, true, n)
    &&& inv.second_edge_grouped_source_faces@ == all_entries(groups, pairs, t2, false, n)
    &&& decode_runs(inv.first_edge_grouped_source_face_runs@) == inv.first_edge_grouped_source_faces@
    &&& runs_canonical(inv.first_edge_grouped_source_face_runs@)
    &&& decode_runs(inv.second_edge_grouped_source_face_runs@) == inv.second_edge_grouped_source_faces@
    &&& runs_canonical(inv.second_edge_grouped_source_face_runs@)
    &&& inv.edge_grouped_missing_source_records[0] == all_misses(groups, pairs, t1, true, n)
    &&& inv.edge_grouped_missing_source_records[1] == all_misses(groups, pairs, t2, false, n)
}

/// A copy of a list of indices.
fn copy_indices(v: &Vec<usize>) -> (out: Vec<usize>)
    ensures
        out@ == v@,
{
    let mut out: Vec<usize> = Vec::new();
    let mut i: usize = 0;
    while i < v.len()
        invariant
            i <= v@.len(),
            out@ == v@.subrange(0, i as int),
        decreases v.len() - i,
    {
        out.push(v[i]);
        proof {
            assert(out@ =~= v@.subrange(0, i as int + 1));
        }
        i += 1;
    }
    proof {
        assert(v@.subrange(0, v@.len() as int) =~= v@);
    }
    out
}

/// The source faces and owner candidates of two cut meshes along their
/// stitch, read through each cut edge's first known source face: along the
/// plan's paths, and along the stitch pairs grouped into paths by shared
/// vertices.
pub fn stitch_result_cut_source_inventory(
    first: &ExactCutMeshRecords,
    second: &ExactCutMeshRecords,
    stitch_plan: &ExactStitchPlan,
) -> (inv: StitchResultCutSourceInventory)
    requires
        groups_total(plan_groups(stitch_plan), stitch_plan.paths@.len() as int) <= usize::MAX,
    ensures
        stitch_inventory_ok(first, second, stitch_plan, &inv),
{
    let first_by_edge = cut_edge_source_faces_by_index(first);
    let second_by_edge = cut_edge_source_faces_by_index(second);
    let first_owners = cut_edge_meshlib_removed_face_owner_candidates_by_index(first, &first_by_edge);
    let second_owners = cut_edge_meshlib_removed_face_owner_candidates_by_index(second, &second_by_edge);
    proof {
        assert(first_owners@ =~= owner_table(first, first_by_edge@));
        assert(second_owners@ =~= owner_table(second, second_by_edge@));
    }
    let mut pair_groups: Vec<Vec<usize>> = Vec::new();
    let mut g: usize = 0;
    while g < stitch_plan.paths.len()
        invariant
            g <= stitch_plan.paths@.len(),
            pair_groups@.len() == g,
            forall|h: int| 0 <= h < g ==> (#[trigger] pair_groups@[h])@ == stitch_plan.paths@[h].pair_indices@,
        decreases stitch_plan.paths.len() - g,
    {
        pair_groups.push(copy_indices(&stitch_plan.paths[g].pair_indices));
        g += 1;
    }
    proof {
        assert(group_views(pair_groups@) =~= plan_groups(stitch_plan));
        let groups = plan_groups(stitch_plan);
        let k = stitch_plan.paths@.len() as int;
        lemma_misses_bound(groups, stitch_plan.pairs@, first_by_edge@, true, k);
        lemma_misses_bound(groups, stitch_plan.pairs@, second_by_edge@, false, k);
        lemma_misses_bound(groups, stitch_plan.pairs@, first_owners@, true, k);
        lemma_misses_bound(groups, stitch_plan.pairs@, second_owners@, false, k);
    }
    let paths = stitch_source_paths_from_pair_groups(
        &pair_groups,
        stitch_plan,
        &first_by_edge,
        &second_by_edge,
        &first_owners,
        &second_owners,
    );
    let grouped = edge_grouped_stitch_pair_paths(&stitch_plan.pairs);
    let ghost spec_grouped = grouped_upto(stitch_plan.pairs@, stitch_plan.pairs@.len() as nat).0;
    let mut closed_paths: usize = 0;
    let mut edge_pair_groups: Vec<Vec<usize>> = Vec::new();
    let mut e: usize = 0;
    while e < grouped.len()
        invariant
            e <= grouped@.len(),
            grouped@.len() == spec_grouped.len(),
            forall|p: int|
                0 <= p < grouped@.len() ==> (#[trigger] grouped@[p]).0@ == spec_grouped[p].0 && grouped@[p].1
                    == spec_grouped[p].1,
            closed_paths == closed_count(spec_grouped, e as int),
            closed_paths <= e,
            edge_pair_groups@.len() == e,
            forall|h: int| 0 <= h < e ==> (#[trigger] edge_pair_groups@[h])@ == spec_grouped[h].0,
        decreases grouped.len() - e,
    {
        if grouped[e].1 {
            closed_paths += 1;
        }
        edge_pair_groups.push(copy_indices(&grouped[e].0));
        e += 1;
    }
    let pair_count = stitch_plan.pairs.len();
    proof {
        assert(pair_count == stitch_plan.pairs@.len());
        assert(group_views(edge_pair_groups@) =~= edge_groups(stitch_plan));
        let groups = edge_groups(stitch_plan);
        let k = spec_grouped.len() as int;
        lemma_grouped_paths_bound(stitch_plan.pairs@);
        lemma_totals_match(spec_grouped, k);
        lemma_misses_bound(groups, stitch_plan.pairs@, first_by_edge@, true, k);
        lemma_misses_bound(groups, stitch_plan.pairs@, second_by_edge@, false, k);
        lemma_misses_bound(groups, stitch_plan.pairs@, first_owners@, true, k);
        lemma_misses_bound(groups, stitch_plan.pairs@, second_owners@, false, k);
    }
    let edge_paths = stitch_source_paths_from_pair_groups(
        &edge_pair_groups,
        stitch_plan,
        &first_by_edge,
        &second_by_edge,
        &first_owners,
        &second_owners,
    );
    let ghost paths_view = paths;
    let ghost edge_view = edge_paths;
    let inv = StitchResultCutSourceInventory {
        path_lengths: paths.path_lengths,
        first_path_source_faces: paths.first_path_source_faces,
        second_path_source_faces: paths.second_path_source_faces,
        first_path_source_face_runs: paths.first_path_source_face_runs,
        second_path_source_face_runs: paths.second_path_source_face_runs,
        first_path_meshlib_removed_face_owner_candidates: paths.first_path_meshlib_removed_face_owner_candidates,
        second_path_meshlib_removed_face_owner_candidates: paths.second_path_meshlib_removed_face_owner_candidates,
        first_path_meshlib_removed_face_owner_candidate_runs: paths.first_path_meshlib_removed_face_owner_candidate_runs,
        second_path_meshlib_removed_face_owner_candidate_runs: paths.second_path_meshlib_removed_face_owner_candidate_runs,
        first_source_faces: paths.first_source_faces,
        second_source_faces: paths.second_source_faces,
        first_source_face_runs: paths.first_source_face_runs,
        second_source_face_runs: paths.second_source_face_runs,
        first_meshlib_removed_face_owner_candidates: paths.first_meshlib_removed_face_owner_candidates,
        second_meshlib_removed_face_owner_candidates: paths.second_meshlib_removed_face_owner_candidates,
        first_meshlib_removed_face_owner_candidate_runs: paths.first_meshlib_removed_face_owner_candidate_runs,
        second_meshlib_removed_face_owner_candidate_runs: paths.second_meshlib_removed_face_owner_candidate_runs,
        meshlib_removed_face_owner_candidate_missing_records: paths.meshlib_removed_face_owner_candidate_missing_records,
        missing_source_records: paths.missing_source_records,
        edge_grouped_path_lengths: edge_paths.path_lengths,
        edge_grouped_closed_paths: closed_paths,
        first_edge_grouped_path_source_faces: edge_paths.first_path_source_faces,
        second_edge_grouped_path_source_faces: edge_paths.second_path_source_faces,
        first_edge_grouped_path_source_face_runs: edge_paths.first_path_source_face_runs,
        second_edge_grouped_path_source_face_runs: edge_paths.second_path_source_face_runs,
        first_edge_grouped_source_faces: edge_paths.first_source_faces,
        second_edge_grouped_source_faces: edge_paths.second_source_faces,
        first_edge_grouped_source_face_runs: edge_paths.first_source_face_runs,
        second_edge_grouped_source_face_runs: edge_paths.second_source_face_runs,
        edge_grouped_missing_source_records: edge_paths.missing_source_records,
    };
    proof {
        assert(plan_part(&inv) == paths_view);
        let groups = edge_groups(stitch_plan);
        assert(source_paths_ok(
            groups,
            stitch_plan.pairs@,
            first_by_edge@,
            second_by_edge@,
            first_owners@,
            second_owners@,
            &edge_view,
        ));
        assert forall|j: int| 0 <= j < inv.second_edge_grouped_path_source_face_runs@.len() implies decode_runs(
            (#[trigger] inv.second_edge_grouped_path_source_face_runs@[j])@,
        ) == inv.second_edge_grouped_path_source_faces@[j]@ && runs_canonical(inv.second_edge_grouped_path_source_face_runs@[j]@) by {
            let _ = edge_view.first_path_source_face_runs@[j];
        }
    }
    inv
}

} // verus!
