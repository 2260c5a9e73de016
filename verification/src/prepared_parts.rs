//! The prepared part of an operand: its prepared cut faces copied out with
//! fresh vertex numbers, how cut vertices, faces and directed edges map
//! into the part, and how its cut paths read in the part's numbering.
use vstd::prelude::*;

use crate::edge::{spec_ordered, spec_reverse};
use crate::exact_boolean::ExactBooleanOperand;
use crate::mesh::face_ok;
use crate::prepare_helpers::keep;
use crate::exact_boolean_topology::{AssemblyTopology, ExactMeshlibTopologyRewritePlan};
use crate::exact_cut::ExactCutMeshRecords;
use crate::prepare_helpers::in_ranges;
use crate::stitch_pairs::{ExactStitchEdgePair, ExactStitchPath, ExactStitchPlan};
use crate::source_details::{signed_face_edges, signed_face_has_edge};

verus! {

/// Whether prepared face `f` names a face of the cut mesh whose corners
/// all name cut vertices.
pub open spec fn copyable(cut_faces: Seq<[i64; 3]>, vertex_count: usize, f: usize) -> bool {
    f < cut_faces.len() && face_ok(cut_faces[f as int], vertex_count)
}

/// The corners of the faces `faces`, face after face, as indices.
pub open spec fn corners(cut_faces: Seq<[i64; 3]>, faces: Seq<usize>) -> Seq<usize>
    decreases faces.len(),
{
    if faces.len() == 0 {
        Seq::empty()
    } else {
        let face = cut_faces[faces.last() as int];
        corners(cut_faces, faces.drop_last()) + seq![face[0] as usize, face[1] as usize, face[2] as usize]
    }
}

/// The items of `s` at their first occurrence, in order.
pub open spec fn first_seen(s: Seq<usize>) -> Seq<usize>
    decreases s.len(),
{
    if s.len() == 0 {
        Seq::empty()
    } else if first_seen(s.drop_last()).contains(s.last()) {
        first_seen(s.drop_last())
    } else {
        first_seen(s.drop_last()).push(s.last())
    }
}

/// `vertex_sources` lists the vertices of `seen` at their first occurrence,
/// and `cut_to_part` numbers each of them by its place in that list.
pub open spec fn vertex_map_ok(vertex_sources: Seq<usize>, cut_to_part: Seq<Option<usize>>, vertex_count: usize, seen: Seq<usize>) -> bool {
    &&& cut_to_part.len() == vertex_count
    &&& vertex_sources == first_seen(seen)
    &&& forall|v: int| 0 <= v < vertex_count ==> ((#[trigger] cut_to_part[v]) is Some <==> seen.contains(v as usize))
    &&& forall|v: int|
        0 <= v < vertex_count && (#[trigger] cut_to_part[v]) is Some ==> cut_to_part[v]->0 < vertex_sources.len()
            && vertex_sources[cut_to_part[v]->0 as int] == v
    &&& forall|k: int|
        0 <= k < vertex_sources.len() ==> #[trigger] vertex_sources[k] < vertex_count && cut_to_part[vertex_sources[k] as int]
            == Some(k as usize)
}

pub(crate) proof fn lemma_first_seen_contains(s: Seq<usize>, v: usize)
    ensures
        first_seen(s).contains(v) <==> s.contains(v),
    decreases s.len(),
{
    if s.len() > 0 {
        lemma_first_seen_contains(s.drop_last(), v);
        if s.drop_last().contains(v) {
            let i = choose|i: int| 0 <= i < s.drop_last().len() && s.drop_last()[i] == v;
            assert(s[i] == v);
        }
        if s.contains(v) && v != s.last() {
            let i = choose|i: int| 0 <= i < s.len() && s[i] == v;
            assert(s.drop_last()[i] == v);
        }
        if v == s.last() {
            assert(s[s.len() - 1] == v);
        }
        if first_seen(s.drop_last()).push(s.last()).contains(v) && v != s.last() {
            let i = choose|i: int| 0 <= i < first_seen(s.drop_last()).push(s.last()).len() && first_seen(s.drop_last()).push(s.last())[i] == v;
            assert(first_seen(s.drop_last())[i] == v);
        }
        if first_seen(s.drop_last()).contains(v) {
            let i = choose|i: int| 0 <= i < first_seen(s.drop_last()).len() && first_seen(s.drop_last())[i] == v;
            assert(first_seen(s.drop_last()).push(s.last())[i] == v);
        }
        if v == s.last() && !first_seen(s.drop_last()).contains(v) {
            assert(first_seen(s.drop_last()).push(s.last())[first_seen(s.drop_last()).len() as int] == v);
        }
    }
}

/// Whether prepared face `f` can be copied, as a predicate.
pub open spec fn copyable_pred(cut_faces: Seq<[i64; 3]>, vertex_count: usize) -> spec_fn(usize) -> bool {
    |f: usize| copyable(cut_faces, vertex_count, f)
}

/// Whether prepared face `f` is skipped, as a predicate.
pub open spec fn skipped_pred(cut_faces: Seq<[i64; 3]>, vertex_count: usize) -> spec_fn(usize) -> bool {
    |f: usize| !copyable(cut_faces, vertex_count, f)
}

/// The directed edges of the faces `faces`, face after face.
pub open spec fn edge_list(cut_faces: Seq<[i64; 3]>, faces: Seq<usize>) -> Seq<[usize; 2]>
    decreases faces.len(),
{
    if faces.len() == 0 {
        Seq::empty()
    } else {
        edge_list(cut_faces, faces.drop_last()) + signed_face_edges(cut_faces[faces.last() as int])
    }
}

/// The part face of a cut face: its corners renumbered, with the last two
/// swapped when the part is flipped.
pub open spec fn part_face(cut_to_part: Seq<Option<usize>>, face: [i64; 3], flip: bool) -> [i64; 3] {
    let m0 = cut_to_part[face[0] as usize as int]->0 as i64;
    let m1 = cut_to_part[face[1] as usize as int]->0 as i64;
    let m2 = cut_to_part[face[2] as usize as int]->0 as i64;
    if flip {
        [m0, m2, m1]
    } else {
        [m0, m1, m2]
    }
}

/// Whether some entry has key `key`.
pub open spec fn has_key(entries: Seq<([usize; 2], [usize; 2])>, key: [usize; 2]) -> bool {
    exists|i: int| 0 <= i < entries.len() && (#[trigger] entries[i]).0 == key
}

/// Whether a directed edge is copied into the part: its ends differ and it
/// or its reverse is an edge of a copied face.
pub open spec fn edge_copied(edges: Seq<[usize; 2]>, key: [usize; 2]) -> bool {
    key[0] != key[1] && (edges.contains(key) || edges.contains(spec_reverse(key)))
}

/// The directed edge map: keys once each, each copied edge a key, each
/// mapped to its ends renumbered.
pub open spec fn edge_map_ok(entries: Seq<([usize; 2], [usize; 2])>, cut_to_part: Seq<Option<usize>>, edges: Seq<[usize; 2]>) -> bool {
    &&& forall|i: int, j: int| 0 <= i < j < entries.len() ==> (#[trigger] entries[i]).0 != (#[trigger] entries[j]).0
    &&& forall|i: int|
        0 <= i < entries.len() ==> {
            let k = (#[trigger] entries[i]).0;
            &&& k[0] < cut_to_part.len() && k[1] < cut_to_part.len()
            &&& cut_to_part[k[0] as int] is Some && cut_to_part[k[1] as int] is Some
            &&& entries[i].1 == [cut_to_part[k[0] as int]->0, cut_to_part[k[1] as int]->0]
        }
    &&& forall|k: [usize; 2]| has_key(entries, k) <==> edge_copied(edges, k)
}

/// The corners of the `i`-th face sit at `3 * i` onward.
pub(crate) proof fn lemma_corners_at(cut_faces: Seq<[i64; 3]>, faces: Seq<usize>)
    ensures
        corners(cut_faces, faces).len() == 3 * faces.len(),
        forall|i: int, j: int|
            0 <= i < faces.len() && 0 <= j < 3 ==> #[trigger] corners(cut_faces, faces)[3 * i + j] == (#[trigger] cut_faces[
                faces[i] as int])[j] as usize,
    decreases faces.len(),
{
    if faces.len() > 0 {
        lemma_corners_at(cut_faces, faces.drop_last());
        let prev = corners(cut_faces, faces.drop_last());
        assert forall|i: int, j: int|
            0 <= i < faces.len() && 0 <= j < 3 implies #[trigger] corners(cut_faces, faces)[3 * i + j] == (#[trigger] cut_faces[
                faces[i] as int])[j] as usize by {
            if i < faces.len() - 1 {
                assert(faces.drop_last()[i] == faces[i]);
                assert(corners(cut_faces, faces)[3 * i + j] == prev[3 * i + j]);
            }
        }
    }
}

/// The edges of the `i`-th face sit at `3 * i` onward.
proof fn lemma_edge_list_at(cut_faces: Seq<[i64; 3]>, faces: Seq<usize>)
    ensures
        edge_list(cut_faces, faces).len() == 3 * faces.len(),
        forall|i: int, d: int|
            0 <= i < faces.len() && 0 <= d < 3 ==> #[trigger] edge_list(cut_faces, faces)[3 * i + d] == signed_face_edges(
                #[trigger] cut_faces[faces[i] as int],
            )[d],
    decreases faces.len(),
{
    if faces.len() > 0 {
        lemma_edge_list_at(cut_faces, faces.drop_last());
        let prev = edge_list(cut_faces, faces.drop_last());
        assert forall|i: int, d: int|
            0 <= i < faces.len() && 0 <= d < 3 implies #[trigger] edge_list(cut_faces, faces)[3 * i + d] == signed_face_edges(
                #[trigger] cut_faces[faces[i] as int],
            )[d] by {
            if i < faces.len() - 1 {
                assert(faces.drop_last()[i] == faces[i]);
                assert(edge_list(cut_faces, faces)[3 * i + d] == prev[3 * i + d]);
            }
        }
    }
}

/// Whether the entries hold `key`, and where.
fn find_key(entries: &Vec<([usize; 2], [usize; 2])>, key: [usize; 2]) -> (out: Option<usize>)
    ensures
        out is Some <==> has_key(entries@, key),
        out matches Some(i) ==> i < entries@.len() && entries@[i as int].0 == key,
{
    let mut i: usize = 0;
    while i < entries.len()
        invariant
            i <= entries@.len(),
            forall|j: int| 0 <= j < i ==> (#[trigger] entries@[j]).0 != key,
        decreases entries.len() - i,
    {
        if entries[i].0[0] == key[0] && entries[i].0[1] == key[1] {
            proof {
                assert(entries@[i as int].0 =~= key);
            }
            return Some(i);
        }
        i += 1;
    }
    None
}

/// Adds `(key, value)` unless `key` is already there.
fn insert_absent(entries: &mut Vec<([usize; 2], [usize; 2])>, key: [usize; 2], value: [usize; 2])
    ensures
        final(entries)@ == (if has_key(old(entries)@, key) {
            old(entries)@
        } else {
            old(entries)@.push((key, value))
        }),
{
    if find_key(entries, key).is_none() {
        entries.push((key, value));
    }
}

/// Entries whose ends were numbered keep their numbers as more vertices
/// are numbered.
proof fn lemma_edge_map_frame(
    entries: Seq<([usize; 2], [usize; 2])>,
    before: Seq<Option<usize>>,
    after: Seq<Option<usize>>,
    edges: Seq<[usize; 2]>,
)
    requires
        edge_map_ok(entries, before, edges),
        after.len() == before.len(),
        forall|u: int| 0 <= u < before.len() && (#[trigger] before[u]) is Some ==> after[u] == before[u],
    ensures
        edge_map_ok(entries, after, edges),
{
    assert forall|i: int| 0 <= i < entries.len() implies {
        let k = (#[trigger] entries[i]).0;
        &&& k[0] < after.len() && k[1] < after.len()
        &&& after[k[0] as int] is Some && after[k[1] as int] is Some
        &&& entries[i].1 == [after[k[0] as int]->0, after[k[1] as int]->0]
    } by {
        let k = entries[i].0;
        assert(before[k[0] as int] is Some);
        assert(before[k[1] as int] is Some);
    }
}

/// A cut path edge that the part does not hold, with the faces around it
/// that the part copied and those it did not.
#[derive(Debug, Clone, PartialEq, Eq)]
pub struct MeshlibPreparedMissingCutEdge {
    pub path_index: usize,
    pub edge_index: usize,
    pub edge: [usize; 2],
    pub prepared_adjacent_faces: Vec<usize>,
    pub unprepared_adjacent_faces: Vec<usize>,
}

/// Whether cut face `g` has a corner-valid face with an edge on `key`,
/// copied into the part when `prepared`, not copied otherwise.
pub open spec fn adjacent_pred(
    cut_faces: Seq<[i64; 3]>,
    vertex_count: usize,
    cut_to_part_faces: Seq<Option<usize>>,
    key: [usize; 2],
    prepared: bool,
) -> spec_fn(usize) -> bool {
    |g: usize|
        g < cut_faces.len() && face_ok(cut_faces[g as int], vertex_count) && signed_face_has_edge(cut_faces[g as int], key)
            && (g < cut_to_part_faces.len() && cut_to_part_faces[g as int] is Some) == prepared
}

/// The cut faces, ascending, with an edge on `key`, copied or not.
pub open spec fn adjacent_faces(
    cut_faces: Seq<[i64; 3]>,
    vertex_count: usize,
    cut_to_part_faces: Seq<Option<usize>>,
    key: [usize; 2],
    prepared: bool,
) -> Seq<usize> {
    keep(Seq::new(cut_faces.len(), |g: int| g as usize), adjacent_pred(cut_faces, vertex_count, cut_to_part_faces, key, prepared))
}

/// The record of a cut path edge missing from the part.
pub fn missing_cut_path_edge_detail(
    cut_faces: &Vec<[i64; 3]>,
    vertex_count: usize,
    cut_to_part_faces: &Vec<Option<usize>>,
    path_index: usize,
    edge_index: usize,
    edge: [usize; 2],
) -> (out: MeshlibPreparedMissingCutEdge)
    ensures
        out.path_index == path_index,
        out.edge_index == edge_index,
        out.edge == edge,
        out.prepared_adjacent_faces@ == adjacent_faces(cut_faces@, vertex_count, cut_to_part_faces@, spec_ordered(edge), true),
        out.unprepared_adjacent_faces@ == adjacent_faces(cut_faces@, vertex_count, cut_to_part_faces@, spec_ordered(edge), false),
{
    let key = crate::edge::ordered_edge(edge);
    let ghost pp = adjacent_pred(cut_faces@, vertex_count, cut_to_part_faces@, key, true);
    let ghost pu = adjacent_pred(cut_faces@, vertex_count, cut_to_part_faces@, key, false);
    let ghost all = Seq::new(cut_faces@.len(), |g: int| g as usize);
    let mut prepared: Vec<usize> = Vec::new();
    let mut unprepared: Vec<usize> = Vec::new();
    let mut g: usize = 0;
    while g < cut_faces.len()
        invariant
            g <= cut_faces@.len(),
            key == spec_ordered(edge),
            pp == adjacent_pred(cut_faces@, vertex_count, cut_to_part_faces@, key, true),
            pu == adjacent_pred(cut_faces@, vertex_count, cut_to_part_faces@, key, false),
            all == Seq::new(cut_faces@.len(), |g: int| g as usize),
            prepared@ == keep(all.subrange(0, g as int), pp),
            unprepared@ == keep(all.subrange(0, g as int), pu),
        decreases cut_faces.len() - g,
    {
        proof {
            assert(all.subrange(0, g as int + 1).drop_last() =~= all.subrange(0, g as int));
            assert(all.subrange(0, g as int + 1).last() == g);
        }
        let face = cut_faces[g];
        if crate::exact_boolean::valid_face_vertices(face, vertex_count).is_some() && crate::source_details::face_has_edge(face, key) {
            let copied = g < cut_to_part_faces.len() && cut_to_part_faces[g].is_some();
            if copied {
                prepared.push(g);
            } else {
                unprepared.push(g);
            }
        }
        g += 1;
    }
    proof {
        assert(all.subrange(0, cut_faces@.len() as int) =~= all);
    }
    MeshlibPreparedMissingCutEdge {
        path_index,
        edge_index,
        edge,
        prepared_adjacent_faces: prepared,
        unprepared_adjacent_faces: unprepared,
    }
}

/// The part edge of cut edge `edge`: its ends renumbered, when the part
/// copied it.
pub open spec fn part_edge(cut_to_part: Seq<Option<usize>>, edges: Seq<[usize; 2]>, edge: [usize; 2]) -> Option<[usize; 2]> {
    if edge_copied(edges, edge) {
        Some([cut_to_part[edge[0] as int]->0, cut_to_part[edge[1] as int]->0])
    } else {
        None
    }
}

/// The cut path read in the part: the part edge of each of its edges that
/// the part copied, in order.
pub open spec fn remap_path(cut_to_part: Seq<Option<usize>>, edges: Seq<[usize; 2]>, path: Seq<[usize; 2]>) -> Seq<[usize; 2]>
    decreases path.len(),
{
    if path.len() == 0 {
        Seq::empty()
    } else {
        match part_edge(cut_to_part, edges, path.last()) {
            Some(m) => remap_path(cut_to_part, edges, path.drop_last()).push(m),
            None => remap_path(cut_to_part, edges, path.drop_last()),
        }
    }
}

/// Where in path `path_index` the part misses an edge, in order.
pub open spec fn path_misses(cut_to_part: Seq<Option<usize>>, edges: Seq<[usize; 2]>, path_index: usize, path: Seq<[usize; 2]>) -> Seq<(usize, usize)>
    decreases path.len(),
{
    if path.len() == 0 {
        Seq::empty()
    } else if part_edge(cut_to_part, edges, path.last()) is None {
        path_misses(cut_to_part, edges, path_index, path.drop_last()).push((path_index, (path.len() - 1) as usize))
    } else {
        path_misses(cut_to_part, edges, path_index, path.drop_last())
    }
}

/// Where in the first `n` paths the part misses an edge, path after path.
pub open spec fn all_misses(cut_to_part: Seq<Option<usize>>, edges: Seq<[usize; 2]>, paths: Seq<Vec<[usize; 2]>>, n: int) -> Seq<(usize, usize)>
    decreases n,
{
    if n <= 0 {
        Seq::empty()
    } else {
        all_misses(cut_to_part, edges, paths, n - 1) + path_misses(cut_to_part, edges, (n - 1) as usize, paths[n - 1]@)
    }
}

/// The detail record `d` is the one of the miss at `m`.
pub open spec fn detail_ok(
    d: MeshlibPreparedMissingCutEdge,
    cut_faces: Seq<[i64; 3]>,
    vertex_count: usize,
    cut_to_part_faces: Seq<Option<usize>>,
    paths: Seq<Vec<[usize; 2]>>,
    m: (usize, usize),
) -> bool {
    &&& d.path_index == m.0
    &&& d.edge_index == m.1
    &&& d.edge == paths[m.0 as int]@[m.1 as int]
    &&& d.prepared_adjacent_faces@ == adjacent_faces(cut_faces, vertex_count, cut_to_part_faces, spec_ordered(d.edge), true)
    &&& d.unprepared_adjacent_faces@ == adjacent_faces(cut_faces, vertex_count, cut_to_part_faces, spec_ordered(d.edge), false)
}

/// The cut paths read in the part, with what each misses.
struct RemappedCutEdgePaths {
    paths: Vec<Vec<[usize; 2]>>,
    missing_edges: Vec<usize>,
    missing_edge_details: Vec<MeshlibPreparedMissingCutEdge>,
    closed: Vec<bool>,
    complete: bool,
}

/// Whether path `i` closes in the part: it closed in the cut and the part
/// misses none of its edges.
pub open spec fn remapped_closed(
    cut_to_part: Seq<Option<usize>>,
    edges: Seq<[usize; 2]>,
    paths: Seq<Vec<[usize; 2]>>,
    closed: Seq<bool>,
    i: int,
) -> bool {
    (i < closed.len() && closed[i]) && path_misses(cut_to_part, edges, i as usize, paths[i]@).len() == 0
}

/// Reads each cut path in the part's numbering.
fn remapped_cut_edge_paths(
    cut: &ExactCutMeshRecords,
    vertex_count: usize,
    entries: &Vec<([usize; 2], [usize; 2])>,
    cut_to_part_vertices: &Vec<Option<usize>>,
    cut_to_part_faces: &Vec<Option<usize>>,
    Ghost(edges): Ghost<Seq<[usize; 2]>>,
) -> (out: RemappedCutEdgePaths)
    requires
        edge_map_ok(entries@, cut_to_part_vertices@, edges),
    ensures
        ({
            let paths = cut.cut_edge_paths@;
            let map = cut_to_part_vertices@;
            let misses = all_misses(map, edges, paths, paths.len() as int);
            &&& out.paths@.len() == paths.len()
            &&& forall|i: int| 0 <= i < paths.len() ==> (#[trigger] out.paths@[i])@ == remap_path(map, edges, paths[i]@)
            &&& out.missing_edges@.len() == paths.len()
            &&& forall|i: int| 0 <= i < paths.len() ==> #[trigger] out.missing_edges@[i] == path_misses(map, edges, i as usize, paths[i]@).len()
            &&& out.closed@.len() == paths.len()
            &&& forall|i: int| 0 <= i < paths.len() ==> #[trigger] out.closed@[i] == remapped_closed(map, edges, paths, cut.cut_edge_path_closed@, i)
            &&& out.complete == (misses.len() == 0)
            &&& out.missing_edge_details@.len() == misses.len()
            &&& forall|t: int|
                0 <= t < misses.len() ==> detail_ok(
                    #[trigger] out.missing_edge_details@[t],
                    cut.faces@,
                    vertex_count,
                    cut_to_part_faces@,
                    paths,
                    misses[t],
                )
        }),
{
    let ghost map = cut_to_part_vertices@;
    let paths = &cut.cut_edge_paths;
    let mut out_paths: Vec<Vec<[usize; 2]>> = Vec::new();
    let mut missing_edges: Vec<usize> = Vec::new();
    let mut details: Vec<MeshlibPreparedMissingCutEdge> = Vec::new();
    let mut closed: Vec<bool> = Vec::new();
    let mut complete = true;
    let mut p: usize = 0;
    while p < paths.len()
        invariant
            paths@ == cut.cut_edge_paths@,
            map == cut_to_part_vertices@,
            edge_map_ok(entries@, map, edges),
            p <= paths@.len(),
            out_paths@.len() == p,
            forall|i: int| 0 <= i < p ==> (#[trigger] out_paths@[i])@ == remap_path(map, edges, paths@[i]@),
            missing_edges@.len() == p,
            forall|i: int| 0 <= i < p ==> #[trigger] missing_edges@[i] == path_misses(map, edges, i as usize, paths@[i]@).len(),
            closed@.len() == p,
            forall|i: int| 0 <= i < p ==> #[trigger] closed@[i] == remapped_closed(map, edges, paths@, cut.cut_edge_path_closed@, i),
            complete == (all_misses(map, edges, paths@, p as int).len() == 0),
            details@.len() == all_misses(map, edges, paths@, p as int).len(),
            forall|t: int|
                0 <= t < details@.len() ==> detail_ok(
                    #[trigger] details@[t],
                    cut.faces@,
                    vertex_count,
                    cut_to_part_faces@,
                    paths@,
                    all_misses(map, edges, paths@, p as int)[t],
                ),
        decreases paths.len() - p,
    {
        let path = &paths[p];
        let source_closed = p < cut.cut_edge_path_closed.len() && cut.cut_edge_path_closed[p];
        let ghost prior = all_misses(map, edges, paths@, p as int);
        let ghost prior_count = details@.len();
        let mut missing: usize = 0;
        let mut mapped_path: Vec<[usize; 2]> = Vec::new();
        let mut k: usize = 0;
        while k < path.len()
            invariant
                paths@ == cut.cut_edge_paths@,
                p < paths@.len(),
                path@ == paths@[p as int]@,
                map == cut_to_part_vertices@,
                edge_map_ok(entries@, map, edges),
                k <= path@.len(),
                mapped_path@ == remap_path(map, edges, path@.take(k as int)),
                missing == path_misses(map, edges, p, path@.take(k as int)).len(),
                missing <= k,
                prior == all_misses(map, edges, paths@, p as int),
                prior_count == prior.len(),
                details@.len() == prior.len() + path_misses(map, edges, p, path@.take(k as int)).len(),
                forall|t: int|
                    0 <= t < details@.len() ==> detail_ok(
                        #[trigger] details@[t],
                        cut.faces@,
                        vertex_count,
                        cut_to_part_faces@,
                        paths@,
                        (prior + path_misses(map, edges, p, path@.take(k as int)))[t],
                    ),
            decreases path.len() - k,
        {
            let edge = path[k];
            proof {
                assert(path@.take(k as int + 1).drop_last() =~= path@.take(k as int));
                assert(path@.take(k as int + 1).last() == edge);
            }
            match find_key(entries, edge) {
                Some(i) => {
                    proof {
                        assert(edge_copied(edges, edge));
                        assert(entries@[i as int].1 == [map[edge[0] as int]->0, map[edge[1] as int]->0]);
                    }
                    mapped_path.push(entries[i].1);
                },
                None => {
                    let ghost before = details@;
                    let ghost mis = path_misses(map, edges, p, path@.take(k as int));
                    missing += 1;
                    let detail = missing_cut_path_edge_detail(&cut.faces, vertex_count, cut_to_part_faces, p, k, edge);
                    details.push(detail);
                    proof {
                        let next = path_misses(map, edges, p, path@.take(k as int + 1));
                        assert(next == mis.push((p, k)));
                        assert(prior + next =~= (prior + mis).push((p, k)));
                        assert forall|t: int| 0 <= t < details@.len() implies detail_ok(
                            #[trigger] details@[t],
                            cut.faces@,
                            vertex_count,
                            cut_to_part_faces@,
                            paths@,
                            (prior + next)[t],
                        ) by {
                            if t < before.len() {
                                assert(details@[t] == before[t]);
                            } else {
                                assert(paths@[p as int]@[k as int] == edge);
                            }
                        }
                    }
                },
            }
            k += 1;
        }
        proof {
            assert(path@.take(path@.len() as int) =~= path@);
            assert(all_misses(map, edges, paths@, p as int + 1) == prior + path_misses(map, edges, p, paths@[p as int]@));
        }
        if missing > 0 {
            complete = false;
        }
        out_paths.push(mapped_path);
        missing_edges.push(missing);
        closed.push(source_closed && missing == 0);
        p += 1;
    }
    RemappedCutEdgePaths { paths: out_paths, missing_edges, missing_edge_details: details, closed, complete }
}

/// The number of vertex `v`: its number when it has one, else the next
/// free number, recorded with `v` as its source.
pub(crate) fn number_vertex(
    sources: &mut Vec<usize>,
    numbers: &mut Vec<Option<usize>>,
    v: usize,
    Ghost(seen): Ghost<Seq<usize>>,
    Ghost(vertex_count): Ghost<usize>,
) -> (out: usize)
    requires
        v < vertex_count,
        vertex_map_ok(old(sources)@, old(numbers)@, vertex_count, seen),
    ensures
        vertex_map_ok(final(sources)@, final(numbers)@, vertex_count, seen.push(v)),
        final(numbers)@[v as int] == Some(out),
        forall|u: int| 0 <= u < vertex_count && (#[trigger] old(numbers)@[u]) is Some ==> final(numbers)@[u] == old(numbers)@[u],
{
    proof {
        lemma_first_seen_contains(seen, v);
    }
    match numbers[v] {
        Some(mapped) => {
            proof {
                assert(seen.push(v).drop_last() =~= seen);
                assert forall|u: int| 0 <= u < vertex_count implies
                    ((#[trigger] numbers@[u]) is Some <==> seen.push(v).contains(u as usize)) by {
                    if seen.contains(u as usize) {
                        let i = choose|i: int| 0 <= i < seen.len() && seen[i] == u as usize;
                        assert(seen.push(v)[i] == u as usize);
                    }
                    if seen.push(v).contains(u as usize) && u as usize != v {
                        let i = choose|i: int| 0 <= i < seen.push(v).len() && seen.push(v)[i] == u as usize;
                        assert(seen[i] == u as usize);
                    }
                }
            }
            mapped
        },
        None => {
            let mapped = sources.len();
            let ghost old_sources = sources@;
            let ghost old_map = numbers@;
            sources.push(v);
            numbers.set(v, Some(mapped));
            proof {
                assert(seen.push(v).drop_last() =~= seen);
                assert(seen.push(v).last() == v);
                assert forall|u: int| 0 <= u < vertex_count implies
                    ((#[trigger] numbers@[u]) is Some <==> seen.push(v).contains(u as usize)) by {
                    if seen.contains(u as usize) {
                        let i = choose|i: int| 0 <= i < seen.len() && seen[i] == u as usize;
                        assert(seen.push(v)[i] == u as usize);
                    }
                    if seen.push(v).contains(u as usize) && u as usize != v {
                        let i = choose|i: int| 0 <= i < seen.push(v).len() && seen.push(v)[i] == u as usize;
                        assert(seen[i] == u as usize);
                    }
                    if u as usize == v {
                        assert(seen.push(v)[seen.len() as int] == v);
                    }
                }
                assert forall|k: int| 0 <= k < sources@.len() implies #[trigger] sources@[k] < vertex_count
                    && numbers@[sources@[k] as int] == Some(k as usize) by {
                    if k < old_sources.len() {
                        assert(old_map[old_sources[k] as int] == Some(k as usize));
                    }
                }
            }
            mapped
        },
    }
}

/// The items at their first occurrence are distinct.
pub(crate) proof fn lemma_first_seen_distinct(s: Seq<usize>)
    ensures
        first_seen(s).no_duplicates(),
    decreases s.len(),
{
    if s.len() > 0 {
        lemma_first_seen_distinct(s.drop_last());
        let before = first_seen(s.drop_last());
        if !before.contains(s.last()) {
            assert forall|a: int, b: int| 0 <= a < b < before.push(s.last()).len() implies before.push(s.last())[a] != before.push(
                s.last(),
            )[b] by {
                if b == before.len() {
                    assert(before.push(s.last())[a] == before[a]);
                }
            }
        }
    }
}

/// Gathers the prepared faces into a part, face by face.
struct MeshlibPreparedPartBuilder {
    vertex_count: usize,
    vertex_sources: Vec<usize>,
    faces: Vec<[i64; 3]>,
    cut_to_part_vertices: Vec<Option<usize>>,
    cut_to_part_faces: Vec<Option<usize>>,
    cut_to_part_directed_edges: Vec<([usize; 2], [usize; 2])>,
    skipped_faces: Vec<usize>,
}

/// The builder holds the part of the prepared faces `done`.
spec fn built(b: MeshlibPreparedPartBuilder, cut_faces: Seq<[i64; 3]>, flip: bool, done: Seq<usize>) -> bool {
    let acc = keep(done, copyable_pred(cut_faces, b.vertex_count));
    &&& vertex_map_ok(b.vertex_sources@, b.cut_to_part_vertices@, b.vertex_count, corners(cut_faces, acc))
    &&& b.faces@.len() == acc.len()
    &&& forall|i: int| 0 <= i < acc.len() ==> #[trigger] b.faces@[i] == part_face(b.cut_to_part_vertices@, cut_faces[acc[i] as int], flip)
    &&& b.cut_to_part_faces@.len() == cut_faces.len()
    &&& forall|f: int| 0 <= f < cut_faces.len() ==> ((#[trigger] b.cut_to_part_faces@[f]) is Some <==> acc.contains(f as usize))
    &&& forall|f: int|
        0 <= f < cut_faces.len() && (#[trigger] b.cut_to_part_faces@[f]) is Some ==> {
            let i = b.cut_to_part_faces@[f]->0 as int;
            &&& i < acc.len()
            &&& acc[i] == f
            &&& forall|j: int| i < j < acc.len() ==> acc[j] != f
        }
    &&& b.skipped_faces@ == keep(done, skipped_pred(cut_faces, b.vertex_count))
    &&& edge_map_ok(b.cut_to_part_directed_edges@, b.cut_to_part_vertices@, edge_list(cut_faces, acc))
}

impl MeshlibPreparedPartBuilder {
    /// The part vertex of cut vertex `v`, a fresh one at its first use.
    fn mapped_vertex(&mut self, v: usize, Ghost(seen): Ghost<Seq<usize>>) -> (out: usize)
        requires
            v < old(self).vertex_count,
            vertex_map_ok(old(self).vertex_sources@, old(self).cut_to_part_vertices@, old(self).vertex_count, seen),
        ensures
            vertex_map_ok(final(self).vertex_sources@, final(self).cut_to_part_vertices@, final(self).vertex_count, seen.push(v)),
            final(self).cut_to_part_vertices@[v as int] == Some(out),
            forall|u: int|
                0 <= u < old(self).vertex_count && (#[trigger] old(self).cut_to_part_vertices@[u]) is Some
                    ==> final(self).cut_to_part_vertices@[u] == old(self).cut_to_part_vertices@[u],
            final(self).vertex_count == old(self).vertex_count,
            final(self).faces@ == old(self).faces@,
            final(self).cut_to_part_faces@ == old(self).cut_to_part_faces@,
            final(self).cut_to_part_directed_edges@ == old(self).cut_to_part_directed_edges@,
            final(self).skipped_faces@ == old(self).skipped_faces@,
    {
        number_vertex(&mut self.vertex_sources, &mut self.cut_to_part_vertices, v, Ghost(seen), Ghost(self.vertex_count))
    }

    /// The directed edge renumbered, when both ends are part vertices and
    /// they differ.
    fn mapped_directed_edge_by_vertex_map(&self, edge: [usize; 2]) -> (out: Option<[usize; 2]>)
        ensures
            out == (if edge[0] < self.cut_to_part_vertices@.len() && edge[1] < self.cut_to_part_vertices@.len()
                && self.cut_to_part_vertices@[edge[0] as int] is Some && self.cut_to_part_vertices@[edge[1] as int] is Some
                && self.cut_to_part_vertices@[edge[0] as int]->0 != self.cut_to_part_vertices@[edge[1] as int]->0 {
                Some([self.cut_to_part_vertices@[edge[0] as int]->0, self.cut_to_part_vertices@[edge[1] as int]->0])
            } else {
                None
            }),
    {
        if edge[0] >= self.cut_to_part_vertices.len() || edge[1] >= self.cut_to_part_vertices.len() {
            return None;
        }
        match (self.cut_to_part_vertices[edge[0]], self.cut_to_part_vertices[edge[1]]) {
            (Some(a), Some(b)) => {
                if a != b {
                    Some([a, b])
                } else {
                    None
                }
            },
            _ => None,
        }
    }

    /// Records `edge` and its reverse in the directed edge map, each once.
    fn copy_directed_edge(&mut self, edge: [usize; 2], Ghost(edges): Ghost<Seq<[usize; 2]>>, Ghost(seen): Ghost<Seq<usize>>)
        requires
            vertex_map_ok(old(self).vertex_sources@, old(self).cut_to_part_vertices@, old(self).vertex_count, seen),
            edge[0] < old(self).vertex_count && edge[1] < old(self).vertex_count,
            old(self).cut_to_part_vertices@[edge[0] as int] is Some,
            old(self).cut_to_part_vertices@[edge[1] as int] is Some,
            edge_map_ok(old(self).cut_to_part_directed_edges@, old(self).cut_to_part_vertices@, edges),
        ensures
            edge_map_ok(final(self).cut_to_part_directed_edges@, final(self).cut_to_part_vertices@, edges.push(edge)),
            final(self).vertex_count == old(self).vertex_count,
            final(self).vertex_sources@ == old(self).vertex_sources@,
            final(self).cut_to_part_vertices@ == old(self).cut_to_part_vertices@,
            final(self).faces@ == old(self).faces@,
            final(self).cut_to_part_faces@ == old(self).cut_to_part_faces@,
            final(self).skipped_faces@ == old(self).skipped_faces@,
    {
        let ghost map = self.cut_to_part_vertices@;
        let ghost before = self.cut_to_part_directed_edges@;
        let mapped = self.mapped_directed_edge_by_vertex_map(edge);
        proof {
            assert(map[self.vertex_sources@[map[edge[0] as int]->0 as int] as int] == map[edge[0] as int]);
            assert(map[self.vertex_sources@[map[edge[1] as int]->0 as int] as int] == map[edge[1] as int]);
        }
        match mapped {
            None => {
                proof {
                    assert(edge[0] == edge[1]);
                    assert forall|k: [usize; 2]| has_key(before, k) <==> edge_copied(edges.push(edge), k) by {
                        if edges.push(edge).contains(k) && k != edge {
                            let i = choose|i: int| 0 <= i < edges.push(edge).len() && edges.push(edge)[i] == k;
                            assert(edges[i] == k);
                        }
                        if edges.contains(k) {
                            let i = choose|i: int| 0 <= i < edges.len() && edges[i] == k;
                            assert(edges.push(edge)[i] == k);
                        }
                        if edges.push(edge).contains(spec_reverse(k)) && spec_reverse(k) != edge {
                            let i = choose|i: int| 0 <= i < edges.push(edge).len() && edges.push(edge)[i] == spec_reverse(k);
                            assert(edges[i] == spec_reverse(k));
                        }
                        if edges.contains(spec_reverse(k)) {
                            let i = choose|i: int| 0 <= i < edges.len() && edges[i] == spec_reverse(k);
                            assert(edges.push(edge)[i] == spec_reverse(k));
                        }
                    }
                }
            },
            Some(m) => {
                let reverse = crate::edge::reverse_edge(edge);
                insert_absent(&mut self.cut_to_part_directed_edges, edge, m);
                let ghost middle = self.cut_to_part_directed_edges@;
                insert_absent(&mut self.cut_to_part_directed_edges, reverse, crate::edge::reverse_edge(m));
                proof {
                    let after = self.cut_to_part_directed_edges@;
                    assert forall|k: [usize; 2]| has_key(after, k) <==> has_key(before, k) || k == edge || k == reverse by {
                        if has_key(before, k) {
                            let i = choose|i: int| 0 <= i < before.len() && (#[trigger] before[i]).0 == k;
                            assert(middle[i] == before[i]);
                            assert(after[i] == middle[i]);
                        }
                        if has_key(middle, k) {
                            let i = choose|i: int| 0 <= i < middle.len() && (#[trigger] middle[i]).0 == k;
                            assert(after[i] == middle[i]);
                        }
                        if k == edge && !has_key(before, k) {
                            assert(middle[before.len() as int].0 == k);
                        }
                        if k == reverse && !has_key(middle, k) {
                            assert(after[middle.len() as int].0 == k);
                        }
                        if has_key(after, k) {
                            let i = choose|i: int| 0 <= i < after.len() && (#[trigger] after[i]).0 == k;
                            if i < middle.len() {
                                assert(middle[i] == after[i]);
                                if i < before.len() {
                                    assert(before[i] == middle[i]);
                                }
                            }
                        }
                    }
                    assert forall|k: [usize; 2]| has_key(after, k) <==> edge_copied(edges.push(edge), k) by {
                        if edges.push(edge).contains(k) && k != edge {
                            let i = choose|i: int| 0 <= i < edges.push(edge).len() && edges.push(edge)[i] == k;
                            assert(edges[i] == k);
                        }
                        if edges.contains(k) {
                            let i = choose|i: int| 0 <= i < edges.len() && edges[i] == k;
                            assert(edges.push(edge)[i] == k);
                        }
                        if edges.push(edge).contains(spec_reverse(k)) && spec_reverse(k) != edge {
                            let i = choose|i: int| 0 <= i < edges.push(edge).len() && edges.push(edge)[i] == spec_reverse(k);
                            assert(edges[i] == spec_reverse(k));
                        }
                        if edges.contains(spec_reverse(k)) {
                            let i = choose|i: int| 0 <= i < edges.len() && edges[i] == spec_reverse(k);
                            assert(edges.push(edge)[i] == spec_reverse(k));
                        }
                        if k == edge {
                            assert(edges.push(edge)[edges.len() as int] == k);
                        }
                        if k == reverse {
                            assert(spec_reverse(k) =~= edge);
                            assert(edges.push(edge)[edges.len() as int] == spec_reverse(k));
                        }
                        if spec_reverse(k) == edge {
                            assert(k =~= reverse);
                        }
                    }
                    assert forall|i: int, j: int| 0 <= i < j < after.len() implies (#[trigger] after[i]).0 != (#[trigger] after[j]).0 by {
                        if j < middle.len() {
                            assert(after[i] == middle[i] && after[j] == middle[j]);
                            if j < before.len() {
                                assert(middle[i] == before[i] && middle[j] == before[j]);
                            } else {
                                assert(middle[i] == before[i]);
                                assert(has_key(before, before[i].0));
                            }
                        } else {
                            assert(after[i] == middle[i]);
                            assert(has_key(middle, middle[i].0));
                        }
                    }
                    assert forall|i: int| 0 <= i < after.len() implies {
                        let k = (#[trigger] after[i]).0;
                        &&& k[0] < map.len() && k[1] < map.len()
                        &&& map[k[0] as int] is Some && map[k[1] as int] is Some
                        &&& after[i].1 == [map[k[0] as int]->0, map[k[1] as int]->0]
                    } by {
                        if i < middle.len() {
                            assert(after[i] == middle[i]);
                            if i < before.len() {
                                assert(middle[i] == before[i]);
                            }
                        }
                    }
                }
            },
        }
    }

    /// Copies prepared face `cut_face` into the part, or records it as
    /// skipped when it names no face or a corner names no cut vertex.
    fn copy_face(&mut self, cut_faces: &Vec<[i64; 3]>, cut_face: usize, flip: bool, Ghost(done): Ghost<Seq<usize>>)
        requires
            built(*old(self), cut_faces@, flip, done),
        ensures
            built(*final(self), cut_faces@, flip, done.push(cut_face)),
            final(self).vertex_count == old(self).vertex_count,
    {
        let ghost vc = self.vertex_count;
        let ghost pc = copyable_pred(cut_faces@, vc);
        let ghost ps = skipped_pred(cut_faces@, vc);
        let ghost acc = keep(done, pc);
        proof {
            assert(done.push(cut_face).drop_last() =~= done);
            assert(done.push(cut_face).last() == cut_face);
        }
        if cut_face >= cut_faces.len() {
            self.skipped_faces.push(cut_face);
            return;
        }
        let face = cut_faces[cut_face];
        let source = match crate::exact_boolean::valid_face_vertices(face, self.vertex_count) {
            Some(v) => v,
            None => {
                self.skipped_faces.push(cut_face);
                return;
            },
        };
        let ghost acc2 = acc.push(cut_face);
        let ghost cs = corners(cut_faces@, acc);
        let ghost map0 = self.cut_to_part_vertices@;
        let ghost old_faces = self.faces@;
        let ghost old_cut_faces = self.cut_to_part_faces@;
        let ghost entries0 = self.cut_to_part_directed_edges@;
        proof {
            assert(pc(cut_face));
            assert(keep(done.push(cut_face), pc) == acc2);
            assert(keep(done.push(cut_face), ps) == keep(done, ps));
            assert(acc2.drop_last() =~= acc);
            assert(acc2.last() == cut_face);
        }
        let m0 = self.mapped_vertex(source[0], Ghost(cs));
        let m1 = self.mapped_vertex(source[1], Ghost(cs.push(source[0])));
        let m2 = self.mapped_vertex(source[2], Ghost(cs.push(source[0]).push(source[1])));
        let ghost cs3 = cs.push(source[0]).push(source[1]).push(source[2]);
        let ghost map3 = self.cut_to_part_vertices@;
        proof {
            assert(corners(cut_faces@, acc2) =~= cs3);
            lemma_corners_at(cut_faces@, acc);
            crate::prepare_helpers::lemma_keep_satisfies(done, pc);
            lemma_edge_map_frame(entries0, map0, map3, edge_list(cut_faces@, acc));
        }
        let part = self.faces.len();
        self.cut_to_part_faces.set(cut_face, Some(part));
        if flip {
            self.faces.push([m0 as i64, m2 as i64, m1 as i64]);
        } else {
            self.faces.push([m0 as i64, m1 as i64, m2 as i64]);
        }
        let ghost base = edge_list(cut_faces@, acc);
        let ghost fe = signed_face_edges(face);
        proof {
            assert(fe[0] == [source[0], source[1]]);
            assert(fe[1] == [source[1], source[2]]);
            assert(fe[2] == [source[2], source[0]]);
            assert(base + fe.take(0) =~= base);
        }
        self.copy_directed_edge([source[0], source[1]], Ghost(base), Ghost(cs3));
        proof {
            assert(base.push(fe[0]) =~= base + fe.take(1));
        }
        self.copy_directed_edge([source[1], source[2]], Ghost(base + fe.take(1)), Ghost(cs3));
        proof {
            assert((base + fe.take(1)).push(fe[1]) =~= base + fe.take(2));
        }
        self.copy_directed_edge([source[2], source[0]], Ghost(base + fe.take(2)), Ghost(cs3));
        proof {
            assert((base + fe.take(2)).push(fe[2]) =~= edge_list(cut_faces@, acc2));
            assert forall|i: int| 0 <= i < acc2.len() implies #[trigger] self.faces@[i] == part_face(
                self.cut_to_part_vertices@,
                cut_faces@[acc2[i] as int],
                flip,
            ) by {
                if i < acc.len() {
                    assert(pc(acc[i]));
                    let g = cut_faces@[acc[i] as int];
                    assert(cs[3 * i + 0] == g[0] as usize);
                    assert(cs[3 * i + 1] == g[1] as usize);
                    assert(cs[3 * i + 2] == g[2] as usize);
                    assert(cs.contains(g[0] as usize));
                    assert(cs.contains(g[1] as usize));
                    assert(cs.contains(g[2] as usize));
                    assert(acc2[i] == acc[i]);
                    assert(old_faces[i] == part_face(map0, g, flip));
                }
            }
            assert forall|f: int| 0 <= f < cut_faces@.len() implies ((#[trigger] self.cut_to_part_faces@[f]) is Some <==> acc2.contains(
                f as usize,
            )) by {
                if acc.contains(f as usize) {
                    let j = choose|j: int| 0 <= j < acc.len() && acc[j] == f as usize;
                    assert(acc2[j] == f as usize);
                }
                if acc2.contains(f as usize) && f != cut_face {
                    let j = choose|j: int| 0 <= j < acc2.len() && acc2[j] == f as usize;
                    assert(acc[j] == f as usize);
                }
                if f == cut_face {
                    assert(acc2[acc.len() as int] == f as usize);
                }
            }
            assert forall|f: int| 0 <= f < cut_faces@.len() && (#[trigger] self.cut_to_part_faces@[f]) is Some implies {
                let i = self.cut_to_part_faces@[f]->0 as int;
                &&& i < acc2.len()
                &&& acc2[i] == f
                &&& forall|j: int| i < j < acc2.len() ==> acc2[j] != f
            } by {
                if f != cut_face {
                    assert(old_cut_faces[f] is Some);
                }
            }
        }
    }
}


/// One operand's prepared part: its prepared cut faces copied out with
/// fresh vertex numbers (`vertex_sources` names the cut vertex behind each
/// part vertex), how cut vertices, faces and directed edges map into it,
/// and its cut paths read in its numbering with what they miss.
#[derive(Debug, Clone, PartialEq, Eq)]
pub struct MeshlibPreparedPart {
    pub operand: ExactBooleanOperand,
    pub vertex_sources: Vec<usize>,
    pub faces: Vec<[i64; 3]>,
    pub cut_to_part_vertices: Vec<Option<usize>>,
    pub cut_to_part_faces: Vec<Option<usize>>,
    pub cut_to_part_directed_edges: Vec<([usize; 2], [usize; 2])>,
    pub remapped_cut_edge_paths: Vec<Vec<[usize; 2]>>,
    pub remapped_cut_edge_path_missing_edges: Vec<usize>,
    pub missing_cut_path_edge_details: Vec<MeshlibPreparedMissingCutEdge>,
    pub remapped_cut_edge_path_closed: Vec<bool>,
    pub remapped_cut_edge_paths_complete: bool,
    pub skipped_faces: Vec<usize>,
}

/// The total length of the first `n` paths.
pub open spec fn paths_total(paths: Seq<Vec<[usize; 2]>>, n: int) -> int
    decreases n,
{
    if n <= 0 {
        0
    } else {
        paths_total(paths, n - 1) + paths[n - 1]@.len()
    }
}

/// The sum of the first `n` counts.
pub open spec fn counts_total(counts: Seq<usize>, n: int) -> int
    decreases n,
{
    if n <= 0 {
        0
    } else {
        counts_total(counts, n - 1) + counts[n - 1]
    }
}

impl MeshlibPreparedPart {
    /// How many cut path edges the part holds, over all its paths.
    pub fn remapped_cut_edge_path_edges(&self) -> (out: usize)
        requires
            paths_total(self.remapped_cut_edge_paths@, self.remapped_cut_edge_paths@.len() as int) <= usize::MAX,
        ensures
            out == paths_total(self.remapped_cut_edge_paths@, self.remapped_cut_edge_paths@.len() as int),
    {
        let paths = &self.remapped_cut_edge_paths;
        let mut total: usize = 0;
        let mut i: usize = 0;
        while i < paths.len()
            invariant
                i <= paths@.len(),
                total == paths_total(paths@, i as int),
                paths_total(paths@, paths@.len() as int) <= usize::MAX,
            decreases paths.len() - i,
        {
            proof {
                lemma_paths_total_monotone(paths@, i as int + 1, paths@.len() as int);
            }
            total = total + paths[i].len();
            i += 1;
        }
        total
    }

    /// How many cut path edges the part misses, over all its paths.
    pub fn remapped_cut_edge_path_missing_edges(&self) -> (out: usize)
        requires
            counts_total(self.remapped_cut_edge_path_missing_edges@, self.remapped_cut_edge_path_missing_edges@.len() as int)
                <= usize::MAX,
        ensures
            out == counts_total(self.remapped_cut_edge_path_missing_edges@, self.remapped_cut_edge_path_missing_edges@.len() as int),
    {
        let counts = &self.remapped_cut_edge_path_missing_edges;
        let mut total: usize = 0;
        let mut i: usize = 0;
        while i < counts.len()
            invariant
                i <= counts@.len(),
                total == counts_total(counts@, i as int),
                counts_total(counts@, counts@.len() as int) <= usize::MAX,
            decreases counts.len() - i,
        {
            proof {
                lemma_counts_total_monotone(counts@, i as int + 1, counts@.len() as int);
            }
            total = total + counts[i];
            i += 1;
        }
        total
    }
}

proof fn lemma_paths_total_monotone(paths: Seq<Vec<[usize; 2]>>, a: int, b: int)
    requires
        0 <= a <= b,
    ensures
        paths_total(paths, a) <= paths_total(paths, b),
    decreases b - a,
{
    if a < b {
        lemma_paths_total_monotone(paths, a, b - 1);
    }
}

proof fn lemma_counts_total_monotone(counts: Seq<usize>, a: int, b: int)
    requires
        0 <= a <= b,
    ensures
        counts_total(counts, a) <= counts_total(counts, b),
    decreases b - a,
{
    if a < b {
        lemma_counts_total_monotone(counts, a, b - 1);
    }
}


/// `part` is the prepared part of `operand` copied from the faces
/// `prepared` of `cut`, whose corners name `vertex_count` vertices,
/// flipped when `flip`.
pub open spec fn part_ok(
    part: MeshlibPreparedPart,
    cut: ExactCutMeshRecords,
    vertex_count: usize,
    prepared: Seq<usize>,
    operand: ExactBooleanOperand,
    flip: bool,
) -> bool {
    let cut_faces = cut.faces@;
    let acc = keep(prepared, copyable_pred(cut_faces, vertex_count));
    let edges = edge_list(cut_faces, acc);
    let map = part.cut_to_part_vertices@;
    let paths = cut.cut_edge_paths@;
    let misses = all_misses(map, edges, paths, paths.len() as int);
    &&& part.operand == operand
    &&& vertex_map_ok(part.vertex_sources@, map, vertex_count, corners(cut_faces, acc))
    &&& part.faces@.len() == acc.len()
    &&& forall|i: int| 0 <= i < acc.len() ==> #[trigger] part.faces@[i] == part_face(map, cut_faces[acc[i] as int], flip)
    &&& part.cut_to_part_faces@.len() == cut_faces.len()
    &&& forall|f: int| 0 <= f < cut_faces.len() ==> ((#[trigger] part.cut_to_part_faces@[f]) is Some <==> acc.contains(f as usize))
    &&& forall|f: int|
        0 <= f < cut_faces.len() && (#[trigger] part.cut_to_part_faces@[f]) is Some ==> {
            let i = part.cut_to_part_faces@[f]->0 as int;
            &&& i < acc.len()
            &&& acc[i] == f
            &&& forall|j: int| i < j < acc.len() ==> acc[j] != f
        }
    &&& edge_map_ok(part.cut_to_part_directed_edges@, map, edges)
    &&& part.skipped_faces@ == keep(prepared, skipped_pred(cut_faces, vertex_count))
    &&& part.remapped_cut_edge_paths@.len() == paths.len()
    &&& forall|i: int| 0 <= i < paths.len() ==> (#[trigger] part.remapped_cut_edge_paths@[i])@ == remap_path(map, edges, paths[i]@)
    &&& part.remapped_cut_edge_path_missing_edges@.len() == paths.len()
    &&& forall|i: int|
        0 <= i < paths.len() ==> #[trigger] part.remapped_cut_edge_path_missing_edges@[i] == path_misses(map, edges, i as usize, paths[i]@).len()
    &&& part.remapped_cut_edge_path_closed@.len() == paths.len()
    &&& forall|i: int|
        0 <= i < paths.len() ==> #[trigger] part.remapped_cut_edge_path_closed@[i] == remapped_closed(map, edges, paths, cut.cut_edge_path_closed@, i)
    &&& part.remapped_cut_edge_paths_complete == (misses.len() == 0)
    &&& part.missing_cut_path_edge_details@.len() == misses.len()
    &&& forall|t: int|
        0 <= t < misses.len() ==> detail_ok(
            #[trigger] part.missing_cut_path_edge_details@[t],
            cut_faces,
            vertex_count,
            part.cut_to_part_faces@,
            paths,
            misses[t],
        )
}

/// `n` empty slots.
pub(crate) fn nones(n: usize) -> (out: Vec<Option<usize>>)
    ensures
        out@.len() == n,
        forall|i: int| 0 <= i < n ==> (#[trigger] out@[i]) is None,
{
    let mut out: Vec<Option<usize>> = Vec::new();
    let mut i: usize = 0;
    while i < n
        invariant
            i <= n,
            out@.len() == i,
            forall|j: int| 0 <= j < i ==> (#[trigger] out@[j]) is None,
        decreases n - i,
    {
        out.push(None);
        i += 1;
    }
    out
}

/// Copies the prepared faces of `operand`'s cut, in order, into its
/// prepared part: each face that names a cut face whose corners name cut
/// vertices gets the next part face, its corners the part vertex given at
/// their first use (the last two swapped when `flip_orientation`), and its
/// directed edges with their reverses join the part's edge map; the other
/// faces are skipped. The cut paths are then read in the part.
pub fn meshlib_prepare_part(
    cut: &ExactCutMeshRecords,
    vertex_count: usize,
    prepared_faces: &Vec<usize>,
    operand: ExactBooleanOperand,
    flip_orientation: bool,
) -> (part: MeshlibPreparedPart)
    ensures
        part_ok(part, *cut, vertex_count, prepared_faces@, operand, flip_orientation),
{
    let mut builder = MeshlibPreparedPartBuilder {
        vertex_count,
        vertex_sources: Vec::new(),
        faces: Vec::new(),
        cut_to_part_vertices: nones(vertex_count),
        cut_to_part_faces: nones(cut.faces.len()),
        cut_to_part_directed_edges: Vec::new(),
        skipped_faces: Vec::new(),
    };
    proof {
        assert(prepared_faces@.take(0) =~= Seq::<usize>::empty());
        assert(first_seen(Seq::<usize>::empty()) =~= Seq::<usize>::empty());
        assert forall|k: [usize; 2]| has_key(builder.cut_to_part_directed_edges@, k) <==> edge_copied(Seq::empty(), k) by {}
    }
    let mut i: usize = 0;
    while i < prepared_faces.len()
        invariant
            i <= prepared_faces@.len(),
            builder.vertex_count == vertex_count,
            built(builder, cut.faces@, flip_orientation, prepared_faces@.take(i as int)),
        decreases prepared_faces.len() - i,
    {
        proof {
            assert(prepared_faces@.take(i as int).push(prepared_faces@[i as int]) =~= prepared_faces@.take(i as int + 1));
        }
        builder.copy_face(&cut.faces, prepared_faces[i], flip_orientation, Ghost(prepared_faces@.take(i as int)));
        i += 1;
    }
    proof {
        assert(prepared_faces@.take(prepared_faces@.len() as int) =~= prepared_faces@);
    }
    let ghost acc = keep(prepared_faces@, copyable_pred(cut.faces@, vertex_count));
    let remapped = remapped_cut_edge_paths(
        cut,
        vertex_count,
        &builder.cut_to_part_directed_edges,
        &builder.cut_to_part_vertices,
        &builder.cut_to_part_faces,
        Ghost(edge_list(cut.faces@, acc)),
    );
    MeshlibPreparedPart {
        operand,
        vertex_sources: builder.vertex_sources,
        faces: builder.faces,
        cut_to_part_vertices: builder.cut_to_part_vertices,
        cut_to_part_faces: builder.cut_to_part_faces,
        cut_to_part_directed_edges: builder.cut_to_part_directed_edges,
        remapped_cut_edge_paths: remapped.paths,
        remapped_cut_edge_path_missing_edges: remapped.missing_edges,
        missing_cut_path_edge_details: remapped.missing_edge_details,
        remapped_cut_edge_path_closed: remapped.closed,
        remapped_cut_edge_paths_complete: remapped.complete,
        skipped_faces: builder.skipped_faces,
    }
}

/// The value of the first entry with key `key`.
pub open spec fn entry_value(entries: Seq<([usize; 2], [usize; 2])>, key: [usize; 2]) -> Option<[usize; 2]>
    decreases entries.len(),
{
    if entries.len() == 0 {
        None
    } else if entries[0].0 == key {
        Some(entries[0].1)
    } else {
        entry_value(entries.drop_first(), key)
    }
}

proof fn lemma_entry_value_found(entries: Seq<([usize; 2], [usize; 2])>, key: [usize; 2])
    ensures
        entry_value(entries, key) is Some <==> has_key(entries, key),
        entry_value(entries, key) matches Some(v) ==> exists|i: int| 0 <= i < entries.len() && #[trigger] entries[i] == (key, v),
    decreases entries.len(),
{
    if entries.len() > 0 {
        lemma_entry_value_found(entries.drop_first(), key);
        if entries[0].0 != key {
            if has_key(entries, key) {
                let i = choose|i: int| 0 <= i < entries.len() && (#[trigger] entries[i]).0 == key;
                assert(entries.drop_first()[i - 1].0 == key);
            }
            if has_key(entries.drop_first(), key) {
                let i = choose|i: int| 0 <= i < entries.drop_first().len() && (#[trigger] entries.drop_first()[i]).0 == key;
                assert(entries[i + 1].0 == key);
            }
            if let Some(v) = entry_value(entries, key) {
                let i = choose|i: int| 0 <= i < entries.drop_first().len() && #[trigger] entries.drop_first()[i] == (key, v);
                assert(entries[i + 1] == (key, v));
            }
        } else {
            assert(entries[0] == (key, entries[0].1));
        }
    }
}

/// Reading a part's edge map gives the part edge of each cut edge.
pub proof fn lemma_part_edge_lookup(
    entries: Seq<([usize; 2], [usize; 2])>,
    cut_to_part: Seq<Option<usize>>,
    edges: Seq<[usize; 2]>,
    key: [usize; 2],
)
    requires
        edge_map_ok(entries, cut_to_part, edges),
    ensures
        entry_value(entries, key) == part_edge(cut_to_part, edges, key),
{
    lemma_entry_value_found(entries, key);
}

/// The part edge that the edge map gives `key`, if any.
pub fn mapped_cut_edge(entries: &Vec<([usize; 2], [usize; 2])>, key: [usize; 2]) -> (out: Option<[usize; 2]>)
    ensures
        out == entry_value(entries@, key),
{
    proof {
        assert(entries@.skip(0) =~= entries@);
    }
    let mut i: usize = 0;
    while i < entries.len()
        invariant
            i <= entries@.len(),
            entry_value(entries@, key) == entry_value(entries@.skip(i as int), key),
        decreases entries.len() - i,
    {
        proof {
            assert(entries@.skip(i as int).drop_first() =~= entries@.skip(i as int + 1));
            assert(entries@.skip(i as int)[0] == entries@[i as int]);
        }
        if entries[i].0[0] == key[0] && entries[i].0[1] == key[1] {
            proof {
                assert(entries@[i as int].0 =~= key);
            }
            return Some(entries[i].1);
        }
        i += 1;
    }
    None
}

/// The pair indices of the first `n` stitch paths, path after path.
pub open spec fn plan_pair_indices(paths: Seq<ExactStitchPath>, n: int) -> Seq<usize>
    decreases n,
{
    if n <= 0 {
        Seq::empty()
    } else {
        plan_pair_indices(paths, n - 1) + paths[n - 1].pair_indices@
    }
}

/// The stitch pair's edge on `operand`'s side.
pub open spec fn side_edge(pair: ExactStitchEdgePair, operand: ExactBooleanOperand) -> [usize; 2] {
    match operand {
        ExactBooleanOperand::First => pair.first_edge,
        ExactBooleanOperand::Second => pair.second_edge,
    }
}

/// The index of the stitch pair's edge on `operand`'s side.
pub open spec fn side_edge_index(pair: ExactStitchEdgePair, operand: ExactBooleanOperand) -> usize {
    match operand {
        ExactBooleanOperand::First => pair.first_edge_index,
        ExactBooleanOperand::Second => pair.second_edge_index,
    }
}

/// The contour maps of the pair indices `indices`: for each index that
/// names a pair whose base edge the base part maps and whose incoming edge
/// the incoming part holds, the incoming edge with the base part edge, and
/// the incoming edge's index.
pub open spec fn connect_maps(
    pairs: Seq<ExactStitchEdgePair>,
    base_operand: ExactBooleanOperand,
    incoming_operand: ExactBooleanOperand,
    base: Seq<([usize; 2], [usize; 2])>,
    incoming: Seq<([usize; 2], [usize; 2])>,
    indices: Seq<usize>,
) -> (Seq<([usize; 2], [usize; 2])>, Seq<Option<usize>>)
    decreases indices.len(),
{
    if indices.len() == 0 {
        (Seq::empty(), Seq::empty())
    } else {
        let (maps, sources) = connect_maps(pairs, base_operand, incoming_operand, base, incoming, indices.drop_last());
        let index = indices.last();
        if index < pairs.len() {
            let pair = pairs[index as int];
            let base_edge = side_edge(pair, base_operand);
            let incoming_edge = side_edge(pair, incoming_operand);
            match entry_value(base, base_edge) {
                Some(output) => if entry_value(incoming, incoming_edge) is Some {
                    (maps.push((incoming_edge, output)), sources.push(Some(side_edge_index(pair, incoming_operand))))
                } else {
                    (maps, sources)
                },
                None => (maps, sources),
            }
        } else {
            (maps, sources)
        }
    }
}

/// The contour vertex maps of two prepared parts along the stitch paths:
/// for each stitch pair in path order whose base edge the base part maps
/// and whose incoming edge the incoming part holds, the incoming edge with
/// the base part edge, and the incoming edge's index.
pub fn prepared_part_connect_contour_vertex_maps_from_stitch(
    stitch_plan: &ExactStitchPlan,
    base_operand: ExactBooleanOperand,
    incoming_operand: ExactBooleanOperand,
    base: &MeshlibPreparedPart,
    incoming: &MeshlibPreparedPart,
) -> (out: (Vec<([usize; 2], [usize; 2])>, Vec<Option<usize>>))
    ensures
        (out.0@, out.1@) == connect_maps(
            stitch_plan.pairs@,
            base_operand,
            incoming_operand,
            base.cut_to_part_directed_edges@,
            incoming.cut_to_part_directed_edges@,
            plan_pair_indices(stitch_plan.paths@, stitch_plan.paths@.len() as int),
        ),
{
    let ghost pairs = stitch_plan.pairs@;
    let ghost bm = base.cut_to_part_directed_edges@;
    let ghost im = incoming.cut_to_part_directed_edges@;
    let mut maps: Vec<([usize; 2], [usize; 2])> = Vec::new();
    let mut source_indices: Vec<Option<usize>> = Vec::new();
    let paths = &stitch_plan.paths;
    let mut p: usize = 0;
    while p < paths.len()
        invariant
            paths@ == stitch_plan.paths@,
            pairs == stitch_plan.pairs@,
            bm == base.cut_to_part_directed_edges@,
            im == incoming.cut_to_part_directed_edges@,
            p <= paths@.len(),
            (maps@, source_indices@) == connect_maps(pairs, base_operand, incoming_operand, bm, im, plan_pair_indices(paths@, p as int)),
        decreases paths.len() - p,
    {
        let indices = &paths[p].pair_indices;
        let ghost head = plan_pair_indices(paths@, p as int);
        let mut k: usize = 0;
        while k < indices.len()
            invariant
                paths@ == stitch_plan.paths@,
                pairs == stitch_plan.pairs@,
                bm == base.cut_to_part_directed_edges@,
                im == incoming.cut_to_part_directed_edges@,
                p < paths@.len(),
                indices@ == paths@[p as int].pair_indices@,
                head == plan_pair_indices(paths@, p as int),
                k <= indices@.len(),
                (maps@, source_indices@) == connect_maps(pairs, base_operand, incoming_operand, bm, im, head + indices@.take(k as int)),
            decreases indices.len() - k,
        {
            proof {
                assert((head + indices@.take(k as int + 1)).drop_last() =~= head + indices@.take(k as int));
                assert((head + indices@.take(k as int + 1)).last() == indices@[k as int]);
            }
            let pair_index = indices[k];
            if pair_index < stitch_plan.pairs.len() {
                let pair = &stitch_plan.pairs[pair_index];
                let base_edge = crate::rewrite_inputs::stitch_pair_edge_for_operand(pair, base_operand);
                let incoming_edge = crate::rewrite_inputs::stitch_pair_edge_for_operand(pair, incoming_operand);
                match mapped_cut_edge(&base.cut_to_part_directed_edges, base_edge) {
                    Some(output_edge) => {
                        if mapped_cut_edge(&incoming.cut_to_part_directed_edges, incoming_edge).is_some() {
                            maps.push((incoming_edge, output_edge));
                            source_indices.push(
                                Some(crate::rewrite_inputs::stitch_pair_edge_index_for_operand(pair, incoming_operand)),
                            );
                        }
                    },
                    None => {},
                }
            }
            k += 1;
        }
        proof {
            assert(indices@.take(indices@.len() as int) =~= indices@);
        }
        p += 1;
    }
    (maps, source_indices)
}

/// The two prepared parts that the rewrite connects: the base operand's
/// and the incoming operand's.
#[derive(Debug, Clone, PartialEq, Eq)]
pub struct MeshlibPreparedConnectParts {
    pub base_operand: ExactBooleanOperand,
    pub incoming_operand: ExactBooleanOperand,
    pub base: MeshlibPreparedPart,
    pub incoming: MeshlibPreparedPart,
}

/// `first` for the first operand, `second` for the second.
pub open spec fn pick<T>(operand: ExactBooleanOperand, first: T, second: T) -> T {
    match operand {
        ExactBooleanOperand::First => first,
        ExactBooleanOperand::Second => second,
    }
}

/// The prepared faces of an operand that no fill appended.
pub open spec fn unfilled_prepared(prepared: Seq<usize>, added_face_ranges: Seq<[usize; 2]>) -> Seq<usize> {
    keep(prepared, |f: usize| !in_ranges(added_face_ranges, f))
}

/// The prepared parts of the rewrite's base and incoming operands, each
/// copied from its cut's prepared faces that no fill appended, flipped as
/// the assembly flipped that operand.
pub fn meshlib_prepare_connect_parts(
    first_cut: &ExactCutMeshRecords,
    first_vertex_count: usize,
    second_cut: &ExactCutMeshRecords,
    second_vertex_count: usize,
    assembly: &AssemblyTopology,
    first_added_face_ranges: &Vec<[usize; 2]>,
    second_added_face_ranges: &Vec<[usize; 2]>,
    flipped_first: bool,
    flipped_second: bool,
    topology_rewrite: &ExactMeshlibTopologyRewritePlan,
) -> (out: MeshlibPreparedConnectParts)
    ensures
        out.base_operand == topology_rewrite.base_operand,
        out.incoming_operand == topology_rewrite.incoming_operand,
        ({
            let b = topology_rewrite.base_operand;
            part_ok(
                out.base,
                pick(b, *first_cut, *second_cut),
                pick(b, first_vertex_count, second_vertex_count),
                pick(
                    b,
                    unfilled_prepared(assembly.prepare_first_faces@, first_added_face_ranges@),
                    unfilled_prepared(assembly.prepare_second_faces@, second_added_face_ranges@),
                ),
                b,
                pick(b, flipped_first, flipped_second),
            )
        }),
        ({
            let n = topology_rewrite.incoming_operand;
            part_ok(
                out.incoming,
                pick(n, *first_cut, *second_cut),
                pick(n, first_vertex_count, second_vertex_count),
                pick(
                    n,
                    unfilled_prepared(assembly.prepare_first_faces@, first_added_face_ranges@),
                    unfilled_prepared(assembly.prepare_second_faces@, second_added_face_ranges@),
                ),
                n,
                pick(n, flipped_first, flipped_second),
            )
        }),
{
    let base_operand = topology_rewrite.base_operand;
    let incoming_operand = topology_rewrite.incoming_operand;
    let base_faces = crate::rewrite_inputs::filtered_prepared_faces(
        assembly,
        first_added_face_ranges,
        second_added_face_ranges,
        base_operand,
    );
    let incoming_faces = crate::rewrite_inputs::filtered_prepared_faces(
        assembly,
        first_added_face_ranges,
        second_added_face_ranges,
        incoming_operand,
    );
    let base = match base_operand {
        ExactBooleanOperand::First => meshlib_prepare_part(first_cut, first_vertex_count, &base_faces, base_operand, flipped_first),
        ExactBooleanOperand::Second => meshlib_prepare_part(second_cut, second_vertex_count, &base_faces, base_operand, flipped_second),
    };
    let incoming = match incoming_operand {
        ExactBooleanOperand::First => meshlib_prepare_part(first_cut, first_vertex_count, &incoming_faces, incoming_operand, flipped_first),
        ExactBooleanOperand::Second => meshlib_prepare_part(
            second_cut,
            second_vertex_count,
            &incoming_faces,
            incoming_operand,
            flipped_second,
        ),
    };
    MeshlibPreparedConnectParts { base_operand, incoming_operand, base, incoming }
}

/// The first `k` edges of `a` paired with those of `b`, where `k` is the
/// shortest of the lengths and `limit`.
pub open spec fn zip_edges(a: Seq<[usize; 2]>, b: Seq<[usize; 2]>, limit: int) -> Seq<([usize; 2], [usize; 2])> {
    let k = if a.len() <= b.len() { a.len() as int } else { b.len() as int };
    let k = if limit < k { limit } else { k };
    Seq::new(if k < 0 { 0 } else { k as nat }, |i: int| (a[i], b[i]))
}

/// The edge pairs of the first `n` path pairs, path after path; each pair
/// of paths is cut to the length of the matching path of `limits`, when
/// given.
pub open spec fn zipped_paths(
    a: Seq<Vec<[usize; 2]>>,
    b: Seq<Vec<[usize; 2]>>,
    limits: Option<Seq<Vec<[usize; 2]>>>,
    n: int,
) -> Seq<([usize; 2], [usize; 2])>
    decreases n,
{
    if n <= 0 {
        Seq::empty()
    } else {
        let limit = match limits {
            Some(l) => l[n - 1]@.len() as int,
            None => a[n - 1]@.len() as int,
        };
        zipped_paths(a, b, limits, n - 1) + zip_edges(a[n - 1]@, b[n - 1]@, limit)
    }
}

/// The smallest of two lengths.
pub open spec fn shorter(a: int, b: int) -> int {
    if a <= b {
        a
    } else {
        b
    }
}

/// Appends the pairs of the first `limit` edges of `a` and `b`.
fn push_zipped(out: &mut Vec<([usize; 2], [usize; 2])>, a: &Vec<[usize; 2]>, b: &Vec<[usize; 2]>, limit: usize)
    ensures
        final(out)@ == old(out)@ + zip_edges(a@, b@, limit as int),
{
    let mut k = a.len();
    if b.len() < k {
        k = b.len();
    }
    if limit < k {
        k = limit;
    }
    let ghost head = out@;
    let mut i: usize = 0;
    while i < k
        invariant
            k <= a@.len(),
            k <= b@.len(),
            k == zip_edges(a@, b@, limit as int).len(),
            i <= k,
            out@ == head + zip_edges(a@, b@, limit as int).take(i as int),
        decreases k - i,
    {
        out.push((a[i], b[i]));
        proof {
            assert(out@ =~= head + zip_edges(a@, b@, limit as int).take(i as int + 1));
        }
        i += 1;
    }
    proof {
        assert(zip_edges(a@, b@, limit as int).take(k as int) =~= zip_edges(a@, b@, limit as int));
    }
}

/// Each cut path edge of the part's own cut paired with the part edge it
/// reads as, path by path.
pub fn prepared_part_self_contour_vertex_maps(cut: &ExactCutMeshRecords, part: &MeshlibPreparedPart) -> (out: Vec<([usize; 2], [usize; 2])>)
    ensures
        out@ == zipped_paths(
            cut.cut_edge_paths@,
            part.remapped_cut_edge_paths@,
            None,
            shorter(cut.cut_edge_paths@.len() as int, part.remapped_cut_edge_paths@.len() as int),
        ),
{
    let sources = &cut.cut_edge_paths;
    let mapped = &part.remapped_cut_edge_paths;
    let mut n = sources.len();
    if mapped.len() < n {
        n = mapped.len();
    }
    let mut out: Vec<([usize; 2], [usize; 2])> = Vec::new();
    let mut p: usize = 0;
    while p < n
        invariant
            n <= sources@.len(),
            n <= mapped@.len(),
            p <= n,
            out@ == zipped_paths(sources@, mapped@, None, p as int),
        decreases n - p,
    {
        push_zipped(&mut out, &sources[p], &mapped[p], sources[p].len());
        p += 1;
    }
    out
}

/// Each cut path edge of the incoming cut paired with the base part edge
/// at the same place, path by path, as far as the incoming part's path
/// reaches.
pub fn prepared_part_connect_contour_vertex_maps(
    incoming_cut: &ExactCutMeshRecords,
    base: &MeshlibPreparedPart,
    incoming: &MeshlibPreparedPart,
) -> (out: Vec<([usize; 2], [usize; 2])>)
    ensures
        out@ == zipped_paths(
            incoming_cut.cut_edge_paths@,
            base.remapped_cut_edge_paths@,
            Some(incoming.remapped_cut_edge_paths@),
            shorter(
                shorter(incoming_cut.cut_edge_paths@.len() as int, base.remapped_cut_edge_paths@.len() as int),
                incoming.remapped_cut_edge_paths@.len() as int,
            ),
        ),
{
    let sources = &incoming_cut.cut_edge_paths;
    let base_paths = &base.remapped_cut_edge_paths;
    let incoming_paths = &incoming.remapped_cut_edge_paths;
    let mut n = sources.len();
    if base_paths.len() < n {
        n = base_paths.len();
    }
    if incoming_paths.len() < n {
        n = incoming_paths.len();
    }
    let mut out: Vec<([usize; 2], [usize; 2])> = Vec::new();
    let mut p: usize = 0;
    while p < n
        invariant
            n <= sources@.len(),
            n <= base_paths@.len(),
            n <= incoming_paths@.len(),
            p <= n,
            out@ == zipped_paths(sources@, base_paths@, Some(incoming_paths@), p as int),
        decreases n - p,
    {
        push_zipped(&mut out, &sources[p], &base_paths[p], incoming_paths[p].len());
        p += 1;
    }
    out
}

/// The base part's contour vertex maps: its own cut paths against their
/// reading in the part.
pub fn prepared_connect_base_contour_vertex_maps(
    base_cut: &ExactCutMeshRecords,
    parts: &MeshlibPreparedConnectParts,
) -> (out: Vec<([usize; 2], [usize; 2])>)
    ensures
        out@ == zipped_paths(
            base_cut.cut_edge_paths@,
            parts.base.remapped_cut_edge_paths@,
            None,
            shorter(base_cut.cut_edge_paths@.len() as int, parts.base.remapped_cut_edge_paths@.len() as int),
        ),
{
    prepared_part_self_contour_vertex_maps(base_cut, &parts.base)
}

/// The incoming part's contour vertex maps with the cut edge index behind
/// each: along the stitch paths when there is a stitch plan, else path by
/// path against the base part, each incoming cut path edge with the cut
/// edge it claims.
pub fn prepared_connect_incoming_contour_vertex_maps(
    incoming_cut: &ExactCutMeshRecords,
    stitch_plan: Option<&ExactStitchPlan>,
    parts: &MeshlibPreparedConnectParts,
) -> (out: (Vec<([usize; 2], [usize; 2])>, Vec<Option<usize>>))
    ensures
        stitch_plan matches Some(plan) ==> (out.0@, out.1@) == connect_maps(
            plan.pairs@,
            parts.base_operand,
            parts.incoming_operand,
            parts.base.cut_to_part_directed_edges@,
            parts.incoming.cut_to_part_directed_edges@,
            plan_pair_indices(plan.paths@, plan.paths@.len() as int),
        ),
        stitch_plan is None ==> out.0@ == zipped_paths(
            incoming_cut.cut_edge_paths@,
            parts.base.remapped_cut_edge_paths@,
            Some(parts.incoming.remapped_cut_edge_paths@),
            shorter(
                shorter(incoming_cut.cut_edge_paths@.len() as int, parts.base.remapped_cut_edge_paths@.len() as int),
                parts.incoming.remapped_cut_edge_paths@.len() as int,
            ),
        ) && out.1@ == crate::rewrite_inputs::takes(
            incoming_cut.cut_edges@,
            Seq::new(incoming_cut.cut_edges@.len(), |i: int| false),
            crate::rewrite_inputs::path_edges_upto(incoming_cut.cut_edge_paths@, incoming_cut.cut_edge_paths@.len() as int),
        ).0,
{
    match stitch_plan {
        Some(plan) => prepared_part_connect_contour_vertex_maps_from_stitch(
            plan,
            parts.base_operand,
            parts.incoming_operand,
            &parts.base,
            &parts.incoming,
        ),
        None => (
            prepared_part_connect_contour_vertex_maps(incoming_cut, &parts.base, &parts.incoming),
            crate::rewrite_inputs::cut_path_edge_source_indices(incoming_cut),
        ),
    }
}

/// The corner of a cut face that lands at corner `k` of its part face: the
/// last two swap places when the part is flipped.
pub open spec fn flipped_corner(k: int, flip: bool) -> int {
    if flip && k == 1 {
        2
    } else if flip && k == 2 {
        1
    } else {
        k
    }
}

/// A prepared part only renumbers the faces it copies: each corner of a
/// part face names the part vertex whose cut vertex is the matching corner
/// of the copied cut face.
pub proof fn lemma_part_faces_unpack(
    part: MeshlibPreparedPart,
    cut: ExactCutMeshRecords,
    vertex_count: usize,
    prepared: Seq<usize>,
    operand: ExactBooleanOperand,
    flip: bool,
)
    requires
        vertex_count <= i64::MAX,
        part_ok(part, cut, vertex_count, prepared, operand, flip),
    ensures
        ({
            let acc = keep(prepared, copyable_pred(cut.faces@, vertex_count));
            forall|i: int, k: int|
                0 <= i < acc.len() && 0 <= k < 3 ==> 0 <= #[trigger] part.faces@[i][k] < part.vertex_sources@.len()
                    && part.vertex_sources@[part.faces@[i][k] as int] == cut.faces@[acc[i] as int][flipped_corner(k, flip)] as usize
        }),
{
    let cut_faces = cut.faces@;
    let acc = keep(prepared, copyable_pred(cut_faces, vertex_count));
    let seen = corners(cut_faces, acc);
    let sources = part.vertex_sources@;
    let map = part.cut_to_part_vertices@;
    lemma_first_seen_distinct(seen);
    lemma_corners_at(cut_faces, acc);
    crate::prepare_helpers::lemma_keep_satisfies(prepared, copyable_pred(cut_faces, vertex_count));
    crate::packed_export::lemma_distinct_below(sources, vertex_count);
    assert forall|i: int, k: int|
        0 <= i < acc.len() && 0 <= k < 3 implies 0 <= #[trigger] part.faces@[i][k] < sources.len()
            && sources[part.faces@[i][k] as int] == cut_faces[acc[i] as int][flipped_corner(k, flip)] as usize by {
        let g = cut_faces[acc[i] as int];
        let j = flipped_corner(k, flip);
        assert(copyable_pred(cut_faces, vertex_count)(acc[i]));
        assert(seen[3 * i + j] == g[j] as usize);
        assert(seen.contains(g[j] as usize));
        let c = g[j] as usize;
        assert(c < vertex_count);
        let m = map[c as int]->0;
        assert(m < sources.len() && sources[m as int] == c);
        assert(part.faces@[i] == part_face(map, g, flip));
    }
}

proof fn lemma_remap_partition(cut_to_part: Seq<Option<usize>>, edges: Seq<[usize; 2]>, path_index: usize, path: Seq<[usize; 2]>)
    ensures
        remap_path(cut_to_part, edges, path).len() + path_misses(cut_to_part, edges, path_index, path).len() == path.len(),
    decreases path.len(),
{
    if path.len() > 0 {
        lemma_remap_partition(cut_to_part, edges, path_index, path.drop_last());
    }
}

/// Every edge of a cut path is either read in the part or counted missing:
/// the part's path and its missing count add up to the cut path's length,
/// and the path closes in the part only when nothing is missing.
pub proof fn lemma_part_paths_account_for_every_edge(
    part: MeshlibPreparedPart,
    cut: ExactCutMeshRecords,
    vertex_count: usize,
    prepared: Seq<usize>,
    operand: ExactBooleanOperand,
    flip: bool,
)
    requires
        part_ok(part, cut, vertex_count, prepared, operand, flip),
    ensures
        forall|i: int|
            0 <= i < cut.cut_edge_paths@.len() ==> (#[trigger] part.remapped_cut_edge_paths@[i])@.len()
                + part.remapped_cut_edge_path_missing_edges@[i] == cut.cut_edge_paths@[i]@.len(),
        forall|i: int|
            0 <= i < cut.cut_edge_paths@.len() && #[trigger] part.remapped_cut_edge_path_closed@[i]
                ==> part.remapped_cut_edge_path_missing_edges@[i] == 0,
{
    let acc = keep(prepared, copyable_pred(cut.faces@, vertex_count));
    let edges = edge_list(cut.faces@, acc);
    let map = part.cut_to_part_vertices@;
    assert forall|i: int|
        0 <= i < cut.cut_edge_paths@.len() implies (#[trigger] part.remapped_cut_edge_paths@[i])@.len()
            + part.remapped_cut_edge_path_missing_edges@[i] == cut.cut_edge_paths@[i]@.len() by {
        lemma_remap_partition(map, edges, i as usize, cut.cut_edge_paths@[i]@);
        assert(part.remapped_cut_edge_path_missing_edges@[i] == path_misses(map, edges, i as usize, cut.cut_edge_paths@[i]@).len());
    }
    assert forall|i: int|
        0 <= i < cut.cut_edge_paths@.len() && #[trigger] part.remapped_cut_edge_path_closed@[i]
            implies part.remapped_cut_edge_path_missing_edges@[i] == 0 by {
        assert(part.remapped_cut_edge_path_missing_edges@[i] == path_misses(map, edges, i as usize, cut.cut_edge_paths@[i]@).len());
    }
}

/// The three directed edges of a face, corner to corner.
pub fn directed_face_edges(face: [usize; 3]) -> (out: [[usize; 2]; 3])
    ensures
        out == crate::edge::spec_face_edges(face),
{
    [[face[0], face[1]], [face[1], face[2]], [face[2], face[0]]]
}

} // verus!
