//! The source face behind every face of a cut and filled mesh, in the order
//! the faces were made: the prepared faces, then the pieces of split faces,
//! the faces that restore open cut edges, and the hole fills.
use vstd::prelude::*;

use crate::edge::{contains_index, increasing, insert_sorted};
use crate::exact_cut::{ExactCutFaceSourceEvent, ExactCutFaceSourceEventKind, ExactCutMeshRecords};
use crate::source_details::{decode_runs, runs_canonical, source_face_runs};

verus! {

/// How one hole of the cut mesh was filled.
pub struct ExactCutHoleFillPlan {
    pub representative_edge: [usize; 2],
    pub boundary_edges: Vec<[usize; 2]>,
    pub source_face: usize,
    pub source_face_for_faces: Vec<usize>,
    pub num_tris: usize,
}

/// A cut mesh with its holes filled: the fills' faces were appended in the
/// ranges `added_face_ranges`, one `[start, end)` per fill plan.
pub struct ExactCutHoleFillResult {
    pub mesh: ExactCutMeshRecords,
    pub fill_plans: Vec<ExactCutHoleFillPlan>,
    pub added_face_ranges: Vec<[usize; 2]>,
}

/// Why a face was appended before the final hole fill.
#[derive(Debug, Clone, Copy, PartialEq, Eq, Structural)]
pub enum MeshlibPrefillRepairKind {
    OpenEdgeRestoration,
    OrphanRepair,
}

/// A face appended before the final hole fill, for cut path `path_index`.
#[derive(Debug, Clone, Copy, PartialEq, Eq, Structural)]
pub struct MeshlibPrefillRepairRecord {
    pub kind: MeshlibPrefillRepairKind,
    pub path_index: usize,
    pub source_face: usize,
}

/// Where the source record of every face of a cut and filled mesh comes
/// from, in the order the faces were made.
#[derive(Debug, Clone, PartialEq, Eq)]
pub struct MeshlibCut2OriginShadowInventory {
    pub source_records: usize,
    pub unique_source_faces: usize,
    pub duplicate_source_records: usize,
    pub split_source_records: usize,
    pub cut_event_source_records: usize,
    pub split_event_source_records: usize,
    pub prefill_repair_source_records: usize,
    pub open_edge_restoration_source_records: usize,
    pub orphan_repair_source_records: usize,
    pub fill_source_records: usize,
    pub source_face_counts: Vec<[usize; 2]>,
    pub source_face_runs: Vec<[usize; 2]>,
    pub appended_source_face_runs: Vec<[usize; 2]>,
    pub prefill_repair_record_details: Vec<[usize; 2]>,
    pub open_edge_restoration_record_details: Vec<[usize; 2]>,
    pub orphan_repair_record_details: Vec<[usize; 2]>,
    pub source_face_sequence: Vec<usize>,
    pub appended_source_face_sequence: Vec<usize>,
    pub split_appended_source_face_sequence: Vec<usize>,
    pub cut_event_source_face_sequence: Vec<usize>,
    pub split_event_source_face_sequence: Vec<usize>,
    pub prefill_repair_source_face_sequence: Vec<usize>,
    pub open_edge_restoration_source_face_sequence: Vec<usize>,
    pub orphan_repair_source_face_sequence: Vec<usize>,
    pub fill_appended_source_face_sequence: Vec<usize>,
}

/// How a wanted sequence of source records compares with the one the cut
/// and fill produced.
#[derive(Debug, Clone, PartialEq, Eq)]
pub struct MeshlibCut2OriginOwnerRemapDiagnostics {
    pub ready: bool,
    pub source_records: usize,
    pub matching_source_records: usize,
    pub mismatched_source_records: usize,
    pub missing_materialized_source_records: usize,
    pub extra_materialized_source_records: usize,
    pub mismatch_details: Vec<[usize; 3]>,
    pub source_face_sequence: Vec<usize>,
    pub appended_source_face_sequence: Vec<usize>,
    pub source_face_counts: Vec<[usize; 2]>,
    pub source_face_runs: Vec<[usize; 2]>,
    pub appended_source_face_runs: Vec<[usize; 2]>,
}

/// The first fill plan, from `start` on, whose face range holds `face`.
pub open spec fn spec_fill_plan_of(face: usize, ranges: Seq<[usize; 2]>, start: int) -> Option<usize>
    decreases ranges.len() - start,
{
    if start < 0 || start >= ranges.len() {
        None
    } else if ranges[start][0] <= face < ranges[start][1] {
        Some(start as usize)
    } else {
        spec_fill_plan_of(face, ranges, start + 1)
    }
}

/// The fill plan whose appended faces hold `face_index`, if any.
pub fn added_fill_plan_index(face_index: usize, added_face_ranges: &Vec<[usize; 2]>) -> (out: Option<usize>)
    ensures
        out == spec_fill_plan_of(face_index, added_face_ranges@, 0),
{
    let mut i: usize = 0;
    while i < added_face_ranges.len()
        invariant
            i <= added_face_ranges@.len(),
            spec_fill_plan_of(face_index, added_face_ranges@, 0) == spec_fill_plan_of(
                face_index,
                added_face_ranges@,
                i as int,
            ),
        decreases added_face_ranges.len() - i,
    {
        let range = added_face_ranges[i];
        if range[0] <= face_index && face_index < range[1] {
            return Some(i);
        }
        i += 1;
    }
    None
}

/// Whether `face_index` was appended by a hole fill.
pub fn added_face_index(face_index: usize, added_face_ranges: &Vec<[usize; 2]>) -> (out: bool)
    ensures
        out == spec_fill_plan_of(face_index, added_face_ranges@, 0) is Some,
{
    added_fill_plan_index(face_index, added_face_ranges).is_some()
}

/// The source face of each cut event, in order.
pub open spec fn event_faces(events: Seq<ExactCutFaceSourceEvent>) -> Seq<usize> {
    events.map_values(|e: ExactCutFaceSourceEvent| e.source_face)
}

/// The source face of each split event, in order.
pub open spec fn split_event_faces(events: Seq<ExactCutFaceSourceEvent>) -> Seq<usize>
    decreases events.len(),
{
    if events.len() == 0 {
        Seq::empty()
    } else if events.last().kind == ExactCutFaceSourceEventKind::Split {
        split_event_faces(events.drop_last()).push(events.last().source_face)
    } else {
        split_event_faces(events.drop_last())
    }
}

/// The source face of every cut event, in order.
pub fn cut_event_source_face_sequence(cut: &ExactCutHoleFillResult) -> (out: Vec<usize>)
    ensures
        out@ == event_faces(cut.mesh.cut_face_source_events@),
{
    let events = &cut.mesh.cut_face_source_events;
    let mut out: Vec<usize> = Vec::new();
    let mut i: usize = 0;
    while i < events.len()
        invariant
            i <= events@.len(),
            out@ == event_faces(events@.subrange(0, i as int)),
        decreases events.len() - i,
    {
        out.push(events[i].source_face);
        proof {
            assert(event_faces(events@.subrange(0, i as int + 1)) =~= event_faces(
                events@.subrange(0, i as int),
            ).push(events@[i as int].source_face));
        }
        i += 1;
    }
    proof {
        assert(events@.subrange(0, events@.len() as int) =~= events@);
    }
    out
}

/// The source face of every split event, in order.
pub fn split_event_source_face_sequence(cut: &ExactCutHoleFillResult) -> (out: Vec<usize>)
    ensures
        out@ == split_event_faces(cut.mesh.cut_face_source_events@),
{
    let events = &cut.mesh.cut_face_source_events;
    let mut out: Vec<usize> = Vec::new();
    let mut i: usize = 0;
    while i < events.len()
        invariant
            i <= events@.len(),
            out@ == split_event_faces(events@.subrange(0, i as int)),
        decreases events.len() - i,
    {
        proof {
            assert(events@.subrange(0, i as int + 1).drop_last() =~= events@.subrange(0, i as int));
        }
        if events[i].kind == ExactCutFaceSourceEventKind::Split {
            out.push(events[i].source_face);
        }
        i += 1;
    }
    proof {
        assert(events@.subrange(0, events@.len() as int) =~= events@);
    }
    out
}

/// The records of `source_faces` left once each prepared source face below
/// `original` has claimed its first record: records of faces at or above
/// `original`, and repeats.
pub open spec fn after_prepared(source_faces: Seq<usize>, original: int) -> Seq<usize>
    decreases source_faces.len(),
{
    if source_faces.len() == 0 {
        Seq::empty()
    } else if source_faces.last() < original && !source_faces.drop_last().contains(source_faces.last()) {
        after_prepared(source_faces.drop_last(), original)
    } else {
        after_prepared(source_faces.drop_last(), original).push(source_faces.last())
    }
}

/// The records of `source_faces` beyond the first record of each prepared
/// source face below `original_source_faces`.
pub fn duplicate_source_records_after_prepared(source_faces: &Vec<usize>, original_source_faces: usize) -> (out: Vec<usize>)
    ensures
        out@ == after_prepared(source_faces@, original_source_faces as int),
{
    let mut consumed: Vec<bool> = Vec::new();
    let mut k: usize = 0;
    while k < original_source_faces
        invariant
            k <= original_source_faces,
            consumed@.len() == k,
            forall|f: int| 0 <= f < k ==> !consumed@[f],
        decreases original_source_faces - k,
    {
        consumed.push(false);
        k += 1;
    }
    let mut out: Vec<usize> = Vec::new();
    let mut i: usize = 0;
    while i < source_faces.len()
        invariant
            i <= source_faces@.len(),
            consumed@.len() == original_source_faces,
            forall|f: int| 0 <= f < original_source_faces ==> (consumed@[f] <==> source_faces@.subrange(0, i as int).contains(f as usize)),
            out@ == after_prepared(source_faces@.subrange(0, i as int), original_source_faces as int),
        decreases source_faces.len() - i,
    {
        let face = source_faces[i];
        let ghost prefix = source_faces@.subrange(0, i as int);
        proof {
            assert(source_faces@.subrange(0, i as int + 1).drop_last() =~= prefix);
            assert(source_faces@.subrange(0, i as int + 1) =~= prefix.push(face));
        }
        if face < original_source_faces && !consumed[face] {
            consumed.set(face, true);
        } else {
            out.push(face);
        }
        proof {
            let next = source_faces@.subrange(0, i as int + 1);
            assert forall|f: int| 0 <= f < original_source_faces implies (consumed@[f] <==> next.contains(f as usize)) by {
                if next.contains(f as usize) && f as usize != face {
                    let t = choose|t: int| 0 <= t < next.len() && next[t] == f as usize;
                    assert(prefix[t] == f as usize);
                }
                if prefix.contains(f as usize) {
                    let t = choose|t: int| 0 <= t < prefix.len() && prefix[t] == f as usize;
                    assert(next[t] == f as usize);
                }
                if f as usize == face {
                    assert(next[i as int] == face);
                }
            }
        }
        i += 1;
    }
    proof {
        assert(source_faces@.subrange(0, source_faces@.len() as int) =~= source_faces@);
    }
    out
}

/// How many times `x` occurs in `s`.
pub open spec fn occurrences(s: Seq<usize>, x: usize) -> nat
    decreases s.len(),
{
    if s.len() == 0 {
        0
    } else {
        occurrences(s.drop_last(), x) + (if s.last() == x { 1nat } else { 0nat })
    }
}

/// `counts` lists each distinct value of `s` once, ascending, as
/// `[value, occurrences]`.
pub open spec fn counts_of(s: Seq<usize>, counts: Seq<[usize; 2]>) -> bool {
    &&& forall|i: int, j: int| 0 <= i < j < counts.len() ==> counts[i][0] < counts[j][0]
    &&& forall|i: int| 0 <= i < counts.len() ==> (#[trigger] counts[i])[1] == occurrences(s, counts[i][0])
    &&& forall|i: int| 0 <= i < counts.len() ==> s.contains((#[trigger] counts[i])[0])
    &&& forall|t: int| #![trigger s[t]] 0 <= t < s.len() ==> exists|i: int| 0 <= i < counts.len() && (#[trigger] counts[i])[0] == s[t]
}

proof fn lemma_occurrences_bound(s: Seq<usize>, x: usize)
    ensures
        occurrences(s, x) <= s.len(),
        occurrences(s, x) > 0 <==> s.contains(x),
    decreases s.len(),
{
    if s.len() > 0 {
        lemma_occurrences_bound(s.drop_last(), x);
        if s.contains(x) && s.last() != x {
            let t = choose|t: int| 0 <= t < s.len() && s[t] == x;
            assert(s.drop_last()[t] == x);
        }
        if s.drop_last().contains(x) {
            let t = choose|t: int| 0 <= t < s.drop_last().len() && s.drop_last()[t] == x;
            assert(s[t] == x);
        }
        if s.last() == x {
            assert(s[s.len() - 1] == x);
        }
    }
}

/// Each distinct source face with how many records it has, ascending.
pub fn source_face_counts(source_faces: &Vec<usize>) -> (out: Vec<[usize; 2]>)
    ensures
        counts_of(source_faces@, out@),
{
    let mut counts: Vec<[usize; 2]> = Vec::new();
    let mut i: usize = 0;
    while i < source_faces.len()
        invariant
            i <= source_faces@.len(),
            counts_of(source_faces@.subrange(0, i as int), counts@),
        decreases source_faces.len() - i,
    {
        let face = source_faces[i];
        let ghost prefix = source_faces@.subrange(0, i as int);
        let ghost next = source_faces@.subrange(0, i as int + 1);
        proof {
            assert(next.drop_last() =~= prefix);
            assert(next =~= prefix.push(face));
            assert forall|x: usize| #[trigger] occurrences(next, x) == occurrences(prefix, x) + (if x == face { 1nat } else { 0nat }) by {}
            assert forall|x: usize| prefix.contains(x) implies next.contains(x) by {
                let t = choose|t: int| 0 <= t < prefix.len() && prefix[t] == x;
                assert(next[t] == x);
            }
            assert(next[i as int] == face);
        }
        let mut j: usize = 0;
        while j < counts.len() && counts[j][0] < face
            invariant
                j <= counts@.len(),
                counts_of(prefix, counts@),
                forall|k: int| 0 <= k < j ==> counts@[k][0] < face,
            decreases counts.len() - j,
        {
            j += 1;
        }
        if j < counts.len() && counts[j][0] == face {
            let ghost before = counts@;
            proof {
                lemma_occurrences_bound(prefix, face);
            }
            let c = counts[j][1];
            counts.set(j, [face, c + 1]);
            proof {
                assert forall|k: int| 0 <= k < counts@.len() implies (#[trigger] counts@[k])[1] == occurrences(next, counts@[k][0]) by {
                    if k != j {
                        assert(counts@[k] == before[k]);
                        assert(before[k][0] != face);
                    }
                }
                assert forall|k: int| 0 <= k < counts@.len() implies next.contains((#[trigger] counts@[k])[0]) by {
                    assert(counts@[k][0] == before[k][0]);
                }
                assert forall|t: int| #![trigger next[t]] 0 <= t < next.len() implies exists|k: int| 0 <= k < counts@.len() && (#[trigger] counts@[k])[0] == next[t] by {
                    if t < i {
                        assert(next[t] == prefix[t]);
                        let k = choose|k: int| 0 <= k < before.len() && (#[trigger] before[k])[0] == prefix[t];
                        assert(counts@[k][0] == before[k][0]);
                    } else {
                        assert(counts@[j as int][0] == face);
                    }
                }
            }
        } else {
            let ghost before = counts@;
            proof {
                assert(!prefix.contains(face)) by {
                    if prefix.contains(face) {
                        let t = choose|t: int| 0 <= t < prefix.len() && prefix[t] == face;
                        let k = choose|k: int| 0 <= k < before.len() && (#[trigger] before[k])[0] == prefix[t];
                        if k >= j {
                            assert(before[j as int][0] <= before[k][0]);
                        }
                    }
                }
                lemma_occurrences_bound(prefix, face);
            }
            counts.insert(j, [face, 1]);
            proof {
                assert(counts@ == before.insert(j as int, [face, 1usize]));
                assert forall|a: int, b: int| 0 <= a < b < counts@.len() implies counts@[a][0] < counts@[b][0] by {
                    if b < j {
                    } else if b == j {
                    } else if a < j {
                        assert(counts@[b] == before[b - 1]);
                        if b - 1 > j {
                            assert(before[j as int][0] < before[b - 1][0]);
                        }
                    } else if a == j {
                        assert(counts@[b] == before[b - 1]);
                        if b - 1 > j {
                            assert(before[j as int][0] < before[b - 1][0]);
                        }
                    } else {
                        assert(counts@[a] == before[a - 1]);
                        assert(counts@[b] == before[b - 1]);
                    }
                }
                assert forall|k: int| 0 <= k < counts@.len() implies (#[trigger] counts@[k])[1] == occurrences(next, counts@[k][0]) && next.contains(counts@[k][0]) by {
                    if k < j {
                        assert(counts@[k] == before[k]);
                    } else if k > j {
                        assert(counts@[k] == before[k - 1]);
                    }
                }
                assert forall|t: int| #![trigger next[t]] 0 <= t < next.len() implies exists|k: int| 0 <= k < counts@.len() && (#[trigger] counts@[k])[0] == next[t] by {
                    if t < i {
                        assert(next[t] == prefix[t]);
                        let k = choose|k: int| 0 <= k < before.len() && (#[trigger] before[k])[0] == prefix[t];
                        if k < j {
                            assert(counts@[k] == before[k]);
                        } else {
                            assert(counts@[k + 1] == before[k]);
                        }
                    } else {
                        assert(counts@[j as int][0] == face);
                    }
                }
            }
        }
        i += 1;
    }
    proof {
        assert(source_faces@.subrange(0, source_faces@.len() as int) =~= source_faces@);
    }
    counts
}

/// How many cut paths carry a path, a closed flag and source faces alike.
pub open spec fn zipped_path_count(mesh: &ExactCutMeshRecords) -> int {
    let a = mesh.cut_edge_paths@.len() as int;
    let b = mesh.cut_edge_path_closed@.len() as int;
    let c = mesh.cut_edge_path_source_faces@.len() as int;
    if a <= b && a <= c {
        a
    } else if b <= c {
        b
    } else {
        c
    }
}

/// The prefill repair of cut path `p`: an open, non-empty path with exactly
/// one source face, when that face is known, is restored from it.
pub open spec fn prefill_record_of(mesh: &ExactCutMeshRecords, p: int) -> Option<MeshlibPrefillRepairRecord> {
    if !mesh.cut_edge_path_closed@[p] && mesh.cut_edge_paths@[p]@.len() > 0
        && mesh.cut_edge_path_source_faces@[p]@.len() == 1 {
        match mesh.cut_edge_path_source_faces@[p]@[0] {
            Some(f) => Some(
                MeshlibPrefillRepairRecord {
                    kind: MeshlibPrefillRepairKind::OpenEdgeRestoration,
                    path_index: p as usize,
                    source_face: f,
                },
            ),
            None => None,
        }
    } else {
        None
    }
}

/// The prefill repairs of the first `n` cut paths, in path order.
pub open spec fn prefill_records_upto(mesh: &ExactCutMeshRecords, n: int) -> Seq<MeshlibPrefillRepairRecord>
    decreases n,
{
    if n <= 0 {
        Seq::empty()
    } else {
        match prefill_record_of(mesh, n - 1) {
            Some(r) => prefill_records_upto(mesh, n - 1).push(r),
            None => prefill_records_upto(mesh, n - 1),
        }
    }
}

/// The faces restored before the final fill: one open-edge restoration per
/// open cut path that runs along a single known source face.
pub fn meshlib_prefill_repair_records(cut: &ExactCutHoleFillResult) -> (out: Vec<MeshlibPrefillRepairRecord>)
    ensures
        out@ == prefill_records_upto(&cut.mesh, zipped_path_count(&cut.mesh)),
{
    let mesh = &cut.mesh;
    let mut n = mesh.cut_edge_paths.len();
    if mesh.cut_edge_path_closed.len() < n {
        n = mesh.cut_edge_path_closed.len();
    }
    if mesh.cut_edge_path_source_faces.len() < n {
        n = mesh.cut_edge_path_source_faces.len();
    }
    let mut out: Vec<MeshlibPrefillRepairRecord> = Vec::new();
    let mut p: usize = 0;
    while p < n
        invariant
            n == zipped_path_count(mesh),
            p <= n,
            out@ == prefill_records_upto(mesh, p as int),
        decreases n - p,
    {
        let closed = mesh.cut_edge_path_closed[p];
        let source_faces = &mesh.cut_edge_path_source_faces[p];
        if !closed && mesh.cut_edge_paths[p].len() > 0 && source_faces.len() == 1 {
            if let Some(f) = source_faces[0] {
                out.push(
                    MeshlibPrefillRepairRecord {
                        kind: MeshlibPrefillRepairKind::OpenEdgeRestoration,
                        path_index: p,
                        source_face: f,
                    },
                );
            }
        }
        p += 1;
    }
    out
}

/// Whether fill plan `plan` is the one-triangle fill of the single-edge cut
/// path of `record`, from the record's source face.
pub open spec fn spec_plan_matches(cut: &ExactCutHoleFillResult, plan: &ExactCutHoleFillPlan, record: MeshlibPrefillRepairRecord) -> bool {
    let paths = cut.mesh.cut_edge_paths@;
    &&& record.path_index < paths.len()
    &&& paths[record.path_index as int]@.len() == 1
    &&& plan.source_face == record.source_face
    &&& plan.representative_edge == paths[record.path_index as int]@[0]
    &&& plan.boundary_edges@ == paths[record.path_index as int]@
    &&& plan.num_tris == 1
}

/// Whether `plan` fills the hole that `record` restored before the fill.
pub fn fill_plan_matches_prefill_repair_record(
    cut: &ExactCutHoleFillResult,
    plan: &ExactCutHoleFillPlan,
    record: &MeshlibPrefillRepairRecord,
) -> (out: bool)
    ensures
        out == spec_plan_matches(cut, plan, *record),
{
    if record.path_index >= cut.mesh.cut_edge_paths.len() {
        return false;
    }
    let path = &cut.mesh.cut_edge_paths[record.path_index];
    if path.len() != 1 || plan.source_face != record.source_face {
        return false;
    }
    let edge = path[0];
    let same_representative = plan.representative_edge[0] == edge[0] && plan.representative_edge[1] == edge[1];
    let same_boundary = plan.boundary_edges.len() == 1 && plan.boundary_edges[0][0] == edge[0]
        && plan.boundary_edges[0][1] == edge[1];
    proof {
        if same_representative {
            assert(plan.representative_edge =~= edge);
        }
        if same_boundary {
            assert(plan.boundary_edges@[0] =~= edge);
            assert(plan.boundary_edges@ =~= path@);
        }
        if plan.boundary_edges@ == path@ {
            assert(plan.boundary_edges@[0] == edge);
        }
    }
    same_representative && same_boundary && plan.num_tris == 1
}

/// The first fill plan, from `start` on, that fills `record`'s hole.
pub open spec fn spec_matching_plan(cut: &ExactCutHoleFillResult, record: MeshlibPrefillRepairRecord, start: int) -> Option<usize>
    decreases cut.fill_plans@.len() - start,
{
    if start < 0 || start >= cut.fill_plans@.len() {
        None
    } else if spec_plan_matches(cut, &cut.fill_plans@[start], record) {
        Some(start as usize)
    } else {
        spec_matching_plan(cut, record, start + 1)
    }
}

/// The fill plans that restore one of `records`, ascending.
pub fn materialized_prefill_fill_plan_indices(cut: &ExactCutHoleFillResult, records: &Vec<MeshlibPrefillRepairRecord>) -> (out: Vec<usize>)
    ensures
        increasing(out@),
        forall|q: usize|
            out@.contains(q) <==> exists|k: int|
                0 <= k < records@.len() && spec_matching_plan(cut, records@[k], 0) == Some(q),
{
    let mut out: Vec<usize> = Vec::new();
    let mut k: usize = 0;
    while k < records.len()
        invariant
            k <= records@.len(),
            increasing(out@),
            forall|q: usize|
                out@.contains(q) <==> exists|t: int| 0 <= t < k && spec_matching_plan(cut, records@[t], 0) == Some(q),
        decreases records.len() - k,
    {
        let record = records[k];
        let mut q: usize = 0;
        let mut found: Option<usize> = None;
        while q < cut.fill_plans.len()
            invariant_except_break
                found is None,
            invariant
                q <= cut.fill_plans@.len(),
                spec_matching_plan(cut, record, 0) == spec_matching_plan(cut, record, q as int),
            ensures
                found == spec_matching_plan(cut, record, 0),
            decreases cut.fill_plans.len() - q,
        {
            if fill_plan_matches_prefill_repair_record(cut, &cut.fill_plans[q], &record) {
                found = Some(q);
                break;
            }
            q += 1;
        }
        let ghost before = out@;
        if let Some(q) = found {
            insert_sorted(&mut out, q);
        }
        proof {
            assert forall|x: usize|
                out@.contains(x) <==> exists|t: int| 0 <= t < k + 1 && spec_matching_plan(cut, records@[t], 0) == Some(x) by {
                if found is Some {
                    assert(out@.contains(x) <==> out@.to_set().contains(x));
                    assert(before.contains(x) <==> before.to_set().contains(x));
                }
                if exists|t: int| 0 <= t < k + 1 && spec_matching_plan(cut, records@[t], 0) == Some(x) {
                    let t = choose|t: int| 0 <= t < k + 1 && spec_matching_plan(cut, records@[t], 0) == Some(x);
                    if t < k {
                        assert(exists|t: int| 0 <= t < k && spec_matching_plan(cut, records@[t], 0) == Some(x));
                    }
                }
                if exists|t: int| 0 <= t < k && spec_matching_plan(cut, records@[t], 0) == Some(x) {
                    let t = choose|t: int| 0 <= t < k && spec_matching_plan(cut, records@[t], 0) == Some(x);
                    assert(exists|t: int| 0 <= t < k + 1 && spec_matching_plan(cut, records@[t], 0) == Some(x));
                }
            }
        }
        k += 1;
    }
    out
}

/// The source faces of the first `n` faces that a fill appended, skipping
/// the fills in `materialized`.
pub open spec fn fill_appended_upto(cut: &ExactCutHoleFillResult, materialized: Set<usize>, n: int) -> Seq<usize>
    decreases n,
{
    if n <= 0 {
        Seq::empty()
    } else {
        match spec_fill_plan_of((n - 1) as usize, cut.added_face_ranges@, 0) {
            Some(q) => if !materialized.contains(q) {
                fill_appended_upto(cut, materialized, n - 1).push(cut.mesh.source_face_for_faces@[n - 1])
            } else {
                fill_appended_upto(cut, materialized, n - 1)
            },
            None => fill_appended_upto(cut, materialized, n - 1),
        }
    }
}

/// The source faces of the faces that the final fill appended, that is
/// of the fills not in `materialized_prefill_fill_plans`.
pub fn fill_appended_source_face_sequence(cut: &ExactCutHoleFillResult, materialized_prefill_fill_plans: &Vec<usize>) -> (out: Vec<usize>)
    ensures
        out@ == fill_appended_upto(cut, materialized_prefill_fill_plans@.to_set(), cut.mesh.source_face_for_faces@.len() as int),
{
    let faces = &cut.mesh.source_face_for_faces;
    let mut out: Vec<usize> = Vec::new();
    let mut f: usize = 0;
    while f < faces.len()
        invariant
            f <= faces@.len(),
            faces@ == cut.mesh.source_face_for_faces@,
            out@ == fill_appended_upto(cut, materialized_prefill_fill_plans@.to_set(), f as int),
        decreases faces.len() - f,
    {
        let plan = added_fill_plan_index(f, &cut.added_face_ranges);
        proof {
            assert(((f as int + 1) - 1) as usize == f);
            assert(fill_appended_upto(cut, materialized_prefill_fill_plans@.to_set(), f as int + 1) == match plan {
                Some(q) => if !materialized_prefill_fill_plans@.to_set().contains(q) {
                    fill_appended_upto(cut, materialized_prefill_fill_plans@.to_set(), f as int).push(faces@[f as int])
                } else {
                    fill_appended_upto(cut, materialized_prefill_fill_plans@.to_set(), f as int)
                },
                None => fill_appended_upto(cut, materialized_prefill_fill_plans@.to_set(), f as int),
            });
        }
        if let Some(q) = plan {
            if !contains_index(materialized_prefill_fill_plans, q) {
                out.push(faces[f]);
            }
        }
        f += 1;
    }
    out
}

/// The source faces of the first `n` faces that no fill appended.
pub open spec fn unfilled_sources_upto(cut: &ExactCutHoleFillResult, n: int) -> Seq<usize>
    decreases n,
{
    if n <= 0 {
        Seq::empty()
    } else if spec_fill_plan_of((n - 1) as usize, cut.added_face_ranges@, 0) is None {
        unfilled_sources_upto(cut, n - 1).push(cut.mesh.source_face_for_faces@[n - 1])
    } else {
        unfilled_sources_upto(cut, n - 1)
    }
}

/// The records that splitting appended: the cut events when there are any,
/// else the faces no fill appended, beyond each prepared face's first.
pub open spec fn spec_split_appended(cut: &ExactCutHoleFillResult, original: int) -> Seq<usize> {
    let events = event_faces(cut.mesh.cut_face_source_events@);
    if events.len() > 0 {
        after_prepared(events, original)
    } else {
        after_prepared(unfilled_sources_upto(cut, cut.mesh.source_face_for_faces@.len() as int), original)
    }
}

/// The source records that splitting appended after the prepared faces.
pub fn split_appended_source_face_sequence(cut: &ExactCutHoleFillResult, original_source_faces: usize) -> (out: Vec<usize>)
    ensures
        out@ == spec_split_appended(cut, original_source_faces as int),
{
    let events = cut_event_source_face_sequence(cut);
    if events.len() > 0 {
        return duplicate_source_records_after_prepared(&events, original_source_faces);
    }
    let faces = &cut.mesh.source_face_for_faces;
    let mut unfilled: Vec<usize> = Vec::new();
    let mut f: usize = 0;
    while f < faces.len()
        invariant
            f <= faces@.len(),
            faces@ == cut.mesh.source_face_for_faces@,
            unfilled@ == unfilled_sources_upto(cut, f as int),
        decreases faces.len() - f,
    {
        let added = added_face_index(f, &cut.added_face_ranges);
        proof {
            assert(((f as int + 1) - 1) as usize == f);
            assert(unfilled_sources_upto(cut, f as int + 1) == if !added {
                unfilled_sources_upto(cut, f as int).push(faces@[f as int])
            } else {
                unfilled_sources_upto(cut, f as int)
            });
        }
        if !added {
            unfilled.push(faces[f]);
        }
        f += 1;
    }
    duplicate_source_records_after_prepared(&unfilled, original_source_faces)
}

/// The split and final-fill source records appended after the prepared faces.
pub fn appended_stage_source_face_sequences(
    cut: &ExactCutHoleFillResult,
    original_source_faces: usize,
    materialized_prefill_fill_plans: &Vec<usize>,
) -> (out: (Vec<usize>, Vec<usize>))
    ensures
        out.0@ == spec_split_appended(cut, original_source_faces as int),
        out.1@ == fill_appended_upto(cut, materialized_prefill_fill_plans@.to_set(), cut.mesh.source_face_for_faces@.len() as int),
{
    let split = split_appended_source_face_sequence(cut, original_source_faces);
    let fill = fill_appended_source_face_sequence(cut, materialized_prefill_fill_plans);
    (split, fill)
}

/// Whether some record of the cut names source face `v`: a face, a cut
/// path or collapsed cut segment, or a fill plan.
pub open spec fn recorded_source(cut: &ExactCutHoleFillResult, v: usize) -> bool {
    let mesh = &cut.mesh;
    ||| mesh.source_face_for_faces@.contains(v)
    ||| exists|p: int, k: int|
        0 <= p < mesh.cut_edge_path_source_faces@.len() && 0 <= k < mesh.cut_edge_path_source_faces@[p]@.len()
            && #[trigger] mesh.cut_edge_path_source_faces@[p]@[k] == Some(v)
    ||| exists|p: int, k: int|
        0 <= p < mesh.collapsed_cut_segment_path_source_faces@.len() && 0 <= k
            < mesh.collapsed_cut_segment_path_source_faces@[p]@.len()
            && #[trigger] mesh.collapsed_cut_segment_path_source_faces@[p]@[k] == Some(v)
    ||| exists|q: int| 0 <= q < cut.fill_plans@.len() && #[trigger] cut.fill_plans@[q].source_face == v
    ||| exists|q: int, k: int|
        0 <= q < cut.fill_plans@.len() && 0 <= k < cut.fill_plans@[q].source_face_for_faces@.len()
            && #[trigger] cut.fill_plans@[q].source_face_for_faces@[k] == v
}

/// At least `v + 1`.
fn raised(best: usize, v: usize) -> (out: usize)
    requires
        v < usize::MAX,
    ensures
        out == (if best > v { best } else { (v + 1) as usize }),
{
    if best > v {
        best
    } else {
        v + 1
    }
}

/// The largest source face named by any optional record in `paths`, plus
/// one, or `best` when that is larger.
fn raised_by_paths(best: usize, paths: &Vec<Vec<Option<usize>>>) -> (out: usize)
    requires
        forall|p: int, k: int|
            0 <= p < paths@.len() && 0 <= k < paths@[p]@.len() ==> #[trigger] paths@[p]@[k] != Some(usize::MAX),
    ensures
        out >= best,
        forall|p: int, k: int|
            0 <= p < paths@.len() && 0 <= k < paths@[p]@.len() && (#[trigger] paths@[p]@[k]) is Some ==> paths@[p]@[k]->0 < out,
        out == best || exists|p: int, k: int|
            0 <= p < paths@.len() && 0 <= k < paths@[p]@.len() && #[trigger] paths@[p]@[k] == Some((out - 1) as usize),
{
    let mut out = best;
    let mut p: usize = 0;
    while p < paths.len()
        invariant
            p <= paths@.len(),
            out >= best,
            forall|p: int, k: int|
                0 <= p < paths@.len() && 0 <= k < paths@[p]@.len() ==> #[trigger] paths@[p]@[k] != Some(usize::MAX),
            forall|a: int, k: int|
                0 <= a < p && 0 <= k < paths@[a]@.len() && (#[trigger] paths@[a]@[k]) is Some ==> paths@[a]@[k]->0 < out,
            out == best || exists|a: int, k: int|
                0 <= a < paths@.len() && 0 <= k < paths@[a]@.len() && #[trigger] paths@[a]@[k] == Some((out - 1) as usize),
        decreases paths.len() - p,
    {
        let path = &paths[p];
        let mut k: usize = 0;
        while k < path.len()
            invariant
                p < paths@.len(),
                path@ == paths@[p as int]@,
                k <= path@.len(),
                out >= best,
                forall|p: int, k: int|
                    0 <= p < paths@.len() && 0 <= k < paths@[p]@.len() ==> #[trigger] paths@[p]@[k] != Some(usize::MAX),
                forall|a: int, j: int|
                    0 <= a < p && 0 <= j < paths@[a]@.len() && (#[trigger] paths@[a]@[j]) is Some ==> paths@[a]@[j]->0 < out,
                forall|j: int| 0 <= j < k && (#[trigger] path@[j]) is Some ==> path@[j]->0 < out,
                out == best || exists|a: int, j: int|
                    0 <= a < paths@.len() && 0 <= j < paths@[a]@.len() && #[trigger] paths@[a]@[j] == Some((out - 1) as usize),
            decreases path.len() - k,
        {
            if let Some(v) = path[k] {
                proof {
                    assert(paths@[p as int]@[k as int] == Some(v));
                }
                out = raised(out, v);
            }
            k += 1;
        }
        proof {
            assert forall|a: int, j: int|
                0 <= a < p + 1 && 0 <= j < paths@[a]@.len() && (#[trigger] paths@[a]@[j]) is Some implies paths@[a]@[j]->0 < out by {
                if a == p {
                    assert(path@[j] == paths@[a]@[j]);
                }
            }
        }
        p += 1;
    }
    out
}

/// The largest source face in `faces`, plus one, or `best` when that is larger.
fn raised_by_faces(best: usize, faces: &Vec<usize>) -> (out: usize)
    requires
        !faces@.contains(usize::MAX),
    ensures
        out >= best,
        forall|k: int| 0 <= k < faces@.len() ==> #[trigger] faces@[k] < out,
        out == best || faces@.contains((out - 1) as usize),
{
    let mut out = best;
    let mut k: usize = 0;
    while k < faces.len()
        invariant
            k <= faces@.len(),
            !faces@.contains(usize::MAX),
            out >= best,
            forall|j: int| 0 <= j < k ==> #[trigger] faces@[j] < out,
            out == best || faces@.contains((out - 1) as usize),
        decreases faces.len() - k,
    {
        let v = faces[k];
        proof {
            assert(faces@[k as int] == v);
        }
        out = raised(out, v);
        k += 1;
    }
    out
}

/// One more than the largest source face any record of the cut names, or
/// zero when none does: how many source faces the uncut mesh had.
pub fn inferred_original_source_face_count(cut: &ExactCutHoleFillResult) -> (out: usize)
    requires
        !recorded_source(cut, usize::MAX),
    ensures
        forall|v: usize| recorded_source(cut, v) ==> v < out,
        out == 0 || recorded_source(cut, (out - 1) as usize),
{
    let mesh = &cut.mesh;
    proof {
        assert forall|p: int, k: int|
            0 <= p < mesh.cut_edge_path_source_faces@.len() && 0 <= k < mesh.cut_edge_path_source_faces@[p]@.len()
                implies #[trigger] mesh.cut_edge_path_source_faces@[p]@[k] != Some(usize::MAX) by {}
        assert forall|p: int, k: int|
            0 <= p < mesh.collapsed_cut_segment_path_source_faces@.len() && 0 <= k
                < mesh.collapsed_cut_segment_path_source_faces@[p]@.len()
                implies #[trigger] mesh.collapsed_cut_segment_path_source_faces@[p]@[k] != Some(usize::MAX) by {}
    }
    let mut out = raised_by_faces(0, &mesh.source_face_for_faces);
    out = raised_by_paths(out, &mesh.cut_edge_path_source_faces);
    out = raised_by_paths(out, &mesh.collapsed_cut_segment_path_source_faces);
    let ghost before_plans = out;
    let mut q: usize = 0;
    while q < cut.fill_plans.len()
        invariant
            q <= cut.fill_plans@.len(),
            !recorded_source(cut, usize::MAX),
            out >= before_plans,
            forall|v: usize| mesh.source_face_for_faces@.contains(v) ==> v < before_plans,
            forall|p: int, k: int|
                0 <= p < mesh.cut_edge_path_source_faces@.len() && 0 <= k < mesh.cut_edge_path_source_faces@[p]@.len()
                    && (#[trigger] mesh.cut_edge_path_source_faces@[p]@[k]) is Some
                    ==> mesh.cut_edge_path_source_faces@[p]@[k]->0 < before_plans,
            forall|p: int, k: int|
                0 <= p < mesh.collapsed_cut_segment_path_source_faces@.len() && 0 <= k
                    < mesh.collapsed_cut_segment_path_source_faces@[p]@.len()
                    && (#[trigger] mesh.collapsed_cut_segment_path_source_faces@[p]@[k]) is Some
                    ==> mesh.collapsed_cut_segment_path_source_faces@[p]@[k]->0 < before_plans,
            forall|a: int| 0 <= a < q ==> #[trigger] cut.fill_plans@[a].source_face < out,
            forall|a: int, k: int|
                0 <= a < q && 0 <= k < cut.fill_plans@[a].source_face_for_faces@.len()
                    ==> #[trigger] cut.fill_plans@[a].source_face_for_faces@[k] < out,
            out == 0 || recorded_source(cut, (out - 1) as usize),
        decreases cut.fill_plans.len() - q,
    {
        let plan = &cut.fill_plans[q];
        proof {
            assert(cut.fill_plans@[q as int].source_face == plan.source_face);
            assert forall|k: int| 0 <= k < plan.source_face_for_faces@.len() implies plan.source_face_for_faces@[k] != usize::MAX by {
                assert(cut.fill_plans@[q as int].source_face_for_faces@[k] == plan.source_face_for_faces@[k]);
            }
        }
        let ghost mid0 = out;
        out = raised(out, plan.source_face);
        proof {
            assert(plan.source_face_for_faces@.contains(usize::MAX) ==> false) by {
                if plan.source_face_for_faces@.contains(usize::MAX) {
                    let k = choose|k: int| 0 <= k < plan.source_face_for_faces@.len() && plan.source_face_for_faces@[k] == usize::MAX;
                    assert(cut.fill_plans@[q as int].source_face_for_faces@[k] == usize::MAX);
                }
            }
        }
        let ghost mid = out;
        out = raised_by_faces(out, &plan.source_face_for_faces);
        proof {
            if out != mid {
                let v = (out - 1) as usize;
                let k = choose|k: int| 0 <= k < plan.source_face_for_faces@.len() && plan.source_face_for_faces@[k] == v;
                assert(cut.fill_plans@[q as int].source_face_for_faces@[k] == v);
            } else if mid != mid0 {
                assert(cut.fill_plans@[q as int].source_face == (mid - 1) as usize);
            }
        }
        q += 1;
    }
    proof {
        assert forall|v: usize| recorded_source(cut, v) implies v < out by {
            if mesh.source_face_for_faces@.contains(v) {
            } else if exists|p: int, k: int|
                0 <= p < mesh.cut_edge_path_source_faces@.len() && 0 <= k < mesh.cut_edge_path_source_faces@[p]@.len()
                    && #[trigger] mesh.cut_edge_path_source_faces@[p]@[k] == Some(v) {
                let (p, k) = choose|p: int, k: int|
                    0 <= p < mesh.cut_edge_path_source_faces@.len() && 0 <= k < mesh.cut_edge_path_source_faces@[p]@.len()
                        && #[trigger] mesh.cut_edge_path_source_faces@[p]@[k] == Some(v);
            } else if exists|p: int, k: int|
                0 <= p < mesh.collapsed_cut_segment_path_source_faces@.len() && 0 <= k
                    < mesh.collapsed_cut_segment_path_source_faces@[p]@.len()
                    && #[trigger] mesh.collapsed_cut_segment_path_source_faces@[p]@[k] == Some(v) {
                let (p, k) = choose|p: int, k: int|
                    0 <= p < mesh.collapsed_cut_segment_path_source_faces@.len() && 0 <= k
                        < mesh.collapsed_cut_segment_path_source_faces@[p]@.len()
                        && #[trigger] mesh.collapsed_cut_segment_path_source_faces@[p]@[k] == Some(v);
            } else if exists|a: int| 0 <= a < cut.fill_plans@.len() && #[trigger] cut.fill_plans@[a].source_face == v {
                let a = choose|a: int| 0 <= a < cut.fill_plans@.len() && #[trigger] cut.fill_plans@[a].source_face == v;
            } else {
                let (a, k) = choose|a: int, k: int|
                    0 <= a < cut.fill_plans@.len() && 0 <= k < cut.fill_plans@[a].source_face_for_faces@.len()
                        && #[trigger] cut.fill_plans@[a].source_face_for_faces@[k] == v;
            }
        }
    }
    out
}

/// `[path_index, source_face]` of each record.
pub open spec fn details_of(records: Seq<MeshlibPrefillRepairRecord>) -> Seq<[usize; 2]> {
    records.map_values(|r: MeshlibPrefillRepairRecord| [r.path_index, r.source_face])
}

/// The source face of each record.
pub open spec fn faces_of(records: Seq<MeshlibPrefillRepairRecord>) -> Seq<usize> {
    records.map_values(|r: MeshlibPrefillRepairRecord| r.source_face)
}

/// The records of one kind, in order.
pub open spec fn of_kind(records: Seq<MeshlibPrefillRepairRecord>, kind: MeshlibPrefillRepairKind) -> Seq<MeshlibPrefillRepairRecord>
    decreases records.len(),
{
    if records.len() == 0 {
        Seq::empty()
    } else if records.last().kind == kind {
        of_kind(records.drop_last(), kind).push(records.last())
    } else {
        of_kind(records.drop_last(), kind)
    }
}

/// The records of one kind, in order.
fn records_of_kind(records: &Vec<MeshlibPrefillRepairRecord>, kind: MeshlibPrefillRepairKind) -> (out: Vec<MeshlibPrefillRepairRecord>)
    ensures
        out@ == of_kind(records@, kind),
{
    let mut out: Vec<MeshlibPrefillRepairRecord> = Vec::new();
    let mut i: usize = 0;
    while i < records.len()
        invariant
            i <= records@.len(),
            out@ == of_kind(records@.subrange(0, i as int), kind),
        decreases records.len() - i,
    {
        proof {
            assert(records@.subrange(0, i as int + 1).drop_last() =~= records@.subrange(0, i as int));
        }
        if records[i].kind == kind {
            out.push(records[i]);
        }
        i += 1;
    }
    proof {
        assert(records@.subrange(0, records@.len() as int) =~= records@);
    }
    out
}

/// `[path_index, source_face]` of each record.
fn record_details(records: &Vec<MeshlibPrefillRepairRecord>) -> (out: Vec<[usize; 2]>)
    ensures
        out@ == details_of(records@),
{
    let mut out: Vec<[usize; 2]> = Vec::new();
    let mut i: usize = 0;
    while i < records.len()
        invariant
            i <= records@.len(),
            out@ == details_of(records@.subrange(0, i as int)),
        decreases records.len() - i,
    {
        out.push([records[i].path_index, records[i].source_face]);
        proof {
            assert(details_of(records@.subrange(0, i as int + 1)) =~= details_of(records@.subrange(0, i as int)).push(
                [records@[i as int].path_index, records@[i as int].source_face],
            ));
        }
        i += 1;
    }
    proof {
        assert(records@.subrange(0, records@.len() as int) =~= records@);
    }
    out
}

/// The source face of each record.
fn record_source_faces(records: &Vec<MeshlibPrefillRepairRecord>) -> (out: Vec<usize>)
    ensures
        out@ == faces_of(records@),
{
    let mut out: Vec<usize> = Vec::new();
    let mut i: usize = 0;
    while i < records.len()
        invariant
            i <= records@.len(),
            out@ == faces_of(records@.subrange(0, i as int)),
        decreases records.len() - i,
    {
        out.push(records[i].source_face);
        proof {
            assert(faces_of(records@.subrange(0, i as int + 1)) =~= faces_of(records@.subrange(0, i as int)).push(
                records@[i as int].source_face,
            ));
        }
        i += 1;
    }
    proof {
        assert(records@.subrange(0, records@.len() as int) =~= records@);
    }
    out
}

/// Appends every item of `items` to `out`.
fn push_all(out: &mut Vec<usize>, items: &Vec<usize>)
    ensures
        final(out)@ == old(out)@ + items@,
{
    let mut i: usize = 0;
    while i < items.len()
        invariant
            i <= items@.len(),
            out@ == old(out)@ + items@.subrange(0, i as int),
        decreases items.len() - i,
    {
        out.push(items[i]);
        proof {
            assert(old(out)@ + items@.subrange(0, i as int + 1) =~= (old(out)@ + items@.subrange(0, i as int)).push(
                items@[i as int],
            ));
        }
        i += 1;
    }
    proof {
        assert(items@.subrange(0, items@.len() as int) =~= items@);
    }
}

/// Whether `n` is one more than the largest source face the cut records,
/// or zero when it records none.
pub open spec fn is_original_count(cut: &ExactCutHoleFillResult, n: int) -> bool {
    &&& forall|v: usize| recorded_source(cut, v) ==> v < n
    &&& n == 0 || (n > 0 && recorded_source(cut, (n - 1) as usize))
}

/// The prefill repairs of a cut.
pub open spec fn spec_prefill_records(cut: &ExactCutHoleFillResult) -> Seq<MeshlibPrefillRepairRecord> {
    prefill_records_upto(&cut.mesh, zipped_path_count(&cut.mesh))
}

/// The fill plans that restore a prefill repair.
pub open spec fn materialized_set(cut: &ExactCutHoleFillResult) -> Set<usize> {
    let records = spec_prefill_records(cut);
    Set::new(|q: usize| exists|k: int| 0 <= k < records.len() && spec_matching_plan(cut, records[k], 0) == Some(q))
}

/// `a - b`, or zero when `b` is larger.
pub open spec fn sat_sub(a: int, b: int) -> int {
    if a >= b {
        a - b
    } else {
        0
    }
}

/// The inventory of the cut's source records: the prepared source faces
/// `0..original`, then what splitting appended, the prefill repairs, and
/// the final fill's faces, with counts and runs of each.
pub open spec fn shadow_inventory_ok(cut: &ExactCutHoleFillResult, inv: &MeshlibCut2OriginShadowInventory) -> bool {
    let records = spec_prefill_records(cut);
    let original = inv.source_face_sequence@.len() - inv.appended_source_face_sequence@.len();
    let split = spec_split_appended(cut, original);
    let fill = fill_appended_upto(cut, materialized_set(cut), cut.mesh.source_face_for_faces@.len() as int);
    let open_edge = of_kind(records, MeshlibPrefillRepairKind::OpenEdgeRestoration);
    let orphan = of_kind(records, MeshlibPrefillRepairKind::OrphanRepair);
    &&& is_original_count(cut, original)
    &&& inv.split_appended_source_face_sequence@ == split
    &&& inv.cut_event_source_face_sequence@ == event_faces(cut.mesh.cut_face_source_events@)
    &&& inv.split_event_source_face_sequence@ == split_event_faces(cut.mesh.cut_face_source_events@)
    &&& inv.prefill_repair_record_details@ == details_of(records)
    &&& inv.open_edge_restoration_record_details@ == details_of(open_edge)
    &&& inv.orphan_repair_record_details@ == details_of(orphan)
    &&& inv.prefill_repair_source_face_sequence@ == faces_of(records)
    &&& inv.open_edge_restoration_source_face_sequence@ == faces_of(open_edge)
    &&& inv.orphan_repair_source_face_sequence@ == faces_of(orphan)
    &&& inv.fill_appended_source_face_sequence@ == fill
    &&& inv.appended_source_face_sequence@ == split + faces_of(records) + fill
    &&& inv.source_face_sequence@ == Seq::new(original as nat, |i: int| i as usize) + inv.appended_source_face_sequence@
    &&& counts_of(inv.source_face_sequence@, inv.source_face_counts@)
    &&& decode_runs(inv.source_face_runs@) == inv.source_face_sequence@
    &&& runs_canonical(inv.source_face_runs@)
    &&& decode_runs(inv.appended_source_face_runs@) == inv.appended_source_face_sequence@
    &&& runs_canonical(inv.appended_source_face_runs@)
    &&& inv.source_records == inv.source_face_sequence@.len()
    &&& inv.unique_source_faces == inv.source_face_counts@.len()
    &&& inv.duplicate_source_records == sat_sub(inv.source_records as int, inv.unique_source_faces as int)
    &&& inv.split_source_records == split.len()
    &&& inv.cut_event_source_records == inv.cut_event_source_face_sequence@.len()
    &&& inv.split_event_source_records == inv.split_event_source_face_sequence@.len()
    &&& inv.prefill_repair_source_records == records.len()
    &&& inv.open_edge_restoration_source_records == open_edge.len()
    &&& inv.orphan_repair_source_records == orphan.len()
    &&& inv.fill_source_records == fill.len()
}

/// The inventory of where each source record of a cut and filled mesh comes
/// from, laid out as the cut made them: the prepared source faces in order,
/// then what splitting appended, the prefill repairs, and the final fill.
pub fn meshlib_cut2origin_shadow_inventory(cut: &ExactCutHoleFillResult) -> (inv: MeshlibCut2OriginShadowInventory)
    requires
        !recorded_source(cut, usize::MAX),
    ensures
        shadow_inventory_ok(cut, &inv),
{
    let original = inferred_original_source_face_count(cut);
    let cut_events = cut_event_source_face_sequence(cut);
    let split_events = split_event_source_face_sequence(cut);
    let records = meshlib_prefill_repair_records(cut);
    let materialized = materialized_prefill_fill_plan_indices(cut, &records);
    proof {
        assert(materialized@.to_set() =~= materialized_set(cut));
    }
    let (split, fill) = appended_stage_source_face_sequences(cut, original, &materialized);
    let open_edge = records_of_kind(&records, MeshlibPrefillRepairKind::OpenEdgeRestoration);
    let orphan = records_of_kind(&records, MeshlibPrefillRepairKind::OrphanRepair);
    let details = record_details(&records);
    let open_edge_details = record_details(&open_edge);
    let orphan_details = record_details(&orphan);
    let prefill_faces = record_source_faces(&records);
    let open_edge_faces = record_source_faces(&open_edge);
    let orphan_faces = record_source_faces(&orphan);
    let mut appended: Vec<usize> = Vec::new();
    push_all(&mut appended, &split);
    push_all(&mut appended, &prefill_faces);
    push_all(&mut appended, &fill);
    let mut sequence: Vec<usize> = Vec::new();
    let mut f: usize = 0;
    while f < original
        invariant
            f <= original,
            sequence@ == Seq::new(f as nat, |i: int| i as usize),
        decreases original - f,
    {
        sequence.push(f);
        proof {
            assert(sequence@ =~= Seq::new((f + 1) as nat, |i: int| i as usize));
        }
        f += 1;
    }
    push_all(&mut sequence, &appended);
    let counts = source_face_counts(&sequence);
    let runs = source_face_runs(&sequence);
    let appended_runs = source_face_runs(&appended);
    let source_records = sequence.len();
    let unique = counts.len();
    let inv = MeshlibCut2OriginShadowInventory {
        source_records,
        unique_source_faces: unique,
        duplicate_source_records: source_records.saturating_sub(unique),
        split_source_records: split.len(),
        cut_event_source_records: cut_events.len(),
        split_event_source_records: split_events.len(),
        prefill_repair_source_records: prefill_faces.len(),
        open_edge_restoration_source_records: open_edge_faces.len(),
        orphan_repair_source_records: orphan_faces.len(),
        fill_source_records: fill.len(),
        source_face_counts: counts,
        source_face_runs: runs,
        appended_source_face_runs: appended_runs,
        prefill_repair_record_details: details,
        open_edge_restoration_record_details: open_edge_details,
        orphan_repair_record_details: orphan_details,
        source_face_sequence: sequence,
        appended_source_face_sequence: appended,
        split_appended_source_face_sequence: split,
        cut_event_source_face_sequence: cut_events,
        split_event_source_face_sequence: split_events,
        prefill_repair_source_face_sequence: prefill_faces,
        open_edge_restoration_source_face_sequence: open_edge_faces,
        orphan_repair_source_face_sequence: orphan_faces,
        fill_appended_source_face_sequence: fill,
    };
    proof {
        assert(inv.source_face_sequence@.len() - inv.appended_source_face_sequence@.len() == original);
    }
    inv
}

/// How many of the first `n` positions hold the same value in `a` and `b`.
pub open spec fn matches_upto(a: Seq<usize>, b: Seq<usize>, n: int) -> nat
    decreases n,
{
    if n <= 0 {
        0
    } else {
        matches_upto(a, b, n - 1) + (if a[n - 1] == b[n - 1] { 1nat } else { 0nat })
    }
}

/// `[position, a's value, b's value]` of each of the first `n` positions
/// where `a` and `b` differ.
pub open spec fn mismatches_upto(a: Seq<usize>, b: Seq<usize>, n: int) -> Seq<[usize; 3]>
    decreases n,
{
    if n <= 0 {
        Seq::empty()
    } else if a[n - 1] != b[n - 1] {
        mismatches_upto(a, b, n - 1).push([(n - 1) as usize, a[n - 1], b[n - 1]])
    } else {
        mismatches_upto(a, b, n - 1)
    }
}

/// The records of `target` from position `start` on, or none when `start`
/// is past its end.
pub open spec fn tail_from(target: Seq<usize>, start: int) -> Seq<usize> {
    if start <= target.len() {
        target.subrange(start, target.len() as int)
    } else {
        Seq::empty()
    }
}

/// The comparison of the first wanted sequence of source records with the
/// materialized one; with no wanted sequence, an empty report that is not
/// ready.
pub open spec fn owner_remap_ok(
    materialized: &MeshlibCut2OriginShadowInventory,
    paths: Seq<Vec<usize>>,
    d: &MeshlibCut2OriginOwnerRemapDiagnostics,
) -> bool {
    if paths.len() == 0 {
        &&& !d.ready
        &&& d.source_records == 0
        &&& d.matching_source_records == 0
        &&& d.mismatched_source_records == 0
        &&& d.missing_materialized_source_records == 0
        &&& d.extra_materialized_source_records == 0
        &&& d.mismatch_details@.len() == 0
        &&& d.source_face_sequence@.len() == 0
        &&& d.appended_source_face_sequence@.len() == 0
        &&& d.source_face_counts@.len() == 0
        &&& d.source_face_runs@.len() == 0
        &&& d.appended_source_face_runs@.len() == 0
    } else {
        let target = paths[0]@;
        let seq = materialized.source_face_sequence@;
        let prepared = sat_sub(seq.len() as int, materialized.appended_source_face_sequence@.len() as int);
        let common = if seq.len() <= target.len() { seq.len() as int } else { target.len() as int };
        &&& d.ready == (target.len() == seq.len() && target.len() > 0)
        &&& d.source_records == target.len()
        &&& d.matching_source_records == matches_upto(seq, target, common)
        &&& d.mismatch_details@ == mismatches_upto(seq, target, common)
        &&& d.mismatched_source_records == d.mismatch_details@.len()
        &&& d.missing_materialized_source_records == sat_sub(target.len() as int, seq.len() as int)
        &&& d.extra_materialized_source_records == sat_sub(seq.len() as int, target.len() as int)
        &&& d.source_face_sequence@ == target
        &&& d.appended_source_face_sequence@ == tail_from(target, prepared)
        &&& counts_of(target, d.source_face_counts@)
        &&& decode_runs(d.source_face_runs@) == target
        &&& runs_canonical(d.source_face_runs@)
        &&& decode_runs(d.appended_source_face_runs@) == d.appended_source_face_sequence@
        &&& runs_canonical(d.appended_source_face_runs@)
    }
}

/// Compares the first wanted sequence of source records in
/// `source_preserving_paths` with the one that cut and fill materialized:
/// which positions match, which differ, and what the wanted sequence
/// appends after the prepared records.
pub fn meshlib_cut2origin_owner_remap_diagnostics(
    materialized: &MeshlibCut2OriginShadowInventory,
    source_preserving_paths: &Vec<Vec<usize>>,
) -> (d: MeshlibCut2OriginOwnerRemapDiagnostics)
    ensures
        owner_remap_ok(materialized, source_preserving_paths@, &d),
{
    if source_preserving_paths.len() == 0 {
        return MeshlibCut2OriginOwnerRemapDiagnostics {
            ready: false,
            source_records: 0,
            matching_source_records: 0,
            mismatched_source_records: 0,
            missing_materialized_source_records: 0,
            extra_materialized_source_records: 0,
            mismatch_details: Vec::new(),
            source_face_sequence: Vec::new(),
            appended_source_face_sequence: Vec::new(),
            source_face_counts: Vec::new(),
            source_face_runs: Vec::new(),
            appended_source_face_runs: Vec::new(),
        };
    }
    let target = &source_preserving_paths[0];
    let seq = &materialized.source_face_sequence;
    let prepared = seq.len().saturating_sub(materialized.appended_source_face_sequence.len());
    let common = if seq.len() <= target.len() {
        seq.len()
    } else {
        target.len()
    };
    let mut matching: usize = 0;
    let mut details: Vec<[usize; 3]> = Vec::new();
    let mut i: usize = 0;
    while i < common
        invariant
            common <= seq@.len(),
            common <= target@.len(),
            i <= common,
            matching <= i,
            matching == matches_upto(seq@, target@, i as int),
            details@ == mismatches_upto(seq@, target@, i as int),
        decreases common - i,
    {
        if seq[i] == target[i] {
            matching += 1;
        } else {
            details.push([i, seq[i], target[i]]);
        }
        i += 1;
    }
    let mut appended: Vec<usize> = Vec::new();
    if prepared <= target.len() {
        let mut k: usize = prepared;
        while k < target.len()
            invariant
                prepared <= k <= target@.len(),
                appended@ == target@.subrange(prepared as int, k as int),
            decreases target.len() - k,
        {
            appended.push(target[k]);
            proof {
                assert(appended@ =~= target@.subrange(prepared as int, k as int + 1));
            }
            k += 1;
        }
    }
    let source_records = target.len();
    let mut sequence: Vec<usize> = Vec::new();
    push_all(&mut sequence, target);
    proof {
        assert(sequence@ =~= target@);
    }
    let counts = source_face_counts(target);
    let runs = source_face_runs(target);
    let appended_runs = source_face_runs(&appended);
    let mismatched = details.len();
    MeshlibCut2OriginOwnerRemapDiagnostics {
        ready: source_records == seq.len() && source_records > 0,
        source_records,
        matching_source_records: matching,
        mismatched_source_records: mismatched,
        missing_materialized_source_records: source_records.saturating_sub(seq.len()),
        extra_materialized_source_records: seq.len().saturating_sub(source_records),
        mismatch_details: details,
        source_face_sequence: sequence,
        appended_source_face_sequence: appended,
        source_face_counts: counts,
        source_face_runs: runs,
        appended_source_face_runs: appended_runs,
    }
}

/// A copy of `v`.
pub(crate) fn copy_items<T: Copy>(v: &Vec<T>) -> (out: Vec<T>)
    ensures
        out@ == v@,
{
    let mut out: Vec<T> = Vec::new();
    let mut i: usize = 0;
    while i < v.len()
        invariant
            i <= v@.len(),
            out@ == v@.subrange(0, i as int),
        decreases v.len() - i,
    {
        out.push(v[i]);
        proof {
            assert(out@ =~= v@.subrange(0, i as int + 1));
        }
        i += 1;
    }
    proof {
        assert(v@.subrange(0, v@.len() as int) =~= v@);
    }
    out
}

/// A copy of each list in `v`.
pub(crate) fn copy_lists<T: Copy>(v: &Vec<Vec<T>>) -> (out: Vec<Vec<T>>)
    ensures
        out@.len() == v@.len(),
        forall|i: int| 0 <= i < v@.len() ==> (#[trigger] out@[i])@ == v@[i]@,
{
    let mut out: Vec<Vec<T>> = Vec::new();
    let mut i: usize = 0;
    while i < v.len()
        invariant
            i <= v@.len(),
            out@.len() == i,
            forall|j: int| 0 <= j < i ==> (#[trigger] out@[j])@ == v@[j]@,
        decreases v.len() - i,
    {
        out.push(copy_items(&v[i]));
        i += 1;
    }
    out
}

/// `a` and `b` hold the same faces, cut edges, cut paths, collapsed
/// segments and cut events.
pub open spec fn same_path_records(a: &ExactCutMeshRecords, b: &ExactCutMeshRecords) -> bool {
    &&& a.faces@ == b.faces@
    &&& a.cut_edges@ == b.cut_edges@
    &&& a.cut_edge_paths@.len() == b.cut_edge_paths@.len()
    &&& forall|i: int| 0 <= i < a.cut_edge_paths@.len() ==> (#[trigger] a.cut_edge_paths@[i])@ == b.cut_edge_paths@[i]@
    &&& a.cut_edge_path_closed@ == b.cut_edge_path_closed@
    &&& a.cut_edge_path_source_faces@.len() == b.cut_edge_path_source_faces@.len()
    &&& forall|i: int|
        0 <= i < a.cut_edge_path_source_faces@.len() ==> (#[trigger] a.cut_edge_path_source_faces@[i])@
            == b.cut_edge_path_source_faces@[i]@
    &&& a.collapsed_cut_segment_path_source_faces@.len() == b.collapsed_cut_segment_path_source_faces@.len()
    &&& forall|i: int|
        0 <= i < a.collapsed_cut_segment_path_source_faces@.len() ==> (#[trigger] a.collapsed_cut_segment_path_source_faces@[i])@
            == b.collapsed_cut_segment_path_source_faces@[i]@
    &&& a.cut_face_source_events@ == b.cut_face_source_events@
}

/// Whether the cut can take `paths`' first sequence as its source records:
/// it has one record per face, and each fill plan's face range lies in it.
pub open spec fn remap_possible(cut: &ExactCutHoleFillResult, paths: Seq<Vec<usize>>) -> bool {
    &&& paths.len() > 0
    &&& paths[0]@.len() == cut.mesh.source_face_for_faces@.len()
    &&& cut.fill_plans@.len() <= cut.added_face_ranges@.len()
    &&& forall|q: int|
        0 <= q < cut.fill_plans@.len() ==> (#[trigger] cut.added_face_ranges@[q])[0] <= cut.added_face_ranges@[q][1]
            <= paths[0]@.len()
}

/// `r` is `cut` with `target` as the source record of every face, and each
/// fill plan's records taken from its face range of `target`.
pub open spec fn remapped_ok(cut: &ExactCutHoleFillResult, target: Seq<usize>, r: &ExactCutHoleFillResult) -> bool {
    &&& same_path_records(&r.mesh, &cut.mesh)
    &&& r.mesh.source_face_for_faces@ == target
    &&& r.added_face_ranges@ == cut.added_face_ranges@
    &&& r.fill_plans@.len() == cut.fill_plans@.len()
    &&& forall|q: int|
        0 <= q < cut.fill_plans@.len() ==> {
            let old_plan = cut.fill_plans@[q];
            let new_plan = #[trigger] r.fill_plans@[q];
            let start = cut.added_face_ranges@[q][0] as int;
            let end = cut.added_face_ranges@[q][1] as int;
            &&& new_plan.representative_edge == old_plan.representative_edge
            &&& new_plan.boundary_edges@ == old_plan.boundary_edges@
            &&& new_plan.num_tris == old_plan.num_tris
            &&& new_plan.source_face_for_faces@ == target.subrange(start, end)
            &&& new_plan.source_face == (if start < end { target[start] } else { old_plan.source_face })
        }
}

/// The cut with the first sequence of `source_preserving_paths` as its
/// source records, its fill plans following suit; `None` when the sequence
/// does not fit the cut's faces and fills.
pub fn meshlib_cut2origin_owner_remapped_cut(
    cut: &ExactCutHoleFillResult,
    source_preserving_paths: &Vec<Vec<usize>>,
) -> (out: Option<ExactCutHoleFillResult>)
    ensures
        out is Some <==> remap_possible(cut, source_preserving_paths@),
        out matches Some(r) ==> remapped_ok(cut, source_preserving_paths@[0]@, &r),
{
    if source_preserving_paths.len() == 0 {
        return None;
    }
    let target = &source_preserving_paths[0];
    if target.len() != cut.mesh.source_face_for_faces.len() {
        return None;
    }
    let mut plans: Vec<ExactCutHoleFillPlan> = Vec::new();
    let mut q: usize = 0;
    while q < cut.fill_plans.len()
        invariant
            q <= cut.fill_plans@.len(),
            target@ == source_preserving_paths@[0]@,
            target@.len() == cut.mesh.source_face_for_faces@.len(),
            source_preserving_paths@.len() > 0,
            plans@.len() == q,
            q <= cut.added_face_ranges@.len(),
            forall|a: int|
                0 <= a < q ==> (#[trigger] cut.added_face_ranges@[a])[0] <= cut.added_face_ranges@[a][1] <= target@.len(),
            forall|a: int|
                0 <= a < q ==> {
                    let old_plan = cut.fill_plans@[a];
                    let new_plan = #[trigger] plans@[a];
                    let start = cut.added_face_ranges@[a][0] as int;
                    let end = cut.added_face_ranges@[a][1] as int;
                    &&& new_plan.representative_edge == old_plan.representative_edge
                    &&& new_plan.boundary_edges@ == old_plan.boundary_edges@
                    &&& new_plan.num_tris == old_plan.num_tris
                    &&& new_plan.source_face_for_faces@ == target@.subrange(start, end)
                    &&& new_plan.source_face == (if start < end { target@[start] } else { old_plan.source_face })
                },
        decreases cut.fill_plans.len() - q,
    {
        if q >= cut.added_face_ranges.len() {
            return None;
        }
        let range = cut.added_face_ranges[q];
        let start = range[0];
        let end = range[1];
        if start > end || end > target.len() {
            return None;
        }
        let mut faces: Vec<usize> = Vec::new();
        let mut k: usize = start;
        while k < end
            invariant
                start <= k <= end,
                end <= target@.len(),
                faces@ == target@.subrange(start as int, k as int),
            decreases end - k,
        {
            faces.push(target[k]);
            proof {
                assert(faces@ =~= target@.subrange(start as int, k as int + 1));
            }
            k += 1;
        }
        let plan = &cut.fill_plans[q];
        let source_face = if start < end {
            target[start]
        } else {
            plan.source_face
        };
        plans.push(
            ExactCutHoleFillPlan {
                representative_edge: plan.representative_edge,
                boundary_edges: copy_items(&plan.boundary_edges),
                source_face,
                source_face_for_faces: faces,
                num_tris: plan.num_tris,
            },
        );
        q += 1;
    }
    let mesh = &cut.mesh;
    let remapped = ExactCutHoleFillResult {
        mesh: ExactCutMeshRecords {
            faces: copy_items(&mesh.faces),
            cut_edges: copy_items(&mesh.cut_edges),
            cut_edge_paths: copy_lists(&mesh.cut_edge_paths),
            cut_edge_path_closed: copy_items(&mesh.cut_edge_path_closed),
            cut_edge_path_source_faces: copy_lists(&mesh.cut_edge_path_source_faces),
            collapsed_cut_segment_path_source_faces: copy_lists(&mesh.collapsed_cut_segment_path_source_faces),
            source_face_for_faces: copy_items(target),
            cut_face_source_events: copy_items(&mesh.cut_face_source_events),
        },
        fill_plans: plans,
        added_face_ranges: copy_items(&cut.added_face_ranges),
    };
    Some(remapped)
}

/// The faces that the first `n` fill plans appended, by their face ranges.
pub open spec fn added_face_total(ranges: Seq<[usize; 2]>, n: int) -> nat
    decreases n,
{
    if n <= 0 {
        0
    } else {
        added_face_total(ranges, n - 1) + sat_sub(ranges[n - 1][1] as int, ranges[n - 1][0] as int) as nat
    }
}

/// What a cut and filled mesh records of its source faces: how many faces
/// and records, the distinct source faces with their counts, and what the
/// fills appended.
#[derive(Debug, Clone, PartialEq, Eq)]
pub struct CutSourceFaceInventory {
    pub faces: usize,
    pub source_records: usize,
    pub unique_source_faces: usize,
    pub duplicate_source_records: usize,
    pub fill_plans: usize,
    pub added_faces: usize,
    pub source_face_counts: Vec<[usize; 2]>,
    pub fill_plan_source_faces: Vec<usize>,
    pub fill_plan_added_faces: Vec<usize>,
}

/// The source face records of a cut and filled mesh: counts of faces and
/// records, each distinct source face with its number of records, and each
/// fill plan's source face and triangle count.
pub fn cut_source_face_inventory(cut: &ExactCutHoleFillResult) -> (inv: CutSourceFaceInventory)
    requires
        added_face_total(cut.added_face_ranges@, cut.added_face_ranges@.len() as int) <= usize::MAX,
    ensures
        inv.faces == cut.mesh.faces@.len(),
        inv.source_records == cut.mesh.source_face_for_faces@.len(),
        counts_of(cut.mesh.source_face_for_faces@, inv.source_face_counts@),
        inv.unique_source_faces == inv.source_face_counts@.len(),
        inv.duplicate_source_records == sat_sub(inv.source_records as int, inv.unique_source_faces as int),
        inv.fill_plans == cut.fill_plans@.len(),
        inv.added_faces == added_face_total(cut.added_face_ranges@, cut.added_face_ranges@.len() as int),
        inv.fill_plan_source_faces@ == cut.fill_plans@.map_values(|p: ExactCutHoleFillPlan| p.source_face),
        inv.fill_plan_added_faces@ == cut.fill_plans@.map_values(|p: ExactCutHoleFillPlan| p.num_tris),
{
    let counts = source_face_counts(&cut.mesh.source_face_for_faces);
    let source_records = cut.mesh.source_face_for_faces.len();
    let unique = counts.len();
    let mut added: usize = 0;
    let mut r: usize = 0;
    while r < cut.added_face_ranges.len()
        invariant
            r <= cut.added_face_ranges@.len(),
            added == added_face_total(cut.added_face_ranges@, r as int),
            added_face_total(cut.added_face_ranges@, cut.added_face_ranges@.len() as int) <= usize::MAX,
        decreases cut.added_face_ranges.len() - r,
    {
        proof {
            lemma_added_total_monotone(cut.added_face_ranges@, r as int + 1, cut.added_face_ranges@.len() as int);
        }
        let range = cut.added_face_ranges[r];
        added = added + range[1].saturating_sub(range[0]);
        r += 1;
    }
    let mut plan_sources: Vec<usize> = Vec::new();
    let mut plan_added: Vec<usize> = Vec::new();
    let mut q: usize = 0;
    while q < cut.fill_plans.len()
        invariant
            q <= cut.fill_plans@.len(),
            plan_sources@ == cut.fill_plans@.subrange(0, q as int).map_values(|p: ExactCutHoleFillPlan| p.source_face),
            plan_added@ == cut.fill_plans@.subrange(0, q as int).map_values(|p: ExactCutHoleFillPlan| p.num_tris),
        decreases cut.fill_plans.len() - q,
    {
        plan_sources.push(cut.fill_plans[q].source_face);
        plan_added.push(cut.fill_plans[q].num_tris);
        proof {
            assert(plan_sources@ =~= cut.fill_plans@.subrange(0, q as int + 1).map_values(|p: ExactCutHoleFillPlan| p.source_face));
            assert(plan_added@ =~= cut.fill_plans@.subrange(0, q as int + 1).map_values(|p: ExactCutHoleFillPlan| p.num_tris));
        }
        q += 1;
    }
    proof {
        assert(cut.fill_plans@.subrange(0, cut.fill_plans@.len() as int) =~= cut.fill_plans@);
    }
    CutSourceFaceInventory {
        faces: cut.mesh.faces.len(),
        source_records,
        unique_source_faces: unique,
        duplicate_source_records: source_records.saturating_sub(unique),
        fill_plans: cut.fill_plans.len(),
        added_faces: added,
        source_face_counts: counts,
        fill_plan_source_faces: plan_sources,
        fill_plan_added_faces: plan_added,
    }
}

proof fn lemma_added_total_monotone(ranges: Seq<[usize; 2]>, a: int, b: int)
    requires
        a <= b,
    ensures
        added_face_total(ranges, a) <= added_face_total(ranges, b),
    decreases b - a,
{
    if a < b {
        lemma_added_total_monotone(ranges, a, b - 1);
    }
}

} // verus!
