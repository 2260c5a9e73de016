//! Records of the record rewrite's diagnostics: how copied faces and
//! edges were linked, which near-stitch updates failed and why, and which
//! faces could not be exported.
use vstd::prelude::*;
use vstd::string::StrSliceExecFns;

verus! {

/// An attempt to relink the previous and next edges of a copied contour edge.
#[derive(Debug, Clone, Copy, PartialEq, Eq)]
pub struct MeshlibCopiedPrevNextEdgeUpdateDiagnostic {
    pub source_contour_edge_id: Option<usize>,
    pub target_contour_edge_id: Option<usize>,
    pub walked_source_edge_id: Option<usize>,
    pub update_kind: Option<&'static str>,
    pub previous_edge_id: usize,
    pub next_edge_id: usize,
    pub previous_origin: Option<usize>,
    pub next_origin: Option<usize>,
    pub previous_left: Option<usize>,
    pub next_right: Option<usize>,
    pub applied: bool,
    pub skipped_reason: Option<&'static str>,
}

/// One edge considered as the record edge of a copied face, with its links.
#[derive(Debug, Clone, PartialEq, Eq)]
pub struct MeshlibCopiedFaceRecordCandidateDiagnostic {
    pub source_edge_id: usize,
    pub source_edge_vertices: Option<[usize; 2]>,
    pub source_edge_left: Option<usize>,
    pub source_edge_right: Option<usize>,
    pub source_next_edge_id: usize,
    pub source_prev_edge_id: usize,
    pub mapped_edge_id: Option<usize>,
    pub face_edge_id: Option<usize>,
    pub face_edge_origin: Option<usize>,
    pub face_edge_destination: Option<usize>,
    pub face_edge_left: Option<usize>,
    pub face_edge_right: Option<usize>,
    pub face_edge_next_edge_id: Option<usize>,
    pub face_edge_prev_edge_id: Option<usize>,
    pub face_edge_sym_next_edge_id: Option<usize>,
    pub face_edge_sym_prev_edge_id: Option<usize>,
    pub face_edge_left_ring_next_edge_id: Option<usize>,
    pub left_ring_valid: bool,
    pub left_ring_error: Option<&'static str>,
}

/// The record edge chosen for a copied face, and the candidates looked at.
#[derive(Debug, Clone, PartialEq, Eq)]
pub struct MeshlibCopiedFaceRecordDiagnostic {
    pub output_face: usize,
    pub cut_face: usize,
    pub source_face: Option<usize>,
    pub selected_edge_id: usize,
    pub selected_source_edge_id: usize,
    pub selected_source_edge_vertices: Option<[usize; 2]>,
    pub selected_by_valid_left_ring: bool,
    pub selected_left_ring_valid: bool,
    pub selected_left_ring_error: Option<&'static str>,
    pub candidates: Vec<MeshlibCopiedFaceRecordCandidateDiagnostic>,
}

/// A pair of candidate edges for a near-stitch update that could not be joined.
#[derive(Debug, Clone, PartialEq, Eq)]
pub struct MeshlibNearStitchCandidateFailureDiagnostic {
    pub previous_edge_id: usize,
    pub next_edge_id: usize,
    pub previous_candidate_source: &'static str,
    pub next_candidate_source: &'static str,
    pub previous_candidate_key: Option<usize>,
    pub next_candidate_key: Option<usize>,
    pub previous_candidate_source_edge: Option<[usize; 2]>,
    pub next_candidate_source_edge: Option<[usize; 2]>,
    pub previous_origin: Option<usize>,
    pub next_origin: Option<usize>,
    pub previous_left: Option<usize>,
    pub previous_right: Option<usize>,
    pub next_left: Option<usize>,
    pub next_right: Option<usize>,
    pub previous_next_edge_id: usize,
    pub next_prev_edge_id: usize,
    pub previous_next_edge: MeshlibNearStitchLinkedEdgeDiagnostic,
    pub next_prev_edge: MeshlibNearStitchLinkedEdgeDiagnostic,
    pub previous_left_ring: MeshlibNearStitchRingDiagnostic,
    pub next_right_ring: MeshlibNearStitchRingDiagnostic,
    pub previous_target_snapshot: Option<MeshlibNearStitchTargetSnapshotDiagnostic>,
    pub next_target_snapshot: Option<MeshlibNearStitchTargetSnapshotDiagnostic>,
    pub captured_open_target_reopened_previous: bool,
    pub captured_open_target_reopened_next: bool,
    pub captured_open_target_retry_error: Option<&'static str>,
    pub error: &'static str,
}

/// An edge linked from a near-stitch candidate, with its origin and faces.
#[derive(Debug, Clone, Copy, PartialEq, Eq)]
pub struct MeshlibNearStitchLinkedEdgeDiagnostic {
    pub edge_id: usize,
    pub origin: Option<usize>,
    pub left: Option<usize>,
    pub right: Option<usize>,
}

/// A near-stitch target edge as it stood, with its links.
#[derive(Debug, Clone, Copy, PartialEq, Eq)]
pub struct MeshlibNearStitchTargetSnapshotDiagnostic {
    pub edge_id: usize,
    pub origin: Option<usize>,
    pub left: Option<usize>,
    pub right: Option<usize>,
    pub next_edge_id: usize,
    pub prev_edge_id: usize,
}

/// The ring of edges around a face walked from a near-stitch candidate.
#[derive(Debug, Clone, PartialEq, Eq)]
pub struct MeshlibNearStitchRingDiagnostic {
    pub edge_ids: Vec<usize>,
    pub origins: Vec<Option<usize>>,
    pub left_faces: Vec<Option<usize>>,
    pub error: Option<&'static str>,
}

/// What the candidate search of a near-stitch update tried.
#[derive(Debug, Clone, PartialEq, Eq)]
pub struct MeshlibNearStitchCandidateDiagnostics {
    pub attempt: &'static str,
    pub previous_candidates: usize,
    pub next_candidates: usize,
    pub failures: Vec<MeshlibNearStitchCandidateFailureDiagnostic>,
    pub fallback_from: Option<MeshlibNearStitchCandidateAttemptDiagnostic>,
    pub previous_source_lookup: Option<MeshlibNearStitchSourceLookupDiagnostic>,
    pub next_source_lookup: Option<MeshlibNearStitchSourceLookupDiagnostic>,
}

/// An earlier candidate search that a near-stitch update fell back from.
#[derive(Debug, Clone, Copy, PartialEq, Eq)]
pub struct MeshlibNearStitchCandidateAttemptDiagnostic {
    pub attempt: &'static str,
    pub error: &'static str,
    pub previous_candidates: usize,
    pub next_candidates: usize,
    pub failure_count: usize,
}

/// How the source edge of a near-stitch endpoint was looked up.
#[derive(Debug, Clone, Copy, PartialEq, Eq)]
pub struct MeshlibNearStitchSourceLookupDiagnostic {
    pub requested_halfedge: Option<usize>,
    pub requested_key_face: Option<usize>,
    pub requested_key_edge: Option<[usize; 2]>,
    pub requested_source_edge: Option<[usize; 2]>,
    pub fallback_edge: [usize; 2],
    pub exact_key_candidates: usize,
    pub same_edge_key_candidates: usize,
    pub halfedge_candidates: usize,
    pub source_edge_candidates: usize,
    pub topology_candidates: usize,
    pub total_candidates: usize,
    pub copied_source_edge: Option<MeshlibCopiedSourceEdgeLookupDiagnostic>,
}

/// How a copied source edge was found in the output.
#[derive(Debug, Clone, Copy, PartialEq, Eq)]
pub struct MeshlibCopiedSourceEdgeLookupDiagnostic {
    pub status: &'static str,
    pub matched_source_edge: Option<[usize; 2]>,
    pub source_halfedge: Option<usize>,
    pub source_origin: Option<usize>,
    pub source_left: Option<usize>,
    pub source_right: Option<usize>,
    pub source_left_mapped_face: Option<usize>,
    pub source_right_mapped_face: Option<usize>,
    pub source_next_halfedge: Option<usize>,
    pub source_prev_halfedge: Option<usize>,
    pub output_edge_id: Option<usize>,
    pub output_origin: Option<usize>,
    pub output_left: Option<usize>,
    pub output_right: Option<usize>,
    pub output_next_edge_id: Option<usize>,
    pub output_prev_edge_id: Option<usize>,
    pub matching_statuses: usize,
}

/// A near-stitch update that failed, with its command and candidates.
#[derive(Debug, Clone, PartialEq, Eq)]
pub struct MeshlibNearStitchFailureDiagnostic {
    pub stitch_pair_index: Option<usize>,
    pub endpoint: Option<&'static str>,
    pub source_operand: Option<&'static str>,
    pub previous_source_halfedge: Option<usize>,
    pub next_source_halfedge: Option<usize>,
    pub previous_source_halfedge_key_face: Option<usize>,
    pub previous_source_halfedge_key_edge: Option<[usize; 2]>,
    pub next_source_halfedge_key_face: Option<usize>,
    pub next_source_halfedge_key_edge: Option<[usize; 2]>,
    pub previous_source_edge: Option<[usize; 2]>,
    pub next_source_edge: Option<[usize; 2]>,
    pub previous_edge: [usize; 2],
    pub next_edge: [usize; 2],
    pub strict_source_identity: bool,
    pub error: &'static str,
    pub candidate_diagnostics: Option<MeshlibNearStitchCandidateDiagnostics>,
}

/// A face that could not be exported, with the rings around it.
#[derive(Debug, Clone, PartialEq, Eq)]
pub struct MeshlibFaceExportFailureDiagnostic {
    pub face_index: usize,
    pub face_edge_id: usize,
    pub face_operand: Option<&'static str>,
    pub face_cut_face: Option<usize>,
    pub face_source_face: Option<usize>,
    pub error: &'static str,
    pub left_ring_edge_ids: Vec<usize>,
    pub left_ring_record_next_edge_ids: Vec<usize>,
    pub left_ring_record_prev_edge_ids: Vec<usize>,
    pub left_ring_next_edge_ids: Vec<usize>,
    pub left_ring_origins: Vec<Option<usize>>,
    pub left_ring_destinations: Vec<Option<usize>>,
    pub left_ring_left_faces: Vec<Option<usize>>,
    pub left_ring_right_faces: Vec<Option<usize>>,
    pub same_left_face_edge_ids: Vec<usize>,
    pub same_left_face_record_next_edge_ids: Vec<usize>,
    pub same_left_face_record_prev_edge_ids: Vec<usize>,
    pub same_left_face_next_edge_ids: Vec<usize>,
    pub same_left_face_origins: Vec<Option<usize>>,
    pub same_left_face_destinations: Vec<Option<usize>>,
    pub same_left_face_right_faces: Vec<Option<usize>>,
    pub left_ring_repeated_edge_id: Option<usize>,
    pub left_ring_returned_to_start: bool,
}

/// A contour record rewrite target before and after the rewrite.
#[derive(Debug, Clone, Copy, PartialEq, Eq)]
pub struct MeshlibRecordRewriteTargetDiagnostic {
    pub stitch_pair_index: usize,
    pub target_edge_id: usize,
    pub target_was_near_stitch_target: bool,
    pub target_origin_before: Option<usize>,
    pub target_left_before: Option<usize>,
    pub target_right_before: Option<usize>,
    pub target_next_edge_id_before: usize,
    pub target_prev_edge_id_before: usize,
    pub target_origin_after: Option<usize>,
    pub target_left_after: Option<usize>,
    pub target_right_after: Option<usize>,
    pub target_next_edge_id_after: usize,
    pub target_prev_edge_id_after: usize,
    pub record_next_edge_id: usize,
    pub record_left: Option<usize>,
    pub record_sym_prev_edge_id: usize,
}

/// A contour record rewrite command that failed.
#[derive(Debug, Clone, PartialEq, Eq)]
pub struct MeshlibRecordRewriteFailedCommandDiagnostic {
    pub stitch_pair_index: usize,
    pub error: &'static str,
    pub this_operand: &'static str,
    pub from_operand: &'static str,
    pub output_edge: [usize; 2],
    pub this_contour_edge: [usize; 2],
    pub from_contour_edge: [usize; 2],
    pub this_source_edge_index: usize,
    pub from_source_edge_index: usize,
    pub this_source_edge: [usize; 2],
    pub from_source_edge: [usize; 2],
    pub this_side_synthetic: bool,
    pub from_side_synthetic: bool,
    pub synthetic_sides: usize,
}

/// A source record replayed onto the prepared base, or skipped.
#[derive(Debug, Clone, Copy, PartialEq, Eq)]
pub struct MeshlibPreparedSourceRecordReplayDiagnostic {
    pub target_edge_id: usize,
    pub target_was_near_stitch_target: bool,
    pub target_origin_before: Option<usize>,
    pub target_left_before: Option<usize>,
    pub target_right_before: Option<usize>,
    pub target_origin_after: Option<usize>,
    pub target_left_after: Option<usize>,
    pub target_right_after: Option<usize>,
    pub record_next_edge_id: usize,
    pub record_left: Option<usize>,
    pub record_sym_prev_edge_id: usize,
    pub applied: bool,
    pub skipped_reason: Option<&'static str>,
}

/// Whether two texts are the same, character by character.
fn same_text(a: &str, b: &str) -> (out: bool)
    ensures
        out == (a@ == b@),
{
    let n = a.unicode_len();
    let m = b.unicode_len();
    if n != m {
        return false;
    }
    let mut i: usize = 0;
    while i < n
        invariant
            n == a@.len(),
            m == b@.len(),
            n == m,
            i <= n,
            forall|j: int| 0 <= j < i ==> a@[j] == b@[j],
        decreases n - i,
    {
        if a.get_char(i) != b.get_char(i) {
            return false;
        }
        i += 1;
    }
    assert(a@ =~= b@);
    true
}

/// The failure says the previous edge had a left face, and the copied
/// source edge looked up for it has a left face in the output.
pub open spec fn previous_left_copied(detail: MeshlibNearStitchFailureDiagnostic) -> bool {
    &&& detail.error@ == "previous near stitch edge must not have a left face"@
    &&& detail.candidate_diagnostics matches Some(c) && c.previous_source_lookup matches Some(l)
        && l.copied_source_edge matches Some(copied) && copied.output_left is Some
}

/// The failure says the next edge had a right face, and the copied source
/// edge looked up for it has a right face in the output.
pub open spec fn next_right_copied(detail: MeshlibNearStitchFailureDiagnostic) -> bool {
    &&& detail.error@ == "next near stitch edge must not have a right face"@
    &&& detail.candidate_diagnostics matches Some(c) && c.next_source_lookup matches Some(l)
        && l.copied_source_edge matches Some(copied) && copied.output_right is Some
}

/// How many of `details` meet `p`.
pub open spec fn count_details(details: Seq<MeshlibNearStitchFailureDiagnostic>, p: spec_fn(MeshlibNearStitchFailureDiagnostic) -> bool) -> nat
    decreases details.len(),
{
    if details.len() == 0 {
        0
    } else {
        count_details(details.drop_last(), p) + if p(details.last()) {
            1nat
        } else {
            0nat
        }
    }
}

proof fn lemma_count_details_bound(details: Seq<MeshlibNearStitchFailureDiagnostic>, p: spec_fn(MeshlibNearStitchFailureDiagnostic) -> bool)
    ensures
        count_details(details, p) <= details.len(),
    decreases details.len(),
{
    if details.len() > 0 {
        lemma_count_details_bound(details.drop_last(), p);
    }
}

fn previous_left_copied_exec(detail: &MeshlibNearStitchFailureDiagnostic) -> (out: bool)
    ensures
        out == previous_left_copied(*detail),
{
    if !same_text(detail.error, "previous near stitch edge must not have a left face") {
        return false;
    }
    match &detail.candidate_diagnostics {
        Some(c) => match &c.previous_source_lookup {
            Some(l) => match &l.copied_source_edge {
                Some(copied) => copied.output_left.is_some(),
                None => false,
            },
            None => false,
        },
        None => false,
    }
}

fn next_right_copied_exec(detail: &MeshlibNearStitchFailureDiagnostic) -> (out: bool)
    ensures
        out == next_right_copied(*detail),
{
    if !same_text(detail.error, "next near stitch edge must not have a right face") {
        return false;
    }
    match &detail.candidate_diagnostics {
        Some(c) => match &c.next_source_lookup {
            Some(l) => match &l.copied_source_edge {
                Some(copied) => copied.output_right.is_some(),
                None => false,
            },
            None => false,
        },
        None => false,
    }
}

/// How many near-stitch failures were refused for a previous edge with a
/// left face while the copied source edge behind it has a left face.
pub fn near_stitch_previous_left_copied_source_edges(details: &Vec<MeshlibNearStitchFailureDiagnostic>) -> (out: usize)
    ensures
        out == count_details(details@, |d: MeshlibNearStitchFailureDiagnostic| previous_left_copied(d)),
{
    let ghost p = |d: MeshlibNearStitchFailureDiagnostic| previous_left_copied(d);
    let mut count: usize = 0;
    let mut i: usize = 0;
    while i < details.len()
        invariant
            i <= details@.len(),
            p == (|d: MeshlibNearStitchFailureDiagnostic| previous_left_copied(d)),
            count == count_details(details@.take(i as int), p),
        decreases details.len() - i,
    {
        proof {
            assert(details@.take(i as int + 1).drop_last() =~= details@.take(i as int));
            assert(details@.take(i as int + 1).last() == details@[i as int]);
            lemma_count_details_bound(details@.take(i as int + 1), p);
            assert(p(details@[i as int]) == previous_left_copied(details@[i as int]));
        }
        if previous_left_copied_exec(&details[i]) {
            count += 1;
        }
        i += 1;
    }
    proof {
        assert(details@.take(details@.len() as int) =~= details@);
    }
    count
}

/// How many near-stitch failures were refused for a next edge with a right
/// face while the copied source edge behind it has a right face.
pub fn near_stitch_next_right_copied_source_edges(details: &Vec<MeshlibNearStitchFailureDiagnostic>) -> (out: usize)
    ensures
        out == count_details(details@, |d: MeshlibNearStitchFailureDiagnostic| next_right_copied(d)),
{
    let ghost p = |d: MeshlibNearStitchFailureDiagnostic| next_right_copied(d);
    let mut count: usize = 0;
    let mut i: usize = 0;
    while i < details.len()
        invariant
            i <= details@.len(),
            p == (|d: MeshlibNearStitchFailureDiagnostic| next_right_copied(d)),
            count == count_details(details@.take(i as int), p),
        decreases details.len() - i,
    {
        proof {
            assert(details@.take(i as int + 1).drop_last() =~= details@.take(i as int));
            assert(details@.take(i as int + 1).last() == details@[i as int]);
            lemma_count_details_bound(details@.take(i as int + 1), p);
            assert(p(details@[i as int]) == next_right_copied(details@[i as int]));
        }
        if next_right_copied_exec(&details[i]) {
            count += 1;
        }
        i += 1;
    }
    proof {
        assert(details@.take(details@.len() as int) =~= details@);
    }
    count
}

} // verus!
