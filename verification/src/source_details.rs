//! Source faces along cut paths: runs of repeated source faces, the face a
//! removed face is owned by, and counts of faces around cut edges.
use vstd::prelude::*;

use crate::exact_cut::ExactCutMeshRecords;

use crate::edge::{increasing, spec_ordered};
use crate::stitch_pairs::{ExactStitchEdgePair, ExactStitchPlan};

verus! {

/// The sequence a run-length list stands for: each `[value, count]` as
/// `count` copies of `value`.
pub open spec fn decode_runs(runs: Seq<[usize; 2]>) -> Seq<usize>
    decreases runs.len(),
{
    if runs.len() == 0 {
        Seq::empty()
    } else {
        decode_runs(runs.drop_last()) + Seq::new(runs.last()[1] as nat, |i: int| runs.last()[0])
    }
}

/// A run-length list in its shortest form: no empty run, and no two runs in
/// a row of the same value.
pub open spec fn runs_canonical(runs: Seq<[usize; 2]>) -> bool {
    &&& forall|r: int| 0 <= r < runs.len() ==> (#[trigger] runs[r])[1] >= 1
    &&& forall|r: int| 0 < r < runs.len() ==> (#[trigger] runs[r])[0] != runs[r - 1][0]
}

/// The runs of repeated source faces, as `[source_face, count]` in order.
pub fn source_face_runs(source_faces: &Vec<usize>) -> (runs: Vec<[usize; 2]>)
    ensures
        decode_runs(runs@) == source_faces@,
        runs_canonical(runs@),
{
    let mut runs: Vec<[usize; 2]> = Vec::new();
    let mut i: usize = 0;
    while i < source_faces.len()
        invariant
            i <= source_faces@.len(),
            decode_runs(runs@) == source_faces@.subrange(0, i as int),
            runs_canonical(runs@),
            runs@.len() > 0 ==> runs@.last()[0] == source_faces@[i - 1],
            runs@.len() == 0 ==> i == 0,
        decreases source_faces@.len() - i,
    {
        let face = source_faces[i];
        let ghost before = runs@;
        let n = runs.len();
        if n > 0 && runs[n - 1][0] == face {
            let last = runs[n - 1];
            proof {
                assert(decode_runs(before) == source_faces@.subrange(0, i as int));
                assert(last[1] <= i) by {
                    lemma_decode_len(before);
                }
            }
            runs.set(n - 1, [face, last[1] + 1]);
            proof {
                assert(runs@.drop_last() == before.drop_last());
                assert(Seq::new((last[1] + 1) as nat, |k: int| face) =~= Seq::new(last[1] as nat, |k: int| face).push(face));
                assert(decode_runs(runs@) =~= decode_runs(before).push(face));
                assert(source_faces@.subrange(0, i as int + 1) =~= source_faces@.subrange(0, i as int).push(face));
            }
        } else {
            runs.push([face, 1]);
            proof {
                assert(runs@.drop_last() == before);
                assert(Seq::new(1nat, |k: int| face) =~= seq![face]);
                assert(source_faces@.subrange(0, i as int + 1) =~= source_faces@.subrange(0, i as int).push(face));
                assert(decode_runs(runs@) =~= decode_runs(before) + seq![face]);
            }
        }
        i += 1;
    }
    assert(source_faces@.subrange(0, source_faces@.len() as int) =~= source_faces@);
    runs
}

/// The decoded length is the sum of the counts, at least each last count.
proof fn lemma_decode_len(runs: Seq<[usize; 2]>)
    ensures
        runs.len() > 0 ==> decode_runs(runs).len() >= runs.last()[1],
    decreases runs.len(),
{
}

/// Decoding the runs of a list gives the list back.
pub proof fn lemma_runs_round_trip(source_faces: Seq<usize>, runs: Seq<[usize; 2]>)
    requires
        decode_runs(runs) == source_faces,
        runs_canonical(runs),
    ensures
        forall|r: int| 0 <= r < runs.len() ==> source_faces.contains((#[trigger] runs[r])[0]),
    decreases runs.len(),
{
    if runs.len() > 0 {
        let prefix = runs.drop_last();
        assert(runs_canonical(prefix)) by {
            assert forall|r: int| 0 < r < prefix.len() implies (#[trigger] prefix[r])[0] != prefix[r - 1][0] by {
                assert(prefix[r] == runs[r]);
                assert(prefix[r - 1] == runs[r - 1]);
            }
            assert forall|r: int| 0 <= r < prefix.len() implies (#[trigger] prefix[r])[1] >= 1 by {
                assert(prefix[r] == runs[r]);
            }
        }
        lemma_runs_round_trip(decode_runs(prefix), prefix);
        let tail = Seq::new(runs.last()[1] as nat, |i: int| runs.last()[0]);
        assert(source_faces == decode_runs(prefix) + tail);
        assert forall|r: int| 0 <= r < runs.len() implies source_faces.contains((#[trigger] runs[r])[0]) by {
            if r < prefix.len() {
                assert(prefix[r] == runs[r]);
                let k = choose|k: int| 0 <= k < decode_runs(prefix).len() && decode_runs(prefix)[k] == prefix[r][0];
                assert(source_faces[k] == runs[r][0]);
            } else {
                assert(runs.last()[1] >= 1);
                assert(source_faces[decode_runs(prefix).len() as int] == runs[r][0]);
            }
        }
    }
}

/// The runs of each path's source faces.
pub fn source_face_runs_by_path(source_face_paths: &Vec<Vec<usize>>) -> (out: Vec<Vec<[usize; 2]>>)
    ensures
        out@.len() == source_face_paths@.len(),
        forall|p: int|
            0 <= p < out@.len() ==> decode_runs((#[trigger] out@[p])@) == source_face_paths@[p]@ && runs_canonical(
                out@[p]@,
            ),
{
    let mut out: Vec<Vec<[usize; 2]>> = Vec::new();
    let mut p: usize = 0;
    while p < source_face_paths.len()
        invariant
            p <= source_face_paths@.len(),
            out@.len() == p,
            forall|q: int|
                0 <= q < p ==> decode_runs((#[trigger] out@[q])@) == source_face_paths@[q]@ && runs_canonical(
                    out@[q]@,
                ),
        decreases source_face_paths@.len() - p,
    {
        out.push(source_face_runs(&source_face_paths[p]));
        p += 1;
    }
    out
}

/// The first source face recorded for each edge that has one.
pub open spec fn primary_faces(edges: Seq<Vec<usize>>) -> Seq<usize>
    decreases edges.len(),
{
    if edges.len() == 0 {
        Seq::empty()
    } else if edges.last()@.len() > 0 {
        primary_faces(edges.drop_last()).push(edges.last()@[0])
    } else {
        primary_faces(edges.drop_last())
    }
}

/// For each path, the first source face of each of its edges that has one.
pub fn primary_edge_source_faces(edge_source_faces: &Vec<Vec<Vec<usize>>>) -> (out: Vec<Vec<usize>>)
    ensures
        out@.len() == edge_source_faces@.len(),
        forall|p: int| 0 <= p < out@.len() ==> (#[trigger] out@[p])@ == primary_faces(edge_source_faces@[p]@),
{
    let mut out: Vec<Vec<usize>> = Vec::new();
    let mut p: usize = 0;
    while p < edge_source_faces.len()
        invariant
            p <= edge_source_faces@.len(),
            out@.len() == p,
            forall|q: int| 0 <= q < p ==> (#[trigger] out@[q])@ == primary_faces(edge_source_faces@[q]@),
        decreases edge_source_faces@.len() - p,
    {
        let path = &edge_source_faces[p];
        let mut firsts: Vec<usize> = Vec::new();
        let mut e: usize = 0;
        while e < path.len()
            invariant
                e <= path@.len(),
                firsts@ == primary_faces(path@.subrange(0, e as int)),
            decreases path@.len() - e,
        {
            let ghost next = path@.subrange(0, e as int + 1);
            assert(next.drop_last() =~= path@.subrange(0, e as int));
            if path[e].len() > 0 {
                firsts.push(path[e][0]);
            }
            e += 1;
        }
        assert(path@.subrange(0, path@.len() as int) =~= path@);
        out.push(firsts);
        p += 1;
    }
    out
}

/// The face a removed face along a closed cut path is owned by: the side
/// face that differs from the path's source face when one does (the left
/// one first), else the path's source face, else whichever side is known.
pub open spec fn spec_owner_candidate(path: Option<usize>, left: Option<usize>, right: Option<usize>) -> Option<usize> {
    match (path, left, right) {
        (Some(p), Some(l), Some(r)) => if l != p {
            Some(l)
        } else if r != p {
            Some(r)
        } else {
            Some(p)
        },
        (Some(p), Some(l), None) => if l != p {
            Some(l)
        } else {
            Some(p)
        },
        (Some(p), None, Some(r)) => if r != p {
            Some(r)
        } else {
            Some(p)
        },
        (Some(p), None, None) => Some(p),
        (None, Some(l), _) => Some(l),
        (None, None, Some(r)) => Some(r),
        (None, None, None) => None,
    }
}

/// The face a removed face along a closed cut path is owned by.
pub fn meshlib_removed_face_owner_candidate(
    path_source: Option<usize>,
    left_source: Option<usize>,
    right_source: Option<usize>,
) -> (out: Option<usize>)
    ensures
        out == spec_owner_candidate(path_source, left_source, right_source),
{
    match (path_source, left_source, right_source) {
        (Some(path), Some(left), Some(right)) => {
            let left_is_missing_side = left != path;
            let right_is_missing_side = right != path;
            if left_is_missing_side {
                Some(left)
            } else if right_is_missing_side {
                Some(right)
            } else {
                Some(path)
            }
        },
        (Some(path), Some(left), None) => if left != path {
            Some(left)
        } else {
            Some(path)
        },
        (Some(path), None, Some(right)) => if right != path {
            Some(right)
        } else {
            Some(path)
        },
        (Some(path), None, None) => Some(path),
        (None, Some(left), _) => Some(left),
        (None, None, Some(right)) => Some(right),
        (None, None, None) => None,
    }
}

/// The three directed edges of a signed face, each end read as an index.
pub open spec fn signed_face_edges(face: [i64; 3]) -> Seq<[usize; 2]> {
    seq![
        [face[0] as usize, face[1] as usize],
        [face[1] as usize, face[2] as usize],
        [face[2] as usize, face[0] as usize],
    ]
}

/// Whether some edge of the signed face, ordered, is `edge`.
pub open spec fn signed_face_has_edge(face: [i64; 3], edge: [usize; 2]) -> bool {
    exists|k: int| 0 <= k < 3 && spec_ordered(#[trigger] signed_face_edges(face)[k]) == edge
}

/// Whether some edge of the signed face, ordered, is `edge`.
pub fn face_has_edge(face: [i64; 3], edge: [usize; 2]) -> (out: bool)
    ensures
        out == signed_face_has_edge(face, edge),
{
    let candidates = [
        [face[0] as usize, face[1] as usize],
        [face[1] as usize, face[2] as usize],
        [face[2] as usize, face[0] as usize],
    ];
    let mut k: usize = 0;
    while k < 3
        invariant
            k <= 3,
            forall|j: int| 0 <= j < 3 ==> candidates[j] == signed_face_edges(face)[j],
            forall|j: int| 0 <= j < k ==> spec_ordered(signed_face_edges(face)[j]) != edge,
        decreases 3 - k,
    {
        let ordered = crate::edge::ordered_edge(candidates[k]);
        if crate::edge::same_edge(ordered, edge) {
            return true;
        }
        k += 1;
    }
    false
}

/// Whether some edge of the signed face is `edge`, in that direction.
pub fn face_has_directed_edge(face: [i64; 3], edge: [usize; 2]) -> (out: bool)
    ensures
        out == exists|k: int| 0 <= k < 3 && signed_face_edges(face)[k] == edge,
{
    let candidates = [
        [face[0] as usize, face[1] as usize],
        [face[1] as usize, face[2] as usize],
        [face[2] as usize, face[0] as usize],
    ];
    let mut k: usize = 0;
    while k < 3
        invariant
            k <= 3,
            forall|j: int| 0 <= j < 3 ==> candidates[j] == signed_face_edges(face)[j],
            forall|j: int| 0 <= j < k ==> signed_face_edges(face)[j] != edge,
        decreases 3 - k,
    {
        if crate::edge::same_edge(candidates[k], edge) {
            return true;
        }
        k += 1;
    }
    false
}

/// The corners of a signed face in ascending order.
pub open spec fn sorted_corners(f: [i64; 3]) -> [i64; 3] {
    if f[0] <= f[1] {
        if f[1] <= f[2] {
            [f[0], f[1], f[2]]
        } else if f[0] <= f[2] {
            [f[0], f[2], f[1]]
        } else {
            [f[2], f[0], f[1]]
        }
    } else {
        if f[0] <= f[2] {
            [f[1], f[0], f[2]]
        } else if f[1] <= f[2] {
            [f[1], f[2], f[0]]
        } else {
            [f[2], f[1], f[0]]
        }
    }
}

/// The corners of a signed face in ascending order.
fn sort_corners(f: [i64; 3]) -> (out: [i64; 3])
    ensures
        out == sorted_corners(f),
{
    if f[0] <= f[1] {
        if f[1] <= f[2] {
            [f[0], f[1], f[2]]
        } else if f[0] <= f[2] {
            [f[0], f[2], f[1]]
        } else {
            [f[2], f[0], f[1]]
        }
    } else {
        if f[0] <= f[2] {
            [f[1], f[0], f[2]]
        } else if f[1] <= f[2] {
            [f[1], f[2], f[0]]
        } else {
            [f[2], f[1], f[0]]
        }
    }
}

/// How many of the first `n` faces have the same corners as `key`, in any order.
pub open spec fn same_face_count(faces: Seq<[i64; 3]>, key: [i64; 3], n: int) -> nat
    decreases n,
{
    if n <= 0 {
        0
    } else {
        same_face_count(faces, key, n - 1) + if sorted_corners(faces[n - 1]) == key {
            1nat
        } else {
            0nat
        }
    }
}

/// Over the first `n` faces: how many faces repeat a face seen exactly once
/// before (one per group of repeated faces), and how many repeat an earlier
/// face at all (the faces beyond the first of each group).
pub open spec fn duplicate_stats(faces: Seq<[i64; 3]>, n: int) -> (nat, nat)
    decreases n,
{
    if n <= 0 {
        (0, 0)
    } else {
        let prev = duplicate_stats(faces, n - 1);
        let seen = same_face_count(faces, sorted_corners(faces[n - 1]), n - 1);
        (prev.0 + if seen == 1 {
            1nat
        } else {
            0nat
        }, prev.1 + if seen >= 1 {
            1nat
        } else {
            0nat
        })
    }
}

/// Counts are at most the number of faces counted.
proof fn lemma_duplicate_bounds(faces: Seq<[i64; 3]>, n: int)
    ensures
        n >= 0 ==> duplicate_stats(faces, n).0 <= n && duplicate_stats(faces, n).1 <= n,
        n >= 0 ==> forall|key: [i64; 3]| #[trigger] same_face_count(faces, key, n) <= n,
    decreases n,
{
    if n > 0 {
        lemma_duplicate_bounds(faces, n - 1);
        assert forall|key: [i64; 3]| #[trigger] same_face_count(faces, key, n) <= n by {
            assert(same_face_count(faces, key, n - 1) <= n - 1);
        }
    }
}

/// The groups of faces with the same corners in any order: how many groups
/// have more than one face, and how many faces they have beyond the first.
pub fn duplicate_face_counts(faces: &Vec<[i64; 3]>) -> (out: (usize, usize))
    ensures
        out.0 == duplicate_stats(faces@, faces@.len() as int).0,
        out.1 == duplicate_stats(faces@, faces@.len() as int).1,
{
    let mut groups: usize = 0;
    let mut duplicates: usize = 0;
    let mut i: usize = 0;
    while i < faces.len()
        invariant
            i <= faces@.len(),
            groups == duplicate_stats(faces@, i as int).0,
            duplicates == duplicate_stats(faces@, i as int).1,
        decreases faces@.len() - i,
    {
        let key = sort_corners(faces[i]);
        let mut seen: usize = 0;
        let mut j: usize = 0;
        while j < i
            invariant
                j <= i,
                i < faces@.len(),
                key == sorted_corners(faces@[i as int]),
                seen == same_face_count(faces@, key, j as int),
            decreases i - j,
        {
            proof {
                lemma_duplicate_bounds(faces@, j as int);
            }
            let other = sort_corners(faces[j]);
            if other[0] == key[0] && other[1] == key[1] && other[2] == key[2] {
                assert(other =~= key);
                seen += 1;
            } else {
                assert(other != key);
            }
            j += 1;
        }
        proof {
            lemma_duplicate_bounds(faces@, i as int);
        }
        if seen == 1 {
            groups += 1;
        }
        if seen >= 1 {
            duplicates += 1;
        }
        i += 1;
    }
    (groups, duplicates)
}

/// How many of the first `n` output faces came from `operand`'s source
/// face `source`.
pub open spec fn same_source_count(
    sources: Seq<crate::exact_boolean::ExactBooleanOutputFaceSource>,
    operand: crate::exact_boolean::ExactBooleanOperand,
    source: usize,
    n: int,
) -> nat
    decreases n,
{
    if n <= 0 {
        0
    } else {
        same_source_count(sources, operand, source, n - 1) + if sources[n - 1].operand == operand && sources[n - 1].source_face
            == source {
            1nat
        } else {
            0nat
        }
    }
}

/// Over the first `n` output faces of `operand`: how many repeat a source
/// face seen exactly once before (one per source face with several output
/// faces), and how many repeat an earlier source face at all (the faces
/// beyond the first of each source face).
pub open spec fn duplicate_source_stats(
    sources: Seq<crate::exact_boolean::ExactBooleanOutputFaceSource>,
    operand: crate::exact_boolean::ExactBooleanOperand,
    n: int,
) -> (nat, nat)
    decreases n,
{
    if n <= 0 {
        (0, 0)
    } else {
        let prev = duplicate_source_stats(sources, operand, n - 1);
        if sources[n - 1].operand == operand {
            let seen = same_source_count(sources, operand, sources[n - 1].source_face, n - 1);
            (prev.0 + if seen == 1 { 1nat } else { 0nat }, prev.1 + if seen >= 1 { 1nat } else { 0nat })
        } else {
            prev
        }
    }
}

proof fn lemma_duplicate_source_bounds(
    sources: Seq<crate::exact_boolean::ExactBooleanOutputFaceSource>,
    operand: crate::exact_boolean::ExactBooleanOperand,
    n: int,
)
    ensures
        n >= 0 ==> duplicate_source_stats(sources, operand, n).0 <= n && duplicate_source_stats(sources, operand, n).1 <= n,
        n >= 0 ==> forall|s: usize| #[trigger] same_source_count(sources, operand, s, n) <= n,
    decreases n,
{
    if n > 0 {
        lemma_duplicate_source_bounds(sources, operand, n - 1);
        assert forall|s: usize| #[trigger] same_source_count(sources, operand, s, n) <= n by {
            assert(same_source_count(sources, operand, s, n - 1) <= n - 1);
        }
    }
}

/// For the output faces of `operand`, grouped by source face: how many
/// source faces have several output faces, and how many output faces they
/// have beyond the first.
pub fn duplicate_source_faces(
    face_sources: &Vec<crate::exact_boolean::ExactBooleanOutputFaceSource>,
    operand: crate::exact_boolean::ExactBooleanOperand,
) -> (out: (usize, usize))
    ensures
        out.0 == duplicate_source_stats(face_sources@, operand, face_sources@.len() as int).0,
        out.1 == duplicate_source_stats(face_sources@, operand, face_sources@.len() as int).1,
{
    let mut groups: usize = 0;
    let mut duplicates: usize = 0;
    let mut i: usize = 0;
    while i < face_sources.len()
        invariant
            i <= face_sources@.len(),
            groups == duplicate_source_stats(face_sources@, operand, i as int).0,
            duplicates == duplicate_source_stats(face_sources@, operand, i as int).1,
        decreases face_sources@.len() - i,
    {
        proof {
            lemma_duplicate_source_bounds(face_sources@, operand, i as int);
        }
        if face_sources[i].operand == operand {
            let source = face_sources[i].source_face;
            let mut seen: usize = 0;
            let mut j: usize = 0;
            while j < i
                invariant
                    j <= i,
                    i < face_sources@.len(),
                    source == face_sources@[i as int].source_face,
                    seen == same_source_count(face_sources@, operand, source, j as int),
                decreases i - j,
            {
                proof {
                    lemma_duplicate_source_bounds(face_sources@, operand, j as int);
                }
                if face_sources[j].operand == operand && face_sources[j].source_face == source {
                    seen += 1;
                }
                j += 1;
            }
            if seen == 1 {
                groups += 1;
            }
            if seen >= 1 {
                duplicates += 1;
            }
        }
        i += 1;
    }
    (groups, duplicates)
}

/// How many faces each operand had selected, and how their output faces
/// share source faces.
#[derive(Debug, Clone, Copy, PartialEq, Eq)]
pub struct FaceSourceSummary {
    pub selected_first_faces: usize,
    pub selected_second_faces: usize,
    pub first_source_face_groups: usize,
    pub second_source_face_groups: usize,
    pub duplicate_first_source_faces: usize,
    pub duplicate_second_source_faces: usize,
}

/// The selection sizes and the duplicate source faces of each operand.
pub fn face_source_summary(
    face_sources: &Vec<crate::exact_boolean::ExactBooleanOutputFaceSource>,
    selected_first_faces: &Vec<usize>,
    selected_second_faces: &Vec<usize>,
) -> (out: FaceSourceSummary)
    ensures
        out.selected_first_faces == selected_first_faces@.len(),
        out.selected_second_faces == selected_second_faces@.len(),
        out.first_source_face_groups == duplicate_source_stats(face_sources@, crate::exact_boolean::ExactBooleanOperand::First, face_sources@.len() as int).0,
        out.duplicate_first_source_faces == duplicate_source_stats(face_sources@, crate::exact_boolean::ExactBooleanOperand::First, face_sources@.len() as int).1,
        out.second_source_face_groups == duplicate_source_stats(face_sources@, crate::exact_boolean::ExactBooleanOperand::Second, face_sources@.len() as int).0,
        out.duplicate_second_source_faces == duplicate_source_stats(face_sources@, crate::exact_boolean::ExactBooleanOperand::Second, face_sources@.len() as int).1,
{
    let (first_groups, first_duplicates) = duplicate_source_faces(face_sources, crate::exact_boolean::ExactBooleanOperand::First);
    let (second_groups, second_duplicates) = duplicate_source_faces(face_sources, crate::exact_boolean::ExactBooleanOperand::Second);
    FaceSourceSummary {
        selected_first_faces: selected_first_faces.len(),
        selected_second_faces: selected_second_faces.len(),
        first_source_face_groups: first_groups,
        second_source_face_groups: second_groups,
        duplicate_first_source_faces: first_duplicates,
        duplicate_second_source_faces: second_duplicates,
    }
}

/// How many faces below `n` are selected and have the undirected `edge`.
pub open spec fn incidence_upto(faces: Seq<[i64; 3]>, selected: Seq<usize>, edge: [usize; 2], n: int) -> nat
    decreases n,
{
    if n <= 0 {
        0
    } else {
        incidence_upto(faces, selected, edge, n - 1) + if selected.contains((n - 1) as usize) && signed_face_has_edge(
            faces[n - 1],
            spec_ordered(edge),
        ) {
            1nat
        } else {
            0nat
        }
    }
}

/// How many selected faces have the undirected `edge`.
pub fn selected_edge_incidence(faces: &Vec<[i64; 3]>, selected_faces: &Vec<usize>, edge: [usize; 2]) -> (out: usize)
    ensures
        out == incidence_upto(faces@, selected_faces@, edge, faces@.len() as int),
{
    let key = crate::edge::ordered_edge(edge);
    let mut count: usize = 0;
    let mut f: usize = 0;
    while f < faces.len()
        invariant
            f <= faces@.len(),
            key == spec_ordered(edge),
            count == incidence_upto(faces@, selected_faces@, edge, f as int),
            count <= f,
        decreases faces@.len() - f,
    {
        if crate::edge::contains_index(selected_faces, f) && face_has_edge(faces[f], key) {
            count += 1;
        }
        f += 1;
    }
    count
}

/// How many of the first `n` contour edges do not have exactly one selected
/// face.
pub open spec fn boundary_miss_count(
    faces: Seq<[i64; 3]>,
    selected: Seq<usize>,
    edges: Seq<[usize; 2]>,
    n: int,
) -> nat
    decreases n,
{
    if n <= 0 {
        0
    } else {
        boundary_miss_count(faces, selected, edges, n - 1) + if incidence_upto(
            faces,
            selected,
            edges[n - 1],
            faces.len() as int,
        ) != 1 {
            1nat
        } else {
            0nat
        }
    }
}

/// How many contour edges do not have exactly one selected face, as a
/// boundary of the selection should.
pub fn contour_boundary_misses(faces: &Vec<[i64; 3]>, selected_faces: &Vec<usize>, contour_edges: &Vec<[usize; 2]>) -> (out: usize)
    ensures
        out == boundary_miss_count(faces@, selected_faces@, contour_edges@, contour_edges@.len() as int),
{
    let mut misses: usize = 0;
    let mut e: usize = 0;
    while e < contour_edges.len()
        invariant
            e <= contour_edges@.len(),
            misses == boundary_miss_count(faces@, selected_faces@, contour_edges@, e as int),
            misses <= e,
        decreases contour_edges@.len() - e,
    {
        if selected_edge_incidence(faces, selected_faces, contour_edges[e]) != 1 {
            misses += 1;
        }
        e += 1;
    }
    misses
}

/// The edges of the cut paths, path after path.
pub fn flat_path_edges(paths: &Vec<Vec<[usize; 2]>>) -> (out: Vec<[usize; 2]>)
    ensures
        out@ == crate::rewrite_inputs::path_edges_upto(paths@, paths@.len() as int),
{
    let mut out: Vec<[usize; 2]> = Vec::new();
    let mut p: usize = 0;
    while p < paths.len()
        invariant
            p <= paths@.len(),
            out@ == crate::rewrite_inputs::path_edges_upto(paths@, p as int),
        decreases paths.len() - p,
    {
        let path = &paths[p];
        let ghost head = out@;
        let mut k: usize = 0;
        while k < path.len()
            invariant
                p < paths@.len(),
                path@ == paths@[p as int]@,
                head == crate::rewrite_inputs::path_edges_upto(paths@, p as int),
                k <= path@.len(),
                out@ == head + path@.take(k as int),
            decreases path.len() - k,
        {
            out.push(path[k]);
            proof {
                assert(out@ =~= head + path@.take(k as int + 1));
            }
            k += 1;
        }
        proof {
            assert(path@.take(path@.len() as int) =~= path@);
        }
        p += 1;
    }
    out
}

/// The contour boundary misses of each operand's cut, first against its
/// raw prepared faces, then against its selected faces.
pub fn boundary_misses(
    first_cut: &ExactCutMeshRecords,
    second_cut: &ExactCutMeshRecords,
    first_raw_faces: &Vec<usize>,
    second_raw_faces: &Vec<usize>,
    selected_first_faces: &Vec<usize>,
    selected_second_faces: &Vec<usize>,
) -> (out: [[usize; 2]; 2])
    ensures
        ({
            let first_edges = crate::rewrite_inputs::path_edges_upto(first_cut.cut_edge_paths@, first_cut.cut_edge_paths@.len() as int);
            let second_edges = crate::rewrite_inputs::path_edges_upto(second_cut.cut_edge_paths@, second_cut.cut_edge_paths@.len() as int);
            &&& out[0][0] == boundary_miss_count(first_cut.faces@, first_raw_faces@, first_edges, first_edges.len() as int)
            &&& out[0][1] == boundary_miss_count(second_cut.faces@, second_raw_faces@, second_edges, second_edges.len() as int)
            &&& out[1][0] == boundary_miss_count(first_cut.faces@, selected_first_faces@, first_edges, first_edges.len() as int)
            &&& out[1][1] == boundary_miss_count(second_cut.faces@, selected_second_faces@, second_edges, second_edges.len() as int)
        }),
{
    let first_edges = flat_path_edges(&first_cut.cut_edge_paths);
    let second_edges = flat_path_edges(&second_cut.cut_edge_paths);
    [
        [
            contour_boundary_misses(&first_cut.faces, first_raw_faces, &first_edges),
            contour_boundary_misses(&second_cut.faces, second_raw_faces, &second_edges),
        ],
        [
            contour_boundary_misses(&first_cut.faces, selected_first_faces, &first_edges),
            contour_boundary_misses(&second_cut.faces, selected_second_faces, &second_edges),
        ],
    ]
}

/// The entry for cut edge `i` of a per-edge table, when there is one.
pub open spec fn edge_entry(table: Seq<Option<usize>>, i: usize) -> Option<usize> {
    if i < table.len() {
        table[i as int]
    } else {
        None
    }
}

/// The cut edge a pair names on one side.
pub open spec fn side_edge_index(pair: ExactStitchEdgePair, first: bool) -> usize {
    if first {
        pair.first_edge_index
    } else {
        pair.second_edge_index
    }
}

/// The table entries, on one side, of the first `n` pairs of a group that
/// exist and have an entry, in group order.
pub open spec fn group_entries(
    group: Seq<usize>,
    pairs: Seq<ExactStitchEdgePair>,
    table: Seq<Option<usize>>,
    first: bool,
    n: int,
) -> Seq<usize>
    decreases n,
{
    if n <= 0 {
        Seq::empty()
    } else {
        let before = group_entries(group, pairs, table, first, n - 1);
        let p = group[n - 1];
        if p < pairs.len() {
            match edge_entry(table, side_edge_index(pairs[p as int], first)) {
                Some(face) => before.push(face),
                None => before,
            }
        } else {
            before
        }
    }
}

/// How many of the first `n` pairs of a group lack an entry on one side,
/// a missing pair counting on both sides.
pub open spec fn group_misses(
    group: Seq<usize>,
    pairs: Seq<ExactStitchEdgePair>,
    table: Seq<Option<usize>>,
    first: bool,
    n: int,
) -> nat
    decreases n,
{
    if n <= 0 {
        0
    } else {
        let p = group[n - 1];
        group_misses(group, pairs, table, first, n - 1) + if p < pairs.len() && edge_entry(
            table,
            side_edge_index(pairs[p as int], first),
        ) is Some {
            0nat
        } else {
            1nat
        }
    }
}

/// The groups' lists of pair indices.
pub open spec fn group_views(groups: Seq<Vec<usize>>) -> Seq<Seq<usize>> {
    groups.map_values(|v: Vec<usize>| v@)
}

/// The entries of the first `g` groups, one group after another.
pub open spec fn all_entries(
    groups: Seq<Seq<usize>>,
    pairs: Seq<ExactStitchEdgePair>,
    table: Seq<Option<usize>>,
    first: bool,
    g: int,
) -> Seq<usize>
    decreases g,
{
    if g <= 0 {
        Seq::empty()
    } else {
        all_entries(groups, pairs, table, first, g - 1) + group_entries(
            groups[g - 1],
            pairs,
            table,
            first,
            groups[g - 1].len() as int,
        )
    }
}

/// The misses of the first `g` groups together.
pub open spec fn all_misses(
    groups: Seq<Seq<usize>>,
    pairs: Seq<ExactStitchEdgePair>,
    table: Seq<Option<usize>>,
    first: bool,
    g: int,
) -> nat
    decreases g,
{
    if g <= 0 {
        0
    } else {
        all_misses(groups, pairs, table, first, g - 1) + group_misses(
            groups[g - 1],
            pairs,
            table,
            first,
            groups[g - 1].len() as int,
        )
    }
}

/// The source faces and owner candidates along stitch paths, path by path
/// and all together, with their runs and the records that were missing.
pub struct StitchSourcePaths {
    pub path_lengths: Vec<usize>,
    pub first_path_source_faces: Vec<Vec<usize>>,
    pub second_path_source_faces: Vec<Vec<usize>>,
    pub first_path_source_face_runs: Vec<Vec<[usize; 2]>>,
    pub second_path_source_face_runs: Vec<Vec<[usize; 2]>>,
    pub first_path_meshlib_removed_face_owner_candidates: Vec<Vec<usize>>,
    pub second_path_meshlib_removed_face_owner_candidates: Vec<Vec<usize>>,
    pub first_path_meshlib_removed_face_owner_candidate_runs: Vec<Vec<[usize; 2]>>,
    pub second_path_meshlib_removed_face_owner_candidate_runs: Vec<Vec<[usize; 2]>>,
    pub first_source_faces: Vec<usize>,
    pub second_source_faces: Vec<usize>,
    pub first_source_face_runs: Vec<[usize; 2]>,
    pub second_source_face_runs: Vec<[usize; 2]>,
    pub first_meshlib_removed_face_owner_candidates: Vec<usize>,
    pub second_meshlib_removed_face_owner_candidates: Vec<usize>,
    pub first_meshlib_removed_face_owner_candidate_runs: Vec<[usize; 2]>,
    pub second_meshlib_removed_face_owner_candidate_runs: Vec<[usize; 2]>,
    pub meshlib_removed_face_owner_candidate_missing_records: [usize; 2],
    pub missing_source_records: [usize; 2],
}

/// The entries along one group on one side, and how many are missing.
fn group_side(
    group: &Vec<usize>,
    pairs: &Vec<ExactStitchEdgePair>,
    table: &Vec<Option<usize>>,
    first: bool,
) -> (out: (Vec<usize>, usize))
    ensures
        out.0@ == group_entries(group@, pairs@, table@, first, group@.len() as int),
        out.1 == group_misses(group@, pairs@, table@, first, group@.len() as int),
{
    let mut entries: Vec<usize> = Vec::new();
    let mut misses: usize = 0;
    let mut t: usize = 0;
    while t < group.len()
        invariant
            t <= group@.len(),
            entries@ == group_entries(group@, pairs@, table@, first, t as int),
            misses == group_misses(group@, pairs@, table@, first, t as int),
            misses <= t,
        decreases group@.len() - t,
    {
        let p = group[t];
        if p < pairs.len() {
            let i = if first {
                pairs[p].first_edge_index
            } else {
                pairs[p].second_edge_index
            };
            let entry = if i < table.len() {
                table[i]
            } else {
                None
            };
            match entry {
                Some(face) => entries.push(face),
                None => misses += 1,
            }
        } else {
            misses += 1;
        }
        t += 1;
    }
    (entries, misses)
}

/// All of `v` appended to `out`.
fn append_all(out: &mut Vec<usize>, v: &Vec<usize>)
    ensures
        final(out)@ == old(out)@ + v@,
{
    let mut i: usize = 0;
    while i < v.len()
        invariant
            i <= v@.len(),
            out@ == old(out)@ + v@.subrange(0, i as int),
        decreases v@.len() - i,
    {
        out.push(v[i]);
        i += 1;
        assert(out@ =~= old(out)@ + v@.subrange(0, i as int));
    }
    assert(v@.subrange(0, v@.len() as int) =~= v@);
}

/// One side's lists along the groups: per group, all together, and the misses.
fn side_lists(
    pair_groups: &Vec<Vec<usize>>,
    pairs: &Vec<ExactStitchEdgePair>,
    table: &Vec<Option<usize>>,
    first: bool,
) -> (out: (Vec<Vec<usize>>, Vec<usize>, usize))
    requires
        all_misses(group_views(pair_groups@), pairs@, table@, first, pair_groups@.len() as int) <= usize::MAX,
    ensures
        out.0@.len() == pair_groups@.len(),
        forall|g: int| 0 <= g < out.0@.len() ==> (#[trigger] out.0@[g])@ == group_entries(
            pair_groups@[g]@,
            pairs@,
            table@,
            first,
            pair_groups@[g]@.len() as int,
        ),
        out.1@ == all_entries(group_views(pair_groups@), pairs@, table@, first, pair_groups@.len() as int),
        out.2 == all_misses(group_views(pair_groups@), pairs@, table@, first, pair_groups@.len() as int),
{
    let mut per_group: Vec<Vec<usize>> = Vec::new();
    let mut total: Vec<usize> = Vec::new();
    let mut misses: usize = 0;
    let mut g: usize = 0;
    while g < pair_groups.len()
        invariant
            g <= pair_groups@.len(),
            all_misses(group_views(pair_groups@), pairs@, table@, first, pair_groups@.len() as int) <= usize::MAX,
            per_group@.len() == g,
            forall|h: int| 0 <= h < g ==> (#[trigger] per_group@[h])@ == group_entries(
                pair_groups@[h]@,
                pairs@,
                table@,
                first,
                pair_groups@[h]@.len() as int,
            ),
            total@ == all_entries(group_views(pair_groups@), pairs@, table@, first, g as int),
            misses == all_misses(group_views(pair_groups@), pairs@, table@, first, g as int),
        decreases pair_groups@.len() - g,
    {
        let (entries, group_missing) = group_side(&pair_groups[g], pairs, table, first);
        proof {
            lemma_all_misses_monotone(group_views(pair_groups@), pairs@, table@, first, g as int + 1, pair_groups@.len() as int);
            assert(group_views(pair_groups@)[g as int] == pair_groups@[g as int]@);
        }
        append_all(&mut total, &entries);
        misses = misses + group_missing;
        per_group.push(entries);
        g += 1;
    }
    (per_group, total, misses)
}

/// Miss totals grow with the number of groups counted.
proof fn lemma_all_misses_monotone(
    groups: Seq<Seq<usize>>,
    pairs: Seq<ExactStitchEdgePair>,
    table: Seq<Option<usize>>,
    first: bool,
    a: int,
    b: int,
)
    requires
        0 <= a <= b,
    ensures
        all_misses(groups, pairs, table, first, a) <= all_misses(groups, pairs, table, first, b),
    decreases b - a,
{
    if a < b {
        lemma_all_misses_monotone(groups, pairs, table, first, a, b - 1);
    }
}

/// `out` lists, along the groups of stitch pairs, the entries of each
/// side's source face and owner candidate tables: per group, all together,
/// as runs, and the entries each side was missing.
pub open spec fn source_paths_ok(
    groups: Seq<Seq<usize>>,
    pairs: Seq<ExactStitchEdgePair>,
    first_sources: Seq<Option<usize>>,
    second_sources: Seq<Option<usize>>,
    first_owners: Seq<Option<usize>>,
    second_owners: Seq<Option<usize>>,
    out: &StitchSourcePaths,
) -> bool {
    &&& out.path_lengths@.len() == groups.len()
    &&& forall|g: int| 0 <= g < groups.len() ==> #[trigger] out.path_lengths@[g] == groups[g].len()
    &&& out.first_path_source_faces@.len() == groups.len()
    &&& out.second_path_source_faces@.len() == groups.len()
    &&& out.first_path_meshlib_removed_face_owner_candidates@.len() == groups.len()
    &&& out.second_path_meshlib_removed_face_owner_candidates@.len() == groups.len()
    &&& forall|g: int| 0 <= g < groups.len() ==> {
        &&& (#[trigger] out.first_path_source_faces@[g])@ == group_entries(groups[g], pairs, first_sources, true, groups[g].len() as int)
        &&& out.second_path_source_faces@[g]@ == group_entries(groups[g], pairs, second_sources, false, groups[g].len() as int)
        &&& out.first_path_meshlib_removed_face_owner_candidates@[g]@ == group_entries(groups[g], pairs, first_owners, true, groups[g].len() as int)
        &&& out.second_path_meshlib_removed_face_owner_candidates@[g]@ == group_entries(groups[g], pairs, second_owners, false, groups[g].len() as int)
    }
    &&& out.first_path_source_face_runs@.len() == groups.len()
    &&& out.second_path_source_face_runs@.len() == groups.len()
    &&& out.first_path_meshlib_removed_face_owner_candidate_runs@.len() == groups.len()
    &&& out.second_path_meshlib_removed_face_owner_candidate_runs@.len() == groups.len()
    &&& forall|g: int| 0 <= g < groups.len() ==> {
        &&& decode_runs((#[trigger] out.first_path_source_face_runs@[g])@) == out.first_path_source_faces@[g]@
        &&& runs_canonical(out.first_path_source_face_runs@[g]@)
        &&& decode_runs(out.second_path_source_face_runs@[g]@) == out.second_path_source_faces@[g]@
        &&& runs_canonical(out.second_path_source_face_runs@[g]@)
        &&& decode_runs(out.first_path_meshlib_removed_face_owner_candidate_runs@[g]@) == out.first_path_meshlib_removed_face_owner_candidates@[g]@
        &&& runs_canonical(out.first_path_meshlib_removed_face_owner_candidate_runs@[g]@)
        &&& decode_runs(out.second_path_meshlib_removed_face_owner_candidate_runs@[g]@) == out.second_path_meshlib_removed_face_owner_candidates@[g]@
        &&& runs_canonical(out.second_path_meshlib_removed_face_owner_candidate_runs@[g]@)
    }
    &&& out.first_source_faces@ == all_entries(groups, pairs, first_sources, true, groups.len() as int)
    &&& out.second_source_faces@ == all_entries(groups, pairs, second_sources, false, groups.len() as int)
    &&& out.first_meshlib_removed_face_owner_candidates@ == all_entries(groups, pairs, first_owners, true, groups.len() as int)
    &&& out.second_meshlib_removed_face_owner_candidates@ == all_entries(groups, pairs, second_owners, false, groups.len() as int)
    &&& decode_runs(out.first_source_face_runs@) == out.first_source_faces@
    &&& runs_canonical(out.first_source_face_runs@)
    &&& decode_runs(out.second_source_face_runs@) == out.second_source_faces@
    &&& runs_canonical(out.second_source_face_runs@)
    &&& decode_runs(out.first_meshlib_removed_face_owner_candidate_runs@) == out.first_meshlib_removed_face_owner_candidates@
    &&& runs_canonical(out.first_meshlib_removed_face_owner_candidate_runs@)
    &&& decode_runs(out.second_meshlib_removed_face_owner_candidate_runs@) == out.second_meshlib_removed_face_owner_candidates@
    &&& runs_canonical(out.second_meshlib_removed_face_owner_candidate_runs@)
    &&& out.missing_source_records[0] == all_misses(groups, pairs, first_sources, true, groups.len() as int)
    &&& out.missing_source_records[1] == all_misses(groups, pairs, second_sources, false, groups.len() as int)
    &&& out.meshlib_removed_face_owner_candidate_missing_records[0] == all_misses(groups, pairs, first_owners, true, groups.len() as int)
    &&& out.meshlib_removed_face_owner_candidate_missing_records[1] == all_misses(groups, pairs, second_owners, false, groups.len() as int)
}

/// The source faces and owner candidates along the stitch paths given as
/// groups of stitch pairs: for each pair that exists, the entry of its cut
/// edge in each side's tables; path by path, all together, and as runs; with
/// how many entries each side was missing, a missing pair counting on both.
pub fn stitch_source_paths_from_pair_groups(
    pair_groups: &Vec<Vec<usize>>,
    stitch_plan: &ExactStitchPlan,
    first_source_faces_by_edge: &Vec<Option<usize>>,
    second_source_faces_by_edge: &Vec<Option<usize>>,
    first_owner_candidates_by_edge: &Vec<Option<usize>>,
    second_owner_candidates_by_edge: &Vec<Option<usize>>,
) -> (out: StitchSourcePaths)
    requires
        all_misses(group_views(pair_groups@), stitch_plan.pairs@, first_source_faces_by_edge@, true, pair_groups@.len() as int) <= usize::MAX,
        all_misses(group_views(pair_groups@), stitch_plan.pairs@, second_source_faces_by_edge@, false, pair_groups@.len() as int) <= usize::MAX,
        all_misses(group_views(pair_groups@), stitch_plan.pairs@, first_owner_candidates_by_edge@, true, pair_groups@.len() as int) <= usize::MAX,
        all_misses(group_views(pair_groups@), stitch_plan.pairs@, second_owner_candidates_by_edge@, false, pair_groups@.len() as int) <= usize::MAX,
    ensures
        source_paths_ok(
            group_views(pair_groups@),
            stitch_plan.pairs@,
            first_source_faces_by_edge@,
            second_source_faces_by_edge@,
            first_owner_candidates_by_edge@,
            second_owner_candidates_by_edge@,
            &out,
        ),
{
    let pairs = &stitch_plan.pairs;
    let mut path_lengths: Vec<usize> = Vec::new();
    let mut g: usize = 0;
    while g < pair_groups.len()
        invariant
            g <= pair_groups@.len(),
            path_lengths@.len() == g,
            forall|h: int| 0 <= h < g ==> #[trigger] path_lengths@[h] == pair_groups@[h]@.len(),
        decreases pair_groups@.len() - g,
    {
        path_lengths.push(pair_groups[g].len());
        g += 1;
    }
    let (first_paths, first_all, first_missing) = side_lists(pair_groups, pairs, first_source_faces_by_edge, true);
    let (second_paths, second_all, second_missing) = side_lists(pair_groups, pairs, second_source_faces_by_edge, false);
    let (first_owner_paths, first_owner_all, first_owner_missing) = side_lists(pair_groups, pairs, first_owner_candidates_by_edge, true);
    let (second_owner_paths, second_owner_all, second_owner_missing) = side_lists(pair_groups, pairs, second_owner_candidates_by_edge, false);
    let first_path_source_face_runs = source_face_runs_by_path(&first_paths);
    let second_path_source_face_runs = source_face_runs_by_path(&second_paths);
    let first_path_owner_runs = source_face_runs_by_path(&first_owner_paths);
    let second_path_owner_runs = source_face_runs_by_path(&second_owner_paths);
    let first_source_face_runs = source_face_runs(&first_all);
    let second_source_face_runs = source_face_runs(&second_all);
    let first_owner_runs = source_face_runs(&first_owner_all);
    let second_owner_runs = source_face_runs(&second_owner_all);
    StitchSourcePaths {
        path_lengths,
        first_path_source_faces: first_paths,
        second_path_source_faces: second_paths,
        first_path_source_face_runs,
        second_path_source_face_runs,
        first_path_meshlib_removed_face_owner_candidates: first_owner_paths,
        second_path_meshlib_removed_face_owner_candidates: second_owner_paths,
        first_path_meshlib_removed_face_owner_candidate_runs: first_path_owner_runs,
        second_path_meshlib_removed_face_owner_candidate_runs: second_path_owner_runs,
        first_source_faces: first_all,
        second_source_faces: second_all,
        first_source_face_runs,
        second_source_face_runs,
        first_meshlib_removed_face_owner_candidates: first_owner_all,
        second_meshlib_removed_face_owner_candidates: second_owner_all,
        first_meshlib_removed_face_owner_candidate_runs: first_owner_runs,
        second_meshlib_removed_face_owner_candidate_runs: second_owner_runs,
        meshlib_removed_face_owner_candidate_missing_records: [first_owner_missing, second_owner_missing],
        missing_source_records: [first_missing, second_missing],
    }
}

} // verus!
