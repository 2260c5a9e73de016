//! Face and path bookkeeping around preparing the operands of a boolean:
//! which faces a fill appended or a cut kept valid, which lifecycle slots
//! hold which faces, the shadow repair paths laid over a cut, and which
//! side of the other operand each part keeps.
use vstd::prelude::*;

use crate::edge::{edges_increasing, increasing, insert_sorted_edge, spec_ordered};
use crate::exact_boolean::{ExactBooleanOperand, ExactBooleanOperation};
use crate::exact_boolean_topology::AssemblyTopology;
use crate::exact_cut::ExactCutMeshRecords;
use crate::source_cut2origin::{copy_items, copy_lists, ExactCutHoleFillPlan, ExactCutHoleFillResult};
use crate::source_details::signed_face_edges;
use crate::source_inventory::{flat_sources, known_sources};

verus! {

/// Whether some `[start, end)` range of `ranges` holds `f`.
pub open spec fn in_ranges(ranges: Seq<[usize; 2]>, f: usize) -> bool {
    exists|r: int| 0 <= r < ranges.len() && #[trigger] ranges[r][0] <= f && f < ranges[r][1]
}

/// The items of `s` that satisfy `p`, in order.
pub open spec fn keep(s: Seq<usize>, p: spec_fn(usize) -> bool) -> Seq<usize>
    decreases s.len(),
{
    if s.len() == 0 {
        Seq::empty()
    } else if p(s.last()) {
        keep(s.drop_last(), p).push(s.last())
    } else {
        keep(s.drop_last(), p)
    }
}

/// Each item kept satisfies the predicate.
pub(crate) proof fn lemma_keep_satisfies(s: Seq<usize>, p: spec_fn(usize) -> bool)
    ensures
        keep(s, p).len() <= s.len(),
        forall|i: int| 0 <= i < keep(s, p).len() ==> p(#[trigger] keep(s, p)[i]),
    decreases s.len(),
{
    if s.len() > 0 {
        lemma_keep_satisfies(s.drop_last(), p);
    }
}

/// An item of `s` that satisfies the predicate is kept.
pub(crate) proof fn lemma_keep_contains(s: Seq<usize>, p: spec_fn(usize) -> bool, i: int)
    requires
        0 <= i < s.len(),
        p(s[i]),
    ensures
        keep(s, p).contains(s[i]),
    decreases s.len(),
{
    if i == s.len() - 1 {
        assert(keep(s, p)[keep(s, p).len() - 1] == s[i]);
    } else {
        lemma_keep_contains(s.drop_last(), p, i);
        let k = choose|k: int| 0 <= k < keep(s.drop_last(), p).len() && keep(s.drop_last(), p)[k] == s[i];
        if p(s.last()) {
            assert(keep(s, p)[k] == s[i]);
        }
    }
}

/// Each kept item is an item of `s`.
pub(crate) proof fn lemma_keep_member(s: Seq<usize>, p: spec_fn(usize) -> bool, i: int)
    requires
        0 <= i < keep(s, p).len(),
    ensures
        s.contains(keep(s, p)[i]),
    decreases s.len(),
{
    if s.len() > 0 {
        if p(s.last()) && i == keep(s, p).len() - 1 {
            assert(s[s.len() - 1] == keep(s, p)[i]);
        } else {
            lemma_keep_member(s.drop_last(), p, i);
            let k = choose|k: int| 0 <= k < s.drop_last().len() && s.drop_last()[k] == keep(s, p)[i];
            assert(s[k] == keep(s, p)[i]);
        }
    }
}

/// Whether some range holds `f`.
fn in_some_range(ranges: &Vec<[usize; 2]>, f: usize) -> (out: bool)
    ensures
        out == in_ranges(ranges@, f),
{
    let mut r: usize = 0;
    while r < ranges.len()
        invariant
            r <= ranges@.len(),
            forall|q: int| 0 <= q < r ==> !(#[trigger] ranges@[q][0] <= f && f < ranges@[q][1]),
        decreases ranges.len() - r,
    {
        if ranges[r][0] <= f && f < ranges[r][1] {
            return true;
        }
        r += 1;
    }
    false
}

/// The prepared faces that a fill appended, in order.
pub fn faces_in_added_ranges(prepared_faces: &Vec<usize>, added_face_ranges: &Vec<[usize; 2]>) -> (out: Vec<usize>)
    ensures
        out@ == keep(prepared_faces@, |f: usize| in_ranges(added_face_ranges@, f)),
{
    let ghost p = |f: usize| in_ranges(added_face_ranges@, f);
    let mut out: Vec<usize> = Vec::new();
    let mut i: usize = 0;
    while i < prepared_faces.len()
        invariant
            i <= prepared_faces@.len(),
            p == (|f: usize| in_ranges(added_face_ranges@, f)),
            out@ == keep(prepared_faces@.subrange(0, i as int), p),
        decreases prepared_faces.len() - i,
    {
        proof {
            assert(prepared_faces@.subrange(0, i as int + 1).drop_last() =~= prepared_faces@.subrange(0, i as int));
        }
        if in_some_range(added_face_ranges, prepared_faces[i]) {
            out.push(prepared_faces[i]);
        }
        i += 1;
    }
    proof {
        assert(prepared_faces@.subrange(0, prepared_faces@.len() as int) =~= prepared_faces@);
    }
    out
}

/// The prepared faces that are valid cut faces, in order.
pub fn faces_in_valid_cut_faces(prepared_faces: &Vec<usize>, valid_cut_faces: &Vec<usize>) -> (out: Vec<usize>)
    ensures
        out@ == keep(prepared_faces@, |f: usize| valid_cut_faces@.contains(f)),
{
    let ghost p = |f: usize| valid_cut_faces@.contains(f);
    let mut out: Vec<usize> = Vec::new();
    let mut i: usize = 0;
    while i < prepared_faces.len()
        invariant
            i <= prepared_faces@.len(),
            p == (|f: usize| valid_cut_faces@.contains(f)),
            out@ == keep(prepared_faces@.subrange(0, i as int), p),
        decreases prepared_faces.len() - i,
    {
        proof {
            assert(prepared_faces@.subrange(0, i as int + 1).drop_last() =~= prepared_faces@.subrange(0, i as int));
        }
        if crate::edge::contains_index(valid_cut_faces, prepared_faces[i]) {
            out.push(prepared_faces[i]);
        }
        i += 1;
    }
    proof {
        assert(prepared_faces@.subrange(0, prepared_faces@.len() as int) =~= prepared_faces@);
    }
    out
}

/// For a difference, the subtracted operand's prepared faces of the raw
/// assembly, kept to its valid cut faces, replace the projected assembly's;
/// nothing changes for other operations.
pub fn preserve_projected_coplanar_difference_prepare_masks(
    projected: &mut AssemblyTopology,
    raw: &AssemblyTopology,
    valid_first_cut_faces: &Vec<usize>,
    valid_second_cut_faces: &Vec<usize>,
    operation: ExactBooleanOperation,
)
    ensures
        final(projected).vertex_count == old(projected).vertex_count,
        final(projected).faces == old(projected).faces,
        final(projected).face_sources == old(projected).face_sources,
        final(projected).first_output_vertex_for_cut_vertex == old(projected).first_output_vertex_for_cut_vertex,
        final(projected).second_output_vertex_for_cut_vertex == old(projected).second_output_vertex_for_cut_vertex,
        final(projected).stitched_edge_sources == old(projected).stitched_edge_sources,
        final(projected).stitched_edge_paths == old(projected).stitched_edge_paths,
        operation == ExactBooleanOperation::DifferenceAB ==> final(projected).prepare_second_faces@ == keep(
            raw.prepare_second_faces@,
            |f: usize| valid_second_cut_faces@.contains(f),
        ) && final(projected).prepare_first_faces == old(projected).prepare_first_faces,
        operation == ExactBooleanOperation::DifferenceBA ==> final(projected).prepare_first_faces@ == keep(
            raw.prepare_first_faces@,
            |f: usize| valid_first_cut_faces@.contains(f),
        ) && final(projected).prepare_second_faces == old(projected).prepare_second_faces,
        operation != ExactBooleanOperation::DifferenceAB && operation != ExactBooleanOperation::DifferenceBA
            ==> final(projected).prepare_first_faces == old(projected).prepare_first_faces
            && final(projected).prepare_second_faces == old(projected).prepare_second_faces,
{
    match operation {
        ExactBooleanOperation::DifferenceAB => {
            projected.prepare_second_faces = faces_in_valid_cut_faces(&raw.prepare_second_faces, valid_second_cut_faces);
        },
        ExactBooleanOperation::DifferenceBA => {
            projected.prepare_first_faces = faces_in_valid_cut_faces(&raw.prepare_first_faces, valid_first_cut_faces);
        },
        _ => {},
    }
}

/// Whether the part kept of the operand the result cut comes from lies
/// inside the other operand.
pub open spec fn spec_replacement_need_inside(operation: ExactBooleanOperation, origin_is_first: bool) -> bool {
    match operation {
        ExactBooleanOperation::Intersection => true,
        ExactBooleanOperation::DifferenceAB => !origin_is_first,
        ExactBooleanOperation::DifferenceBA => origin_is_first,
        _ => false,
    }
}

/// The replacement part taken from an operand lies on the side of the
/// other operand that the assembly keeps of that operand.
pub proof fn lemma_replacement_side_matches_kept_side(operation: ExactBooleanOperation, origin_is_first: bool)
    requires
        crate::exact_boolean::spec_requires_stitch(operation),
    ensures
        origin_is_first ==> crate::exact_boolean::spec_first_need_inside(operation) == Some(
            spec_replacement_need_inside(operation, origin_is_first),
        ),
        !origin_is_first ==> crate::exact_boolean::spec_second_need_inside(operation) == Some(
            spec_replacement_need_inside(operation, origin_is_first),
        ),
{
}

/// Whether the replacement part lies inside the other operand: always for
/// an intersection, never for a union, and for a difference when it is
/// taken from the subtracted operand.
pub fn replacement_need_inside(operation: ExactBooleanOperation, origin_is_first: bool) -> (out: bool)
    ensures
        out == spec_replacement_need_inside(operation, origin_is_first),
{
    match operation {
        ExactBooleanOperation::Union => false,
        ExactBooleanOperation::Intersection => true,
        ExactBooleanOperation::DifferenceAB => !origin_is_first,
        ExactBooleanOperation::DifferenceBA => origin_is_first,
        _ => false,
    }
}

/// How many of `slots` lie in `[start, end)`.
pub open spec fn slot_count(slots: Seq<usize>, start: usize, end: usize) -> nat
    decreases slots.len(),
{
    if slots.len() == 0 {
        0
    } else {
        slot_count(slots.drop_last(), start, end) + if start <= slots.last() && slots.last() < end { 1nat } else { 0nat }
    }
}

/// The slots of `slots` in `[start, end)`, in order.
fn slots_in(slots: &Vec<usize>, start: usize, end: usize) -> (out: Vec<usize>)
    ensures
        out@ == keep(slots@, |s: usize| start <= s && s < end),
        out@.len() == slot_count(slots@, start, end),
{
    let ghost p = |s: usize| start <= s && s < end;
    let mut out: Vec<usize> = Vec::new();
    let mut i: usize = 0;
    while i < slots.len()
        invariant
            i <= slots@.len(),
            p == (|s: usize| start <= s && s < end),
            out@ == keep(slots@.subrange(0, i as int), p),
            out@.len() == slot_count(slots@.subrange(0, i as int), start, end),
        decreases slots.len() - i,
    {
        proof {
            assert(slots@.subrange(0, i as int + 1).drop_last() =~= slots@.subrange(0, i as int));
        }
        if start <= slots[i] && slots[i] < end {
            out.push(slots[i]);
        }
        i += 1;
    }
    proof {
        assert(slots@.subrange(0, slots@.len() as int) =~= slots@);
    }
    out
}

/// A lifecycle slot run with one more entry: how many of `slots` lie in
/// the run's slot range `[run[6], run[7])`.
pub open spec fn with_slot_count(run: [usize; 8], slots: Seq<usize>, out: [usize; 9]) -> bool {
    &&& forall|k: int| 0 <= k < 8 ==> out[k] == run[k]
    &&& out[8] == slot_count(slots, run[6], run[7])
}

/// For each run of the first lifecycle slot path, the run with the number
/// of `slots` in its slot range; nothing without a path.
fn slot_coverage(lifecycle_slot_paths: &Vec<Vec<[usize; 8]>>, slots: &Vec<usize>) -> (out: Vec<[usize; 9]>)
    ensures
        lifecycle_slot_paths@.len() == 0 ==> out@.len() == 0,
        lifecycle_slot_paths@.len() > 0 ==> out@.len() == lifecycle_slot_paths@[0]@.len() && forall|r: int|
            0 <= r < out@.len() ==> with_slot_count(lifecycle_slot_paths@[0]@[r], slots@, #[trigger] out@[r]),
{
    let mut out: Vec<[usize; 9]> = Vec::new();
    if lifecycle_slot_paths.len() == 0 {
        return out;
    }
    let path = &lifecycle_slot_paths[0];
    let mut r: usize = 0;
    while r < path.len()
        invariant
            path@ == lifecycle_slot_paths@[0]@,
            r <= path@.len(),
            out@.len() == r,
            forall|q: int| 0 <= q < r ==> with_slot_count(path@[q], slots@, #[trigger] out@[q]),
        decreases path.len() - r,
    {
        let run = path[r];
        let count = slots_in(slots, run[6], run[7]).len();
        let entry = [run[0], run[1], run[2], run[3], run[4], run[5], run[6], run[7], count];
        proof {
            assert(with_slot_count(run, slots@, entry));
        }
        out.push(entry);
        r += 1;
    }
    out
}

/// For each run of the first lifecycle slot path, its fields and how many
/// of the face slots lie in its slot range.
pub fn lifecycle_slot_face_coverage(lifecycle_slot_paths: &Vec<Vec<[usize; 8]>>, face_slots: &Vec<usize>) -> (out: Vec<[usize; 9]>)
    ensures
        lifecycle_slot_paths@.len() == 0 ==> out@.len() == 0,
        lifecycle_slot_paths@.len() > 0 ==> out@.len() == lifecycle_slot_paths@[0]@.len() && forall|r: int|
            0 <= r < out@.len() ==> with_slot_count(lifecycle_slot_paths@[0]@[r], face_slots@, #[trigger] out@[r]),
{
    slot_coverage(lifecycle_slot_paths, face_slots)
}

/// For each run of the first lifecycle slot path, the face slots in its
/// slot range, in order; nothing without a path.
pub fn lifecycle_slot_face_groups(lifecycle_slot_paths: &Vec<Vec<[usize; 8]>>, face_slots: &Vec<usize>) -> (out: Vec<Vec<usize>>)
    ensures
        lifecycle_slot_paths@.len() == 0 ==> out@.len() == 0,
        lifecycle_slot_paths@.len() > 0 ==> out@.len() == lifecycle_slot_paths@[0]@.len() && forall|r: int|
            0 <= r < out@.len() ==> (#[trigger] out@[r])@ == keep(
                face_slots@,
                |s: usize| lifecycle_slot_paths@[0]@[r][6] <= s && s < lifecycle_slot_paths@[0]@[r][7],
            ),
{
    let mut out: Vec<Vec<usize>> = Vec::new();
    if lifecycle_slot_paths.len() == 0 {
        return out;
    }
    let path = &lifecycle_slot_paths[0];
    let mut r: usize = 0;
    while r < path.len()
        invariant
            path@ == lifecycle_slot_paths@[0]@,
            r <= path@.len(),
            out@.len() == r,
            forall|q: int|
                0 <= q < r ==> (#[trigger] out@[q])@ == keep(face_slots@, |s: usize| path@[q][6] <= s && s < path@[q][7]),
        decreases path.len() - r,
    {
        let run = path[r];
        out.push(slots_in(face_slots, run[6], run[7]));
        r += 1;
    }
    out
}

/// The cut faces the export gave to `operand`, in export order.
pub open spec fn exported_slots(operands: Seq<Option<ExactBooleanOperand>>, cut_faces: Seq<Option<usize>>, operand: ExactBooleanOperand, n: int) -> Seq<usize>
    decreases n,
{
    if n <= 0 {
        Seq::empty()
    } else if operands[n - 1] == Some(operand) && cut_faces[n - 1] is Some {
        exported_slots(operands, cut_faces, operand, n - 1).push(cut_faces[n - 1]->0)
    } else {
        exported_slots(operands, cut_faces, operand, n - 1)
    }
}

/// How many exported faces carry both an operand and a cut face record.
pub open spec fn exported_count(operands: Seq<Option<ExactBooleanOperand>>, cut_faces: Seq<Option<usize>>) -> int {
    if operands.len() <= cut_faces.len() {
        operands.len() as int
    } else {
        cut_faces.len() as int
    }
}

/// The cut faces the export gave to `operand`, in export order.
fn operand_exported_slots(
    exported_face_operands: &Vec<Option<ExactBooleanOperand>>,
    exported_face_cut_faces: &Vec<Option<usize>>,
    operand: ExactBooleanOperand,
) -> (out: Vec<usize>)
    ensures
        out@ == exported_slots(
            exported_face_operands@,
            exported_face_cut_faces@,
            operand,
            exported_count(exported_face_operands@, exported_face_cut_faces@),
        ),
{
    let mut n = exported_face_operands.len();
    if exported_face_cut_faces.len() < n {
        n = exported_face_cut_faces.len();
    }
    let mut out: Vec<usize> = Vec::new();
    let mut i: usize = 0;
    while i < n
        invariant
            n == exported_count(exported_face_operands@, exported_face_cut_faces@),
            i <= n,
            out@ == exported_slots(exported_face_operands@, exported_face_cut_faces@, operand, i as int),
        decreases n - i,
    {
        if exported_face_operands[i] == Some(operand) {
            if let Some(face) = exported_face_cut_faces[i] {
                out.push(face);
            }
        }
        i += 1;
    }
    out
}

/// For each run of the first lifecycle slot path, its fields and how many
/// of the cut faces exported for `operand` lie in its slot range.
pub fn lifecycle_slot_export_coverage(
    lifecycle_slot_paths: &Vec<Vec<[usize; 8]>>,
    exported_face_operands: &Vec<Option<ExactBooleanOperand>>,
    exported_face_cut_faces: &Vec<Option<usize>>,
    operand: ExactBooleanOperand,
) -> (out: Vec<[usize; 9]>)
    ensures
        lifecycle_slot_paths@.len() == 0 ==> out@.len() == 0,
        lifecycle_slot_paths@.len() > 0 ==> out@.len() == lifecycle_slot_paths@[0]@.len() && forall|r: int|
            0 <= r < out@.len() ==> with_slot_count(
                lifecycle_slot_paths@[0]@[r],
                exported_slots(
                    exported_face_operands@,
                    exported_face_cut_faces@,
                    operand,
                    exported_count(exported_face_operands@, exported_face_cut_faces@),
                ),
                #[trigger] out@[r],
            ),
{
    let slots = operand_exported_slots(exported_face_operands, exported_face_cut_faces, operand);
    slot_coverage(lifecycle_slot_paths, &slots)
}

/// For each run of the first lifecycle slot path, the cut faces exported
/// for `operand` in its slot range, in order.
pub fn lifecycle_slot_export_groups(
    lifecycle_slot_paths: &Vec<Vec<[usize; 8]>>,
    exported_face_operands: &Vec<Option<ExactBooleanOperand>>,
    exported_face_cut_faces: &Vec<Option<usize>>,
    operand: ExactBooleanOperand,
) -> (out: Vec<Vec<usize>>)
    ensures
        lifecycle_slot_paths@.len() == 0 ==> out@.len() == 0,
        lifecycle_slot_paths@.len() > 0 ==> out@.len() == lifecycle_slot_paths@[0]@.len() && forall|r: int|
            0 <= r < out@.len() ==> (#[trigger] out@[r])@ == keep(
                exported_slots(
                    exported_face_operands@,
                    exported_face_cut_faces@,
                    operand,
                    exported_count(exported_face_operands@, exported_face_cut_faces@),
                ),
                |s: usize| lifecycle_slot_paths@[0]@[r][6] <= s && s < lifecycle_slot_paths@[0]@[r][7],
            ),
{
    let slots = operand_exported_slots(exported_face_operands, exported_face_cut_faces, operand);
    lifecycle_slot_face_groups(lifecycle_slot_paths, &slots)
}

/// Whether `f` is among the original faces that the first removed-face
/// owner path names.
pub open spec fn invalid_original_face(removed_face_owner_paths: Seq<Vec<usize>>, original_faces: usize, f: usize) -> bool {
    removed_face_owner_paths.len() > 0 && removed_face_owner_paths[0]@.contains(f) && f < original_faces
}

/// The valid cut faces, given the first cut-to-origin source sequence: the
/// original faces that no removed face is owned by, then every face past
/// the original ones; none without a sequence.
pub open spec fn spec_valid_cut_faces(
    original_faces: usize,
    cut2origin_source_faces: Seq<Vec<usize>>,
    removed_face_owner_paths: Seq<Vec<usize>>,
) -> Seq<usize> {
    if cut2origin_source_faces.len() == 0 {
        Seq::empty()
    } else {
        let records = cut2origin_source_faces[0]@.len();
        keep(
            Seq::new(original_faces as nat, |i: int| i as usize),
            |f: usize| !invalid_original_face(removed_face_owner_paths, original_faces, f),
        ) + if original_faces < records {
            Seq::new((records - original_faces) as nat, |i: int| (original_faces + i) as usize)
        } else {
            Seq::empty()
        }
    }
}

/// The cut faces that stay valid: the original faces not owned by a
/// removed face, then the faces that the cut appended.
pub fn meshlib_valid_cut_faces(
    original_faces: usize,
    cut2origin_source_faces: &Vec<Vec<usize>>,
    removed_face_owner_paths: &Vec<Vec<usize>>,
) -> (out: Vec<usize>)
    ensures
        out@ == spec_valid_cut_faces(original_faces, cut2origin_source_faces@, removed_face_owner_paths@),
{
    let mut out: Vec<usize> = Vec::new();
    if cut2origin_source_faces.len() == 0 {
        return out;
    }
    let ghost p = |f: usize| !invalid_original_face(removed_face_owner_paths@, original_faces, f);
    let ghost originals = Seq::new(original_faces as nat, |i: int| i as usize);
    let mut f: usize = 0;
    while f < original_faces
        invariant
            f <= original_faces,
            p == (|f: usize| !invalid_original_face(removed_face_owner_paths@, original_faces, f)),
            originals == Seq::new(original_faces as nat, |i: int| i as usize),
            out@ == keep(originals.subrange(0, f as int), p),
        decreases original_faces - f,
    {
        proof {
            assert(originals.subrange(0, f as int + 1).drop_last() =~= originals.subrange(0, f as int));
            assert(originals.subrange(0, f as int + 1).last() == f);
        }
        let invalid = removed_face_owner_paths.len() > 0 && crate::edge::contains_index(&removed_face_owner_paths[0], f);
        if !invalid {
            out.push(f);
        }
        f += 1;
    }
    proof {
        assert(originals.subrange(0, original_faces as int) =~= originals);
    }
    let ghost head = out@;
    let records = cut2origin_source_faces[0].len();
    let mut g: usize = original_faces;
    while g < records
        invariant
            original_faces <= g,
            g <= records || g == original_faces,
            out@ == head + Seq::new((g - original_faces) as nat, |i: int| (original_faces + i) as usize),
        decreases records - g,
    {
        out.push(g);
        proof {
            assert(out@ =~= head + Seq::new((g + 1 - original_faces) as nat, |i: int| (original_faces + i) as usize));
        }
        g += 1;
    }
    proof {
        if original_faces >= records {
            assert(out@ =~= head + Seq::<usize>::empty());
        } else {
            assert(g == records);
        }
    }
    out
}

/// The projected result cut paths without the trailing shadow repair paths.
pub fn projected_result_cut_edge_paths_without_shadow_repairs(
    projected_cut_edge_paths: &Vec<Vec<[usize; 2]>>,
    trailing_shadow_repair_paths: usize,
) -> (out: Vec<Vec<[usize; 2]>>)
    ensures
        out@.len() == (if projected_cut_edge_paths@.len() >= trailing_shadow_repair_paths {
            projected_cut_edge_paths@.len() - trailing_shadow_repair_paths
        } else {
            0
        }),
        forall|i: int| 0 <= i < out@.len() ==> (#[trigger] out@[i])@ == projected_cut_edge_paths@[i]@,
{
    let count = projected_cut_edge_paths.len().saturating_sub(trailing_shadow_repair_paths);
    let mut out: Vec<Vec<[usize; 2]>> = Vec::new();
    let mut i: usize = 0;
    while i < count
        invariant
            count <= projected_cut_edge_paths@.len(),
            i <= count,
            out@.len() == i,
            forall|j: int| 0 <= j < i ==> (#[trigger] out@[j])@ == projected_cut_edge_paths@[j]@,
        decreases count - i,
    {
        out.push(copy_items(&projected_cut_edge_paths[i]));
        i += 1;
    }
    out
}

/// The projected cut paths, when there are any.
pub fn non_empty_projected_cut_edge_paths(paths: &Vec<Vec<[usize; 2]>>) -> (out: Option<&Vec<Vec<[usize; 2]>>>)
    ensures
        out is Some <==> paths@.len() > 0,
        out matches Some(p) ==> p == paths,
{
    if paths.len() > 0 {
        Some(paths)
    } else {
        None
    }
}

/// A shadow repair path laid over a cut: its edges, and the source face
/// along each.
pub struct ExactCutShadowRepairPath {
    pub path: Vec<[usize; 2]>,
    pub source_faces: Vec<Option<usize>>,
}

/// The known source faces of each shadow repair path.
pub fn shadow_repair_path_source_faces(repair_paths: &Vec<ExactCutShadowRepairPath>) -> (out: Vec<Vec<usize>>)
    ensures
        out@.len() == repair_paths@.len(),
        forall|i: int| 0 <= i < out@.len() ==> (#[trigger] out@[i])@ == flat_sources(repair_paths@[i].source_faces@),
{
    let mut out: Vec<Vec<usize>> = Vec::new();
    let mut i: usize = 0;
    while i < repair_paths.len()
        invariant
            i <= repair_paths@.len(),
            out@.len() == i,
            forall|j: int| 0 <= j < i ==> (#[trigger] out@[j])@ == flat_sources(repair_paths@[j].source_faces@),
        decreases repair_paths.len() - i,
    {
        out.push(known_sources(&repair_paths[i].source_faces));
        i += 1;
    }
    out
}

/// `edges` with each edge of `new` appended, in order, unless already there.
pub open spec fn add_new_edges(edges: Seq<[usize; 2]>, new: Seq<[usize; 2]>) -> Seq<[usize; 2]>
    decreases new.len(),
{
    if new.len() == 0 {
        edges
    } else {
        let before = add_new_edges(edges, new.drop_last());
        if before.contains(new.last()) {
            before
        } else {
            before.push(new.last())
        }
    }
}

/// The edges of the first `n` repair paths, path after path.
pub open spec fn repair_edges(repairs: Seq<ExactCutShadowRepairPath>, n: int) -> Seq<[usize; 2]>
    decreases n,
{
    if n <= 0 {
        Seq::empty()
    } else {
        repair_edges(repairs, n - 1) + repairs[n - 1].path@
    }
}

/// `out` is `cut` with the repair paths appended as open cut paths, and
/// their edges added to the cut edges.
pub open spec fn shadow_ok(cut: &ExactCutMeshRecords, repairs: Seq<ExactCutShadowRepairPath>, out: &ExactCutMeshRecords) -> bool {
    let n = cut.cut_edge_paths@.len();
    let m = cut.cut_edge_path_source_faces@.len();
    &&& out.faces@ == cut.faces@
    &&& out.source_face_for_faces@ == cut.source_face_for_faces@
    &&& out.cut_face_source_events@ == cut.cut_face_source_events@
    &&& out.collapsed_cut_segment_path_source_faces@.len() == cut.collapsed_cut_segment_path_source_faces@.len()
    &&& forall|i: int|
        0 <= i < cut.collapsed_cut_segment_path_source_faces@.len() ==> (#[trigger] out.collapsed_cut_segment_path_source_faces@[i])@
            == cut.collapsed_cut_segment_path_source_faces@[i]@
    &&& out.cut_edges@ == add_new_edges(cut.cut_edges@, repair_edges(repairs, repairs.len() as int))
    &&& out.cut_edge_paths@.len() == n + repairs.len()
    &&& forall|i: int| 0 <= i < n ==> (#[trigger] out.cut_edge_paths@[i])@ == cut.cut_edge_paths@[i]@
    &&& forall|j: int| 0 <= j < repairs.len() ==> (#[trigger] out.cut_edge_paths@[n + j])@ == repairs[j].path@
    &&& out.cut_edge_path_closed@ == cut.cut_edge_path_closed@ + Seq::new(repairs.len(), |j: int| false)
    &&& out.cut_edge_path_source_faces@.len() == m + repairs.len()
    &&& forall|i: int| 0 <= i < m ==> (#[trigger] out.cut_edge_path_source_faces@[i])@ == cut.cut_edge_path_source_faces@[i]@
    &&& forall|j: int| 0 <= j < repairs.len() ==> (#[trigger] out.cut_edge_path_source_faces@[m + j])@ == repairs[j].source_faces@
}

/// The cut mesh with the shadow repair paths laid over it as open cut
/// paths, their new edges added to its cut edges.
pub fn cut_mesh_with_shadow_repair_paths(cut: &ExactCutMeshRecords, repair_paths: &Vec<ExactCutShadowRepairPath>) -> (out: ExactCutMeshRecords)
    ensures
        shadow_ok(cut, repair_paths@, &out),
{
    let mut cut_edges = copy_items(&cut.cut_edges);
    let mut paths = copy_lists(&cut.cut_edge_paths);
    let mut closed = copy_items(&cut.cut_edge_path_closed);
    let mut sources = copy_lists(&cut.cut_edge_path_source_faces);
    let n = cut.cut_edge_paths.len();
    let m = cut.cut_edge_path_source_faces.len();
    let mut r: usize = 0;
    while r < repair_paths.len()
        invariant
            r <= repair_paths@.len(),
            n == cut.cut_edge_paths@.len(),
            m == cut.cut_edge_path_source_faces@.len(),
            cut_edges@ == add_new_edges(cut.cut_edges@, repair_edges(repair_paths@, r as int)),
            paths@.len() == n + r,
            forall|i: int| 0 <= i < n ==> (#[trigger] paths@[i])@ == cut.cut_edge_paths@[i]@,
            forall|j: int| 0 <= j < r ==> (#[trigger] paths@[n + j])@ == repair_paths@[j].path@,
            closed@ == cut.cut_edge_path_closed@ + Seq::new(r as nat, |j: int| false),
            sources@.len() == m + r,
            forall|i: int| 0 <= i < m ==> (#[trigger] sources@[i])@ == cut.cut_edge_path_source_faces@[i]@,
            forall|j: int| 0 <= j < r ==> (#[trigger] sources@[m + j])@ == repair_paths@[j].source_faces@,
        decreases repair_paths.len() - r,
    {
        let repair = &repair_paths[r];
        let ghost base = repair_edges(repair_paths@, r as int);
        let mut k: usize = 0;
        while k < repair.path.len()
            invariant
                r < repair_paths@.len(),
                repair.path@ == repair_paths@[r as int].path@,
                k <= repair.path@.len(),
                cut_edges@ == add_new_edges(cut.cut_edges@, base + repair.path@.subrange(0, k as int)),
            decreases repair.path.len() - k,
        {
            let edge = repair.path[k];
            proof {
                assert((base + repair.path@.subrange(0, k as int + 1)).drop_last() =~= base + repair.path@.subrange(0, k as int));
                assert((base + repair.path@.subrange(0, k as int + 1)).last() == edge);
            }
            if !crate::edge::contains_edge(&cut_edges, edge) {
                cut_edges.push(edge);
            }
            k += 1;
        }
        proof {
            assert(repair.path@.subrange(0, repair.path@.len() as int) =~= repair.path@);
        }
        paths.push(copy_items(&repair.path));
        closed.push(false);
        sources.push(copy_items(&repair.source_faces));
        proof {
            assert(closed@ =~= cut.cut_edge_path_closed@ + Seq::new((r + 1) as nat, |j: int| false));
            assert forall|j: int| 0 <= j < r + 1 implies (#[trigger] paths@[n + j])@ == repair_paths@[j].path@ by {
                if j < r {
                    assert(paths@[n + j] == paths@[n + j]);
                }
            }
            assert forall|j: int| 0 <= j < r + 1 implies (#[trigger] sources@[m + j])@ == repair_paths@[j].source_faces@ by {
                if j < r {
                    assert(sources@[m + j] == sources@[m + j]);
                }
            }
        }
        r += 1;
    }
    ExactCutMeshRecords {
        faces: copy_items(&cut.faces),
        cut_edges,
        cut_edge_paths: paths,
        cut_edge_path_closed: closed,
        cut_edge_path_source_faces: sources,
        collapsed_cut_segment_path_source_faces: copy_lists(&cut.collapsed_cut_segment_path_source_faces),
        source_face_for_faces: copy_items(&cut.source_face_for_faces),
        cut_face_source_events: copy_items(&cut.cut_face_source_events),
    }
}

/// `a` and `b` hold the same fill plans and face ranges.
pub open spec fn same_fills(a: &ExactCutHoleFillResult, b: &ExactCutHoleFillResult) -> bool {
    &&& a.added_face_ranges@ == b.added_face_ranges@
    &&& a.fill_plans@.len() == b.fill_plans@.len()
    &&& forall|q: int|
        0 <= q < a.fill_plans@.len() ==> {
            let x = #[trigger] a.fill_plans@[q];
            let y = b.fill_plans@[q];
            &&& x.representative_edge == y.representative_edge
            &&& x.boundary_edges@ == y.boundary_edges@
            &&& x.source_face == y.source_face
            &&& x.source_face_for_faces@ == y.source_face_for_faces@
            &&& x.num_tris == y.num_tris
        }
}

/// A copy of the fill plans.
fn copy_fill_plans(plans: &Vec<ExactCutHoleFillPlan>) -> (out: Vec<ExactCutHoleFillPlan>)
    ensures
        out@.len() == plans@.len(),
        forall|q: int|
            0 <= q < plans@.len() ==> {
                let x = #[trigger] out@[q];
                let y = plans@[q];
                &&& x.representative_edge == y.representative_edge
                &&& x.boundary_edges@ == y.boundary_edges@
                &&& x.source_face == y.source_face
                &&& x.source_face_for_faces@ == y.source_face_for_faces@
                &&& x.num_tris == y.num_tris
            },
{
    let mut out: Vec<ExactCutHoleFillPlan> = Vec::new();
    let mut q: usize = 0;
    while q < plans.len()
        invariant
            q <= plans@.len(),
            out@.len() == q,
            forall|i: int|
                0 <= i < q ==> {
                    let x = #[trigger] out@[i];
                    let y = plans@[i];
                    &&& x.representative_edge == y.representative_edge
                    &&& x.boundary_edges@ == y.boundary_edges@
                    &&& x.source_face == y.source_face
                    &&& x.source_face_for_faces@ == y.source_face_for_faces@
                    &&& x.num_tris == y.num_tris
                },
        decreases plans.len() - q,
    {
        let plan = &plans[q];
        out.push(
            ExactCutHoleFillPlan {
                representative_edge: plan.representative_edge,
                boundary_edges: copy_items(&plan.boundary_edges),
                source_face: plan.source_face,
                source_face_for_faces: copy_items(&plan.source_face_for_faces),
                num_tris: plan.num_tris,
            },
        );
        q += 1;
    }
    out
}

/// The cut and fill with the shadow repair paths laid over its cut mesh.
pub fn cut_with_shadow_repair_paths(cut: &ExactCutHoleFillResult, repair_paths: &Vec<ExactCutShadowRepairPath>) -> (out: ExactCutHoleFillResult)
    ensures
        shadow_ok(&cut.mesh, repair_paths@, &out.mesh),
        same_fills(&out, cut),
{
    ExactCutHoleFillResult {
        mesh: cut_mesh_with_shadow_repair_paths(&cut.mesh, repair_paths),
        fill_plans: copy_fill_plans(&cut.fill_plans),
        added_face_ranges: copy_items(&cut.added_face_ranges),
    }
}

/// How many of the last `r` repair paths, taken from the last back, match
/// the last of the first `m` cut paths in turn.
pub open spec fn trailing_matches(paths: Seq<Vec<[usize; 2]>>, repairs: Seq<ExactCutShadowRepairPath>, m: int, r: int) -> nat
    decreases r,
{
    if r <= 0 || m <= 0 {
        0
    } else if paths[m - 1]@ == repairs[r - 1].path@ {
        1 + trailing_matches(paths, repairs, m - 1, r - 1)
    } else {
        0
    }
}

proof fn lemma_trailing_bound(paths: Seq<Vec<[usize; 2]>>, repairs: Seq<ExactCutShadowRepairPath>, m: int, r: int)
    requires
        m >= 0,
    ensures
        trailing_matches(paths, repairs, m, r) <= m,
    decreases r,
{
    if r > 0 && m > 0 && paths[m - 1]@ == repairs[r - 1].path@ {
        lemma_trailing_bound(paths, repairs, m - 1, r - 1);
    }
}

/// Whether two edge paths are the same.
fn same_path(a: &Vec<[usize; 2]>, b: &Vec<[usize; 2]>) -> (out: bool)
    ensures
        out == (a@ == b@),
{
    if a.len() != b.len() {
        return false;
    }
    let mut i: usize = 0;
    while i < a.len()
        invariant
            a@.len() == b@.len(),
            i <= a@.len(),
            forall|j: int| 0 <= j < i ==> a@[j] == b@[j],
        decreases a.len() - i,
    {
        if a[i][0] != b[i][0] || a[i][1] != b[i][1] {
            proof {
                assert(a@[i as int] != b@[i as int]);
            }
            return false;
        }
        proof {
            assert(a@[i as int] =~= b@[i as int]);
        }
        i += 1;
    }
    proof {
        assert(a@ =~= b@);
    }
    true
}

/// `s` without its last `k` entries, or empty when it has fewer.
pub open spec fn drop_back<T>(s: Seq<T>, k: int) -> Seq<T> {
    if k <= s.len() {
        s.subrange(0, s.len() - k)
    } else {
        Seq::empty()
    }
}

/// `out` is `cut` without the shadow repair paths that close its list of
/// cut paths, as many as match from the last repair path back.
pub open spec fn trailing_removed(cut: &ExactCutHoleFillResult, repairs: Seq<ExactCutShadowRepairPath>, out: &ExactCutHoleFillResult) -> bool {
    let k = trailing_matches(cut.mesh.cut_edge_paths@, repairs, cut.mesh.cut_edge_paths@.len() as int, repairs.len() as int) as int;
    &&& out.mesh.faces@ == cut.mesh.faces@
    &&& out.mesh.cut_edges@ == cut.mesh.cut_edges@
    &&& out.mesh.source_face_for_faces@ == cut.mesh.source_face_for_faces@
    &&& out.mesh.cut_face_source_events@ == cut.mesh.cut_face_source_events@
    &&& out.mesh.collapsed_cut_segment_path_source_faces@.len() == cut.mesh.collapsed_cut_segment_path_source_faces@.len()
    &&& forall|i: int|
        0 <= i < cut.mesh.collapsed_cut_segment_path_source_faces@.len() ==> (#[trigger] out.mesh.collapsed_cut_segment_path_source_faces@[i])@
            == cut.mesh.collapsed_cut_segment_path_source_faces@[i]@
    &&& out.mesh.cut_edge_paths@.len() == cut.mesh.cut_edge_paths@.len() - k
    &&& forall|i: int| 0 <= i < out.mesh.cut_edge_paths@.len() ==> (#[trigger] out.mesh.cut_edge_paths@[i])@ == cut.mesh.cut_edge_paths@[i]@
    &&& out.mesh.cut_edge_path_closed@ == drop_back(cut.mesh.cut_edge_path_closed@, k)
    &&& out.mesh.cut_edge_path_source_faces@.len() == drop_back(cut.mesh.cut_edge_path_source_faces@, k).len()
    &&& forall|i: int|
        0 <= i < out.mesh.cut_edge_path_source_faces@.len() ==> (#[trigger] out.mesh.cut_edge_path_source_faces@[i])@
            == cut.mesh.cut_edge_path_source_faces@[i]@
}

/// The cut and fill without the shadow repair paths that close its list of
/// cut paths: from the last repair path back, each that matches the last
/// cut path takes it off, with its closed flag and source faces.
pub fn cut_without_trailing_shadow_repair_paths(cut: &ExactCutHoleFillResult, repair_paths: &Vec<ExactCutShadowRepairPath>) -> (out: ExactCutHoleFillResult)
    ensures
        trailing_removed(cut, repair_paths@, &out),
        same_fills(&out, cut),
{
    let mesh = &cut.mesh;
    let mut paths = copy_lists(&mesh.cut_edge_paths);
    let mut closed = copy_items(&mesh.cut_edge_path_closed);
    let mut sources = copy_lists(&mesh.cut_edge_path_source_faces);
    let ghost total = trailing_matches(mesh.cut_edge_paths@, repair_paths@, mesh.cut_edge_paths@.len() as int, repair_paths@.len() as int) as int;
    let ghost n = mesh.cut_edge_paths@.len() as int;
    let repair_count = repair_paths.len();
    let mut r = repair_count;
    let mut c: usize = 0;
    while r > 0
        invariant
            r <= repair_paths@.len(),
            n == mesh.cut_edge_paths@.len(),
            c + r == repair_count,
            repair_count == repair_paths@.len(),
            c <= n,
            total == c + trailing_matches(mesh.cut_edge_paths@, repair_paths@, n - c, r as int),
            paths@.len() == n - c,
            forall|i: int| 0 <= i < paths@.len() ==> (#[trigger] paths@[i])@ == mesh.cut_edge_paths@[i]@,
            closed@ == drop_back(mesh.cut_edge_path_closed@, c as int),
            sources@.len() == drop_back(mesh.cut_edge_path_source_faces@, c as int).len(),
            forall|i: int| 0 <= i < sources@.len() ==> (#[trigger] sources@[i])@ == mesh.cut_edge_path_source_faces@[i]@,
        ensures
            total == c,
            paths@.len() == n - c,
            forall|i: int| 0 <= i < paths@.len() ==> (#[trigger] paths@[i])@ == mesh.cut_edge_paths@[i]@,
            closed@ == drop_back(mesh.cut_edge_path_closed@, c as int),
            sources@.len() == drop_back(mesh.cut_edge_path_source_faces@, c as int).len(),
            forall|i: int| 0 <= i < sources@.len() ==> (#[trigger] sources@[i])@ == mesh.cut_edge_path_source_faces@[i]@,
        decreases r,
    {
        let repair = &repair_paths[r - 1];
        let matches = paths.len() > 0 && same_path(&paths[paths.len() - 1], &repair.path);
        if !matches {
            proof {
                if n - c > 0 {
                    assert(paths@[paths@.len() - 1]@ == mesh.cut_edge_paths@[n - c - 1]@);
                }
            }
            break;
        }
        proof {
            assert(paths@[paths@.len() - 1]@ == mesh.cut_edge_paths@[n - c - 1]@);
        }
        paths.pop();
        let ghost closed_before = closed@;
        let ghost sources_before = sources@;
        closed.pop();
        sources.pop();
        proof {
            assert(closed@ =~= drop_back(mesh.cut_edge_path_closed@, c as int + 1));
        }
        c += 1;
        r -= 1;
    }
    proof {
        lemma_trailing_bound(mesh.cut_edge_paths@, repair_paths@, n, repair_paths@.len() as int);
    }
    ExactCutHoleFillResult {
        mesh: ExactCutMeshRecords {
            faces: copy_items(&mesh.faces),
            cut_edges: copy_items(&mesh.cut_edges),
            cut_edge_paths: paths,
            cut_edge_path_closed: closed,
            cut_edge_path_source_faces: sources,
            collapsed_cut_segment_path_source_faces: copy_lists(&mesh.collapsed_cut_segment_path_source_faces),
            source_face_for_faces: copy_items(&mesh.source_face_for_faces),
            cut_face_source_events: copy_items(&mesh.cut_face_source_events),
        },
        fill_plans: copy_fill_plans(&cut.fill_plans),
        added_face_ranges: copy_items(&cut.added_face_ranges),
    }
}

/// Whether face `f` of the cut mesh was appended by a fill.
pub open spec fn added_face(cut: &ExactCutHoleFillResult, f: int) -> bool {
    0 <= f < cut.mesh.faces@.len() && in_ranges(cut.added_face_ranges@, f as usize)
}

/// Whether face `f` has the ordered edge `e`.
pub open spec fn face_touches(cut: &ExactCutHoleFillResult, f: int, e: [usize; 2]) -> bool {
    exists|c: int| 0 <= c < 3 && #[trigger] spec_ordered(signed_face_edges(cut.mesh.faces@[f])[c]) == e
}

/// Whether some face of the cut mesh, appended by a fill exactly when
/// `added`, has the ordered edge `e`.
pub open spec fn edge_of_faces(cut: &ExactCutHoleFillResult, added: bool, e: [usize; 2]) -> bool {
    exists|f: int| 0 <= f < cut.mesh.faces@.len() && added_face(cut, f) == added && #[trigger] face_touches(cut, f, e)
}

/// The ordered edges of the faces appended by a fill exactly when `added`,
/// ascending and once each.
fn edges_of_faces(cut: &ExactCutHoleFillResult, added: bool) -> (out: Vec<[usize; 2]>)
    ensures
        edges_increasing(out@),
        forall|e: [usize; 2]| out@.contains(e) <==> edge_of_faces(cut, added, e),
{
    let faces = &cut.mesh.faces;
    let mut out: Vec<[usize; 2]> = Vec::new();
    let mut f: usize = 0;
    while f < faces.len()
        invariant
            faces@ == cut.mesh.faces@,
            f <= faces@.len(),
            edges_increasing(out@),
            forall|e: [usize; 2]|
                out@.contains(e) <==> exists|g: int| 0 <= g < f && added_face(cut, g) == added && #[trigger] face_touches(cut, g, e),
        decreases faces.len() - f,
    {
        let is_added = in_some_range(&cut.added_face_ranges, f);
        if is_added == added {
            let face = faces[f];
            let candidates = [
                [face[0] as usize, face[1] as usize],
                [face[1] as usize, face[2] as usize],
                [face[2] as usize, face[0] as usize],
            ];
            assert(forall|d: int| 0 <= d < 3 ==> candidates[d] == signed_face_edges(face)[d]);
            let mut c: usize = 0;
            while c < 3
                invariant
                    faces@ == cut.mesh.faces@,
                    f < faces@.len(),
                    face == faces@[f as int],
                    added_face(cut, f as int) == added,
                    forall|d: int| 0 <= d < 3 ==> candidates[d] == signed_face_edges(face)[d],
                    c <= 3,
                    edges_increasing(out@),
                    forall|e: [usize; 2]|
                        out@.contains(e) <==> (exists|g: int|
                            0 <= g < f && added_face(cut, g) == added && #[trigger] face_touches(cut, g, e)) || exists|d: int|
                            0 <= d < c && spec_ordered(signed_face_edges(face)[d]) == e,
                decreases 3 - c,
            {
                let ghost before = out@;
                let e = crate::edge::ordered_edge(candidates[c]);
                insert_sorted_edge(&mut out, e);
                proof {
                    assert forall|x: [usize; 2]|
                        out@.contains(x) <==> (exists|g: int|
                            0 <= g < f && added_face(cut, g) == added && #[trigger] face_touches(cut, g, x)) || exists|d: int|
                            0 <= d < c + 1 && spec_ordered(signed_face_edges(face)[d]) == x by {
                        assert(out@.contains(x) <==> out@.to_set().contains(x));
                        assert(before.contains(x) <==> before.to_set().contains(x));
                        if exists|d: int| 0 <= d < c + 1 && spec_ordered(signed_face_edges(face)[d]) == x {
                            let d = choose|d: int| 0 <= d < c + 1 && spec_ordered(signed_face_edges(face)[d]) == x;
                            if d < c {
                                assert(exists|d: int| 0 <= d < c && spec_ordered(signed_face_edges(face)[d]) == x);
                            }
                        }
                    }
                }
                c += 1;
            }
            proof {
                assert forall|e: [usize; 2]|
                    out@.contains(e) <==> exists|g: int| 0 <= g < f + 1 && added_face(cut, g) == added && #[trigger] face_touches(cut, g, e) by {
                    if exists|d: int| 0 <= d < 3 && spec_ordered(signed_face_edges(face)[d]) == e {
                        assert(face_touches(cut, f as int, e));
                    }
                    if exists|g: int| 0 <= g < f + 1 && added_face(cut, g) == added && #[trigger] face_touches(cut, g, e) {
                        let g = choose|g: int| 0 <= g < f + 1 && added_face(cut, g) == added && #[trigger] face_touches(cut, g, e);
                        if g == f {
                            let d = choose|d: int| 0 <= d < 3 && #[trigger] spec_ordered(signed_face_edges(cut.mesh.faces@[g])[d]) == e;
                            assert(exists|d: int| 0 <= d < 3 && spec_ordered(signed_face_edges(face)[d]) == e);
                        }
                    }
                }
            }
        } else {
            proof {
                assert forall|e: [usize; 2]|
                    out@.contains(e) <==> exists|g: int| 0 <= g < f + 1 && added_face(cut, g) == added && #[trigger] face_touches(cut, g, e) by {
                    if exists|g: int| 0 <= g < f + 1 && added_face(cut, g) == added && #[trigger] face_touches(cut, g, e) {
                        let g = choose|g: int| 0 <= g < f + 1 && added_face(cut, g) == added && #[trigger] face_touches(cut, g, e);
                        assert(g != f);
                        assert(exists|g: int| 0 <= g < f && added_face(cut, g) == added && #[trigger] face_touches(cut, g, e));
                    }
                }
            }
        }
        f += 1;
    }
    out
}

/// The ordered edges shared by a face a fill appended and a face it did
/// not, ascending and once each.
pub fn synthetic_contact_edges(cut: &ExactCutHoleFillResult) -> (out: Vec<[usize; 2]>)
    ensures
        edges_increasing(out@),
        forall|e: [usize; 2]| out@.contains(e) <==> (edge_of_faces(cut, true, e) && edge_of_faces(cut, false, e)),
{
    let added = edges_of_faces(cut, true);
    let original = edges_of_faces(cut, false);
    let mut out: Vec<[usize; 2]> = Vec::new();
    let mut i: usize = 0;
    while i < added.len()
        invariant
            i <= added@.len(),
            edges_increasing(added@),
            edges_increasing(out@),
            forall|t: int| #![trigger out@[t]] 0 <= t < out@.len() ==> exists|u: int| 0 <= u < i && #[trigger] added@[u] == out@[t],
            forall|e: [usize; 2]| out@.contains(e) <==> (added@.subrange(0, i as int).contains(e) && original@.contains(e)),
        decreases added.len() - i,
    {
        let edge = added[i];
        let ghost before = out@;
        if crate::edge::contains_edge(&original, edge) {
            out.push(edge);
            proof {
                assert forall|a: int, b: int| 0 <= a < b < out@.len() implies crate::edge::edge_lt(out@[a], out@[b]) by {
                    if b == out@.len() - 1 {
                        let u = choose|u: int| 0 <= u < i && #[trigger] added@[u] == before[a];
                        assert(crate::edge::edge_lt(added@[u], added@[i as int]));
                    }
                }
            }
        }
        proof {
            assert forall|t: int| #![trigger out@[t]] 0 <= t < out@.len() implies exists|u: int| 0 <= u < i + 1 && #[trigger] added@[u] == out@[t] by {
                if t < before.len() {
                    let u = choose|u: int| 0 <= u < i && #[trigger] added@[u] == before[t];
                    assert(out@[t] == before[t]);
                } else {
                    assert(added@[i as int] == out@[t]);
                }
            }
            let next = added@.subrange(0, i as int + 1);
            assert forall|e: [usize; 2]| out@.contains(e) <==> (next.contains(e) && original@.contains(e)) by {
                if next.contains(e) && e != edge {
                    let u = choose|u: int| 0 <= u < next.len() && next[u] == e;
                    assert(added@.subrange(0, i as int)[u] == e);
                }
                if added@.subrange(0, i as int).contains(e) {
                    let u = choose|u: int| 0 <= u < i && added@.subrange(0, i as int)[u] == e;
                    assert(next[u] == e);
                }
                if e == edge {
                    assert(next[i as int] == e);
                }
                if out@.contains(e) && !before.contains(e) {
                    let t = choose|t: int| 0 <= t < out@.len() && out@[t] == e;
                    assert(t == before.len());
                }
                if before.contains(e) {
                    let t = choose|t: int| 0 <= t < before.len() && before[t] == e;
                    assert(out@[t] == e);
                }
                if e == edge && original@.contains(e) {
                    assert(out@[before.len() as int] == e);
                }
            }
        }
        i += 1;
    }
    proof {
        assert(added@.subrange(0, added@.len() as int) =~= added@);
    }
    out
}

/// The sum of the counts that `counts` gives source face `f`.
pub open spec fn count_for(counts: Seq<[usize; 2]>, f: usize) -> int
    decreases counts.len(),
{
    if counts.len() == 0 {
        0
    } else {
        count_for(counts.drop_last(), f) + if counts.last()[0] == f { counts.last()[1] as int } else { 0 }
    }
}

/// The sum of all counts.
pub open spec fn count_total(counts: Seq<[usize; 2]>) -> int
    decreases counts.len(),
{
    if counts.len() == 0 {
        0
    } else {
        count_total(counts.drop_last()) + counts.last()[1] as int
    }
}

/// Whether `counts` names source face `f`.
pub open spec fn listed(counts: Seq<[usize; 2]>, f: usize) -> bool {
    exists|t: int| 0 <= t < counts.len() && (#[trigger] counts[t])[0] == f
}

/// How many more faces the materialized counts give `f` than the
/// source-preserving ones.
pub open spec fn count_delta(materialized: Seq<[usize; 2]>, preserving: Seq<[usize; 2]>, f: usize) -> int {
    count_for(materialized, f) - count_for(preserving, f)
}

/// `out` lists, by ascending source face, each source face that either
/// count list names and whose counts differ, with the difference.
pub open spec fn deltas_ok(materialized: Seq<[usize; 2]>, preserving: Seq<[usize; 2]>, out: Seq<[i64; 2]>) -> bool {
    &&& forall|i: int, j: int| 0 <= i < j < out.len() ==> (#[trigger] out[i])[0] < (#[trigger] out[j])[0]
    &&& forall|i: int|
        0 <= i < out.len() ==> {
            let f = (#[trigger] out[i])[0];
            &&& 0 <= f <= usize::MAX
            &&& listed(materialized, f as usize) || listed(preserving, f as usize)
            &&& out[i][1] == count_delta(materialized, preserving, f as usize)
            &&& out[i][1] != 0
        }
    &&& forall|f: usize|
        (listed(materialized, f) || listed(preserving, f)) && count_delta(materialized, preserving, f) != 0 ==> exists|i: int|
            0 <= i < out.len() && (#[trigger] out[i])[0] == f as i64
}

proof fn lemma_count_bounds(counts: Seq<[usize; 2]>, f: usize)
    ensures
        0 <= count_for(counts, f) <= count_total(counts),
    decreases counts.len(),
{
    if counts.len() > 0 {
        lemma_count_bounds(counts.drop_last(), f);
    }
}

proof fn lemma_count_total_prefix(counts: Seq<[usize; 2]>, k: int)
    requires
        0 <= k <= counts.len(),
    ensures
        0 <= count_total(counts.take(k)) <= count_total(counts),
    decreases counts.len(),
{
    lemma_count_bounds(counts.take(k), 0);
    if k < counts.len() {
        lemma_count_total_prefix(counts.drop_last(), k);
        assert(counts.drop_last().take(k) =~= counts.take(k));
    } else {
        assert(counts.take(k) =~= counts);
    }
}

/// The sum of the counts that `counts` gives `f`.
fn count_of(counts: &Vec<[usize; 2]>, f: usize) -> (out: i64)
    requires
        count_total(counts@) <= i64::MAX,
    ensures
        out == count_for(counts@, f),
{
    let mut sum: i64 = 0;
    let mut t: usize = 0;
    while t < counts.len()
        invariant
            t <= counts@.len(),
            count_total(counts@) <= i64::MAX,
            sum == count_for(counts@.take(t as int), f),
        decreases counts.len() - t,
    {
        let ghost next = counts@.take(t as int + 1);
        proof {
            assert(next.drop_last() =~= counts@.take(t as int));
            assert(next.last() == counts@[t as int]);
            lemma_count_total_prefix(counts@, t as int + 1);
            lemma_count_bounds(next, f);
            lemma_count_bounds(counts@.take(t as int), f);
            assert(count_total(next) == count_total(counts@.take(t as int)) + counts@[t as int][1]);
            assert(count_for(next, f) == count_for(counts@.take(t as int), f) + if counts@[t as int][0] == f {
                counts@[t as int][1] as int
            } else {
                0
            });
        }
        if counts[t][0] == f {
            let c = counts[t][1] as i64;
            sum = sum + c;
        }
        t += 1;
    }
    proof {
        assert(counts@.take(counts@.len() as int) =~= counts@);
    }
    sum
}

/// The source faces that `counts` names, added to the ascending set `keys`.
fn add_count_faces(keys: &mut Vec<usize>, counts: &Vec<[usize; 2]>)
    requires
        increasing(old(keys)@),
    ensures
        increasing(final(keys)@),
        forall|f: usize| #[trigger] final(keys)@.contains(f) <==> (old(keys)@.contains(f) || listed(counts@, f)),
{
    let mut t: usize = 0;
    while t < counts.len()
        invariant
            t <= counts@.len(),
            increasing(keys@),
            forall|f: usize| #[trigger] keys@.contains(f) <==> (old(keys)@.contains(f) || exists|u: int| 0 <= u < t && (#[trigger] counts@[u])[0] == f),
        decreases counts.len() - t,
    {
        let ghost before = keys@;
        crate::edge::insert_sorted(keys, counts[t][0]);
        proof {
            assert forall|f: usize| #[trigger] keys@.contains(f) <==> (old(keys)@.contains(f) || exists|u: int|
                0 <= u < t + 1 && (#[trigger] counts@[u])[0] == f) by {
                assert(keys@.contains(f) <==> keys@.to_set().contains(f));
                assert(before.contains(f) <==> before.to_set().contains(f));
                if exists|u: int| 0 <= u < t + 1 && (#[trigger] counts@[u])[0] == f {
                    let u = choose|u: int| 0 <= u < t + 1 && (#[trigger] counts@[u])[0] == f;
                    if u < t {
                        assert(exists|u: int| 0 <= u < t && (#[trigger] counts@[u])[0] == f);
                    }
                }
                if exists|u: int| 0 <= u < t && (#[trigger] counts@[u])[0] == f {
                    let u = choose|u: int| 0 <= u < t && (#[trigger] counts@[u])[0] == f;
                    assert(counts@[u][0] == f);
                }
                if f == counts@[t as int][0] {
                    assert(counts@[t as int][0] == f);
                }
            }
        }
        t += 1;
    }
}

/// For each source face that either list names, ascending, how many more
/// faces the materialized counts give it than the source-preserving ones,
/// leaving out the faces where they agree.
pub fn source_face_count_deltas(materialized_counts: &Vec<[usize; 2]>, source_preserving_counts: &Vec<[usize; 2]>) -> (out: Vec<[i64; 2]>)
    requires
        count_total(materialized_counts@) <= i64::MAX,
        count_total(source_preserving_counts@) <= i64::MAX,
        forall|t: int| 0 <= t < materialized_counts@.len() ==> (#[trigger] materialized_counts@[t])[0] <= i64::MAX,
        forall|t: int| 0 <= t < source_preserving_counts@.len() ==> (#[trigger] source_preserving_counts@[t])[0] <= i64::MAX,
    ensures
        deltas_ok(materialized_counts@, source_preserving_counts@, out@),
{
    let ghost mat = materialized_counts@;
    let ghost pre = source_preserving_counts@;
    let mut keys: Vec<usize> = Vec::new();
    add_count_faces(&mut keys, source_preserving_counts);
    add_count_faces(&mut keys, materialized_counts);
    let mut out: Vec<[i64; 2]> = Vec::new();
    let mut i: usize = 0;
    while i < keys.len()
        invariant
            mat == materialized_counts@,
            pre == source_preserving_counts@,
            count_total(mat) <= i64::MAX,
            count_total(pre) <= i64::MAX,
            forall|t: int| 0 <= t < mat.len() ==> (#[trigger] mat[t])[0] <= i64::MAX,
            forall|t: int| 0 <= t < pre.len() ==> (#[trigger] pre[t])[0] <= i64::MAX,
            increasing(keys@),
            forall|f: usize| #[trigger] keys@.contains(f) <==> (listed(mat, f) || listed(pre, f)),
            i <= keys@.len(),
            forall|a: int, b: int| 0 <= a < b < out@.len() ==> (#[trigger] out@[a])[0] < (#[trigger] out@[b])[0],
            forall|a: int|
                0 <= a < out@.len() ==> {
                    let f = (#[trigger] out@[a])[0];
                    &&& 0 <= f
                    &&& listed(mat, f as usize) || listed(pre, f as usize)
                    &&& out@[a][1] == count_delta(mat, pre, f as usize)
                    &&& out@[a][1] != 0
                    &&& exists|k: int| 0 <= k < i && keys@[k] == f
                },
            forall|k: int|
                0 <= k < i && count_delta(mat, pre, #[trigger] keys@[k]) != 0 ==> exists|a: int|
                    0 <= a < out@.len() && (#[trigger] out@[a])[0] == keys@[k] as i64,
        decreases keys.len() - i,
    {
        let f = keys[i];
        proof {
            assert(keys@.contains(f));
            if listed(mat, f) {
                let t = choose|t: int| 0 <= t < mat.len() && (#[trigger] mat[t])[0] == f;
                assert(mat[t][0] <= i64::MAX);
            } else {
                let t = choose|t: int| 0 <= t < pre.len() && (#[trigger] pre[t])[0] == f;
                assert(pre[t][0] <= i64::MAX);
            }
            lemma_count_bounds(mat, f);
            lemma_count_bounds(pre, f);
        }
        let m = count_of(materialized_counts, f);
        let p = count_of(source_preserving_counts, f);
        let delta = m - p;
        let ghost before = out@;
        if delta != 0 {
            out.push([f as i64, delta]);
            proof {
                assert forall|a: int, b: int| 0 <= a < b < out@.len() implies (#[trigger] out@[a])[0] < (#[trigger] out@[b])[0] by {
                    if b == out@.len() - 1 {
                        assert(out@[a] == before[a]);
                        let k = choose|k: int| 0 <= k < i && keys@[k] == before[a][0];
                        assert(keys@[k] < keys@[i as int]);
                    } else {
                        assert(out@[a] == before[a] && out@[b] == before[b]);
                    }
                }
            }
        }
        proof {
            assert forall|a: int| 0 <= a < out@.len() implies {
                let g = (#[trigger] out@[a])[0];
                &&& 0 <= g
                &&& listed(mat, g as usize) || listed(pre, g as usize)
                &&& out@[a][1] == count_delta(mat, pre, g as usize)
                &&& out@[a][1] != 0
                &&& exists|k: int| 0 <= k < i + 1 && keys@[k] == g
            } by {
                if a < before.len() {
                    assert(out@[a] == before[a]);
                    let k = choose|k: int| 0 <= k < i && keys@[k] == before[a][0];
                    assert(keys@[k] == out@[a][0]);
                } else {
                    assert(keys@[i as int] == f);
                    assert(keys@.contains(f));
                }
            }
            assert forall|k: int|
                0 <= k < i + 1 && count_delta(mat, pre, #[trigger] keys@[k]) != 0 implies exists|a: int|
                    0 <= a < out@.len() && (#[trigger] out@[a])[0] == keys@[k] as i64 by {
                if k < i {
                    let a = choose|a: int| 0 <= a < before.len() && (#[trigger] before[a])[0] == keys@[k] as i64;
                    assert(out@[a] == before[a]);
                } else {
                    assert(out@[before.len() as int][0] == f as i64);
                }
            }
        }
        i += 1;
    }
    proof {
        assert forall|f: usize|
            (listed(mat, f) || listed(pre, f)) && count_delta(mat, pre, f) != 0 implies exists|a: int|
                0 <= a < out@.len() && (#[trigger] out@[a])[0] == f as i64 by {
            assert(keys@.contains(f));
            let k = choose|k: int| 0 <= k < keys@.len() && keys@[k] == f;
            assert(count_delta(mat, pre, keys@[k]) != 0);
        }
    }
    out
}

/// The count deltas against the first source-preserving path's counts;
/// nothing without a path.
pub fn first_path_source_face_count_deltas(
    materialized_counts: &Vec<[usize; 2]>,
    source_preserving_path_counts: &Vec<Vec<[usize; 2]>>,
) -> (out: Vec<[i64; 2]>)
    requires
        count_total(materialized_counts@) <= i64::MAX,
        forall|t: int| 0 <= t < materialized_counts@.len() ==> (#[trigger] materialized_counts@[t])[0] <= i64::MAX,
        source_preserving_path_counts@.len() > 0 ==> count_total(source_preserving_path_counts@[0]@) <= i64::MAX,
        source_preserving_path_counts@.len() > 0 ==> forall|t: int|
            0 <= t < source_preserving_path_counts@[0]@.len() ==> (#[trigger] source_preserving_path_counts@[0]@[t])[0] <= i64::MAX,
    ensures
        source_preserving_path_counts@.len() == 0 ==> out@.len() == 0,
        source_preserving_path_counts@.len() > 0 ==> deltas_ok(materialized_counts@, source_preserving_path_counts@[0]@, out@),
{
    if source_preserving_path_counts.len() == 0 {
        Vec::new()
    } else {
        source_face_count_deltas(materialized_counts, &source_preserving_path_counts[0])
    }
}


/// Strictly ascending lists of keys with the same members are the same list.
proof fn lemma_sorted_keys_equal(a: Seq<int>, b: Seq<int>)
    requires
        forall|i: int, j: int| 0 <= i < j < a.len() ==> a[i] < a[j],
        forall|i: int, j: int| 0 <= i < j < b.len() ==> b[i] < b[j],
        forall|x: int| a.contains(x) <==> b.contains(x),
    ensures
        a == b,
    decreases a.len(),
{
    if a.len() == 0 {
        if b.len() > 0 {
            assert(b.contains(b[0]));
        }
        assert(a =~= b);
    } else {
        assert(a.contains(a[0]));
        assert(b.len() > 0);
        assert(b.contains(b[0]));
        let i = choose|i: int| 0 <= i < b.len() && b[i] == a[0];
        let j = choose|j: int| 0 <= j < a.len() && a[j] == b[0];
        assert(a[0] == b[0]) by {
            if a[0] < b[0] {
                assert(b[i] >= b[0]);
            } else if a[0] > b[0] {
                assert(a[j] >= a[0]);
            }
        }
        assert forall|x: int| a.drop_first().contains(x) <==> b.drop_first().contains(x) by {
            if a.drop_first().contains(x) {
                let k = choose|k: int| 0 <= k < a.drop_first().len() && a.drop_first()[k] == x;
                assert(a[k + 1] == x);
                assert(b.contains(x));
                let l = choose|l: int| 0 <= l < b.len() && b[l] == x;
                assert(l != 0);
                assert(b.drop_first()[l - 1] == x);
            }
            if b.drop_first().contains(x) {
                let k = choose|k: int| 0 <= k < b.drop_first().len() && b.drop_first()[k] == x;
                assert(b[k + 1] == x);
                assert(a.contains(x));
                let l = choose|l: int| 0 <= l < a.len() && a[l] == x;
                assert(l != 0);
                assert(a.drop_first()[l - 1] == x);
            }
        }
        lemma_sorted_keys_equal(a.drop_first(), b.drop_first());
        assert(a =~= b) by {
            assert forall|k: int| 0 <= k < a.len() implies a[k] == b[k] by {
                if k > 0 {
                    assert(a[k] == a.drop_first()[k - 1]);
                    assert(b[k] == b.drop_first()[k - 1]);
                }
            }
        }
    }
}

/// Swapping the two count lists negates every delta: the deltas of `b`
/// against `a` are those of `a` against `b`, face for face, with the
/// opposite sign.
pub proof fn lemma_deltas_antisymmetric(a: Seq<[usize; 2]>, b: Seq<[usize; 2]>, x: Seq<[i64; 2]>, y: Seq<[i64; 2]>)
    requires
        deltas_ok(a, b, x),
        deltas_ok(b, a, y),
    ensures
        y.len() == x.len(),
        forall|i: int| 0 <= i < x.len() ==> (#[trigger] y[i])[0] == x[i][0] && y[i][1] == -x[i][1],
{
    let kx = x.map_values(|e: [i64; 2]| e[0] as int);
    let ky = y.map_values(|e: [i64; 2]| e[0] as int);
    assert forall|i: int, j: int| 0 <= i < j < kx.len() implies kx[i] < kx[j] by {
        assert(x[i][0] < x[j][0]);
    }
    assert forall|i: int, j: int| 0 <= i < j < ky.len() implies ky[i] < ky[j] by {
        assert(y[i][0] < y[j][0]);
    }
    assert forall|k: int| kx.contains(k) <==> ky.contains(k) by {
        if kx.contains(k) {
            let i = choose|i: int| 0 <= i < kx.len() && kx[i] == k;
            let f = x[i][0];
            assert(count_delta(b, a, f as usize) == -count_delta(a, b, f as usize));
            let j = choose|j: int| 0 <= j < y.len() && (#[trigger] y[j])[0] == (f as usize) as i64;
            assert(ky[j] == k);
        }
        if ky.contains(k) {
            let i = choose|i: int| 0 <= i < ky.len() && ky[i] == k;
            let f = y[i][0];
            assert(count_delta(a, b, f as usize) == -count_delta(b, a, f as usize));
            let j = choose|j: int| 0 <= j < x.len() && (#[trigger] x[j])[0] == (f as usize) as i64;
            assert(kx[j] == k);
        }
    }
    lemma_sorted_keys_equal(kx, ky);
    assert forall|i: int| 0 <= i < x.len() implies (#[trigger] y[i])[0] == x[i][0] && y[i][1] == -x[i][1] by {
        assert(kx[i] == ky[i]);
        let f = x[i][0];
        assert(count_delta(b, a, f as usize) == -count_delta(a, b, f as usize));
    }
}


proof fn lemma_all_repairs_trail(paths: Seq<Vec<[usize; 2]>>, repairs: Seq<ExactCutShadowRepairPath>, n: int, j: int)
    requires
        0 <= n,
        0 <= j <= repairs.len(),
        n + repairs.len() <= paths.len(),
        forall|i: int| 0 <= i < repairs.len() ==> (#[trigger] paths[n + i])@ == repairs[i].path@,
    ensures
        trailing_matches(paths, repairs, n + j, j) == j,
    decreases j,
{
    if j > 0 {
        assert(paths[n + (j - 1)]@ == repairs[j - 1].path@);
        lemma_all_repairs_trail(paths, repairs, n, j - 1);
    }
}

/// Taking the trailing shadow repair paths off a cut they were laid over
/// gives back the cut's paths, closed flags, path source faces, faces and
/// fills, and keeps the cut edges that laying them over gave.
pub proof fn lemma_shadow_repair_round_trip(
    cut: ExactCutHoleFillResult,
    repairs: Seq<ExactCutShadowRepairPath>,
    with_repairs: ExactCutHoleFillResult,
    without: ExactCutHoleFillResult,
)
    requires
        shadow_ok(&cut.mesh, repairs, &with_repairs.mesh),
        same_fills(&with_repairs, &cut),
        trailing_removed(&with_repairs, repairs, &without),
        same_fills(&without, &with_repairs),
    ensures
        without.mesh.cut_edge_paths@.len() == cut.mesh.cut_edge_paths@.len(),
        forall|i: int| 0 <= i < cut.mesh.cut_edge_paths@.len() ==> (#[trigger] without.mesh.cut_edge_paths@[i])@ == cut.mesh.cut_edge_paths@[i]@,
        without.mesh.cut_edge_path_closed@ == cut.mesh.cut_edge_path_closed@,
        without.mesh.cut_edge_path_source_faces@.len() == cut.mesh.cut_edge_path_source_faces@.len(),
        forall|i: int|
            0 <= i < cut.mesh.cut_edge_path_source_faces@.len() ==> (#[trigger] without.mesh.cut_edge_path_source_faces@[i])@
                == cut.mesh.cut_edge_path_source_faces@[i]@,
        without.mesh.faces@ == cut.mesh.faces@,
        same_fills(&without, &cut),
        without.mesh.cut_edges@ == with_repairs.mesh.cut_edges@,
{
    let n = cut.mesh.cut_edge_paths@.len() as int;
    let r = repairs.len() as int;
    let paths = with_repairs.mesh.cut_edge_paths@;
    assert forall|i: int| 0 <= i < r implies (#[trigger] paths[n + i])@ == repairs[i].path@ by {}
    lemma_all_repairs_trail(paths, repairs, n, r);
    assert(paths.len() as int == n + r);
    assert(drop_back(with_repairs.mesh.cut_edge_path_closed@, r) =~= cut.mesh.cut_edge_path_closed@);
    assert forall|i: int| 0 <= i < n implies (#[trigger] without.mesh.cut_edge_paths@[i])@ == cut.mesh.cut_edge_paths@[i]@ by {
        assert(paths[i]@ == cut.mesh.cut_edge_paths@[i]@);
    }
    assert forall|i: int|
        0 <= i < cut.mesh.cut_edge_path_source_faces@.len() implies (#[trigger] without.mesh.cut_edge_path_source_faces@[i])@
            == cut.mesh.cut_edge_path_source_faces@[i]@ by {
        assert(with_repairs.mesh.cut_edge_path_source_faces@[i]@ == cut.mesh.cut_edge_path_source_faces@[i]@);
    }
    assert forall|q: int| 0 <= q < without.fill_plans@.len() implies {
        let x = #[trigger] without.fill_plans@[q];
        let y = cut.fill_plans@[q];
        &&& x.representative_edge == y.representative_edge
        &&& x.boundary_edges@ == y.boundary_edges@
        &&& x.source_face == y.source_face
        &&& x.source_face_for_faces@ == y.source_face_for_faces@
        &&& x.num_tris == y.num_tris
    } by {
        let z = with_repairs.fill_plans@[q];
        assert(z == with_repairs.fill_plans@[q]);
    }
}

} // verus!
