//! Which edges of the incoming operand's prepared part are copied into the
//! base operand when the two are connected along the stitch, and where the
//! copied edges' vertices go.
use vstd::prelude::*;

use crate::edge::{edges_increasing, increasing, insert_sorted, insert_sorted_edge, spec_ordered, spec_reverse};
use crate::exact_boolean::{map_vertex, spec_mapped_directed, ExactBooleanOperand, ExactBooleanStitchedEdgeSource};
use crate::exact_boolean_topology::{AssemblyTopology, ExactMeshlibRecordRewriteCommand};
use crate::exact_cut::ExactCutMeshRecords;
use crate::source_details::signed_face_edges;
use crate::stitch_pairs::ExactStitchPath;

verus! {

/// How the incoming operand's prepared part is copied in: its faces,
/// vertices and edges, the edges that the stitch already maps, and how many
/// of the copied edges have output vertices at both ends.
#[derive(Debug, Clone, Copy, PartialEq, Eq, Structural)]
pub struct ExactMeshlibCopiedEdgePlan {
    pub prepared_faces: usize,
    pub prepared_vertices: usize,
    pub virtual_copied_vertices: usize,
    pub prepared_edges: usize,
    pub mapped_edges: usize,
    pub copied_edges: usize,
    pub copied_edges_mapped_to_existing_output: usize,
    pub copied_edges_mapped_to_output: usize,
    pub copied_edges_missing_output_vertices: usize,
}

impl ExactMeshlibCopiedEdgePlan {
    /// Whether every copied edge has output vertices at both ends.
    pub fn ready_for_record_translation(&self) -> (out: bool)
        ensures
            out == (self.copied_edges_missing_output_vertices == 0),
    {
        self.copied_edges_missing_output_vertices == 0
    }
}

/// The contour edge of the base operand that a rewrite command's incoming
/// record lands on: the base edge itself on a synthetic side, else reversed.
pub open spec fn spec_target_contour_edge(command: ExactMeshlibRecordRewriteCommand) -> [usize; 2] {
    if command.this_side_synthetic {
        command.this_contour_edge
    } else {
        spec_reverse(command.this_contour_edge)
    }
}

/// The base contour edge that the incoming record of `command` lands on.
pub fn meshlib_target_contour_edge(command: &ExactMeshlibRecordRewriteCommand) -> (out: [usize; 2])
    ensures
        out == spec_target_contour_edge(*command),
{
    if command.this_side_synthetic {
        command.this_contour_edge
    } else {
        [command.this_contour_edge[1], command.this_contour_edge[0]]
    }
}

/// The output edge of a cut edge, when both its vertices have one.
pub fn output_edge_for_cut_edge(cut_edge: [usize; 2], vertex_map: &Vec<Option<usize>>) -> (out: Option<[usize; 2]>)
    ensures
        out == spec_mapped_directed(vertex_map@, cut_edge),
{
    if cut_edge[0] >= vertex_map.len() || cut_edge[1] >= vertex_map.len() {
        return None;
    }
    match (vertex_map[cut_edge[0]], vertex_map[cut_edge[1]]) {
        (Some(a), Some(b)) => Some([a, b]),
        _ => None,
    }
}

/// `map` grown with empty entries to cover `v`.
pub open spec fn grown_to(map: Seq<Option<usize>>, v: usize) -> Seq<Option<usize>> {
    if map.len() <= v {
        map + Seq::new((v + 1 - map.len()) as nat, |i: int| None)
    } else {
        map
    }
}

/// `map` with `source` sent to `output`, unless it already goes somewhere.
pub open spec fn spec_set_copied(map: Seq<Option<usize>>, source: usize, output: usize) -> Seq<Option<usize>> {
    let grown = grown_to(map, source);
    if grown[source as int] is None {
        grown.update(source as int, Some(output))
    } else {
        grown
    }
}

/// Grows `map` with empty entries to cover `v`.
fn grow_to(map: &mut Vec<Option<usize>>, v: usize)
    requires
        v < usize::MAX,
    ensures
        final(map)@ == grown_to(old(map)@, v),
{
    if map.len() <= v {
        let ghost start = map@;
        while map.len() <= v
            invariant
                v < usize::MAX,
                start.len() <= map@.len() <= v + 1,
                map@ == start + Seq::new((map@.len() - start.len()) as nat, |i: int| None::<usize>),
            decreases v + 1 - map.len(),
        {
            map.push(None);
            proof {
                assert(map@ =~= start + Seq::new((map@.len() - start.len()) as nat, |i: int| None::<usize>));
            }
        }
    }
}

/// Sends cut vertex `source` to output vertex `output` in the copied
/// vertex map, unless it already goes somewhere.
pub fn set_copied_vertex(copied_map: &mut Vec<Option<usize>>, source: usize, output: usize)
    requires
        source < usize::MAX,
    ensures
        final(copied_map)@ == spec_set_copied(old(copied_map)@, source, output),
{
    grow_to(copied_map, source);
    if copied_map[source].is_none() {
        copied_map.set(source, Some(output));
    }
}

/// The pair indices of the first `n` paths, path after path.
pub open spec fn path_pairs(paths: Seq<ExactStitchPath>, n: int) -> Seq<usize>
    decreases n,
{
    if n <= 0 {
        Seq::empty()
    } else {
        path_pairs(paths, n - 1) + paths[n - 1].pair_indices@
    }
}

/// The first command, from `start` on, for stitch pair `pair`.
pub open spec fn first_command(commands: Seq<ExactMeshlibRecordRewriteCommand>, pair: usize, start: int) -> Option<ExactMeshlibRecordRewriteCommand>
    decreases commands.len() - start,
{
    if start < 0 || start >= commands.len() {
        None
    } else if commands[start].stitch_pair_index == pair {
        Some(commands[start])
    } else {
        first_command(commands, pair, start + 1)
    }
}

/// For each pair of `visits` seen for the first time, its first command.
pub open spec fn first_visit_commands(visits: Seq<usize>, commands: Seq<ExactMeshlibRecordRewriteCommand>) -> Seq<ExactMeshlibRecordRewriteCommand>
    decreases visits.len(),
{
    if visits.len() == 0 {
        Seq::empty()
    } else if !visits.drop_last().contains(visits.last()) {
        match first_command(commands, visits.last(), 0) {
            Some(c) => first_visit_commands(visits.drop_last(), commands).push(c),
            None => first_visit_commands(visits.drop_last(), commands),
        }
    } else {
        first_visit_commands(visits.drop_last(), commands)
    }
}

/// The first `n` commands whose pair is not in `seen`, in order.
pub open spec fn unseen_commands(commands: Seq<ExactMeshlibRecordRewriteCommand>, seen: Seq<usize>, n: int) -> Seq<ExactMeshlibRecordRewriteCommand>
    decreases n,
{
    if n <= 0 {
        Seq::empty()
    } else if !seen.contains(commands[n - 1].stitch_pair_index) {
        unseen_commands(commands, seen, n - 1).push(commands[n - 1])
    } else {
        unseen_commands(commands, seen, n - 1)
    }
}

/// The commands in contour order: along the stitch paths, the first command
/// of each pair the first time the pair comes up; then, in their own order,
/// the commands of pairs on no path.
pub open spec fn spec_contour_order(paths: Seq<ExactStitchPath>, commands: Seq<ExactMeshlibRecordRewriteCommand>) -> Seq<ExactMeshlibRecordRewriteCommand> {
    let visits = path_pairs(paths, paths.len() as int);
    first_visit_commands(visits, commands) + unseen_commands(commands, visits, commands.len() as int)
}

/// The first command for stitch pair `pair`.
fn find_command(commands: &Vec<ExactMeshlibRecordRewriteCommand>, pair: usize) -> (out: Option<ExactMeshlibRecordRewriteCommand>)
    ensures
        out == first_command(commands@, pair, 0),
{
    let mut i: usize = 0;
    while i < commands.len()
        invariant
            i <= commands@.len(),
            first_command(commands@, pair, 0) == first_command(commands@, pair, i as int),
        decreases commands.len() - i,
    {
        if commands[i].stitch_pair_index == pair {
            return Some(commands[i]);
        }
        i += 1;
    }
    None
}

/// The rewrite commands in the order their contour is walked: along the
/// stitch paths first, then the rest.
pub fn record_commands_in_meshlib_contour_order(
    assembly: &AssemblyTopology,
    record_commands: &Vec<ExactMeshlibRecordRewriteCommand>,
) -> (out: Vec<ExactMeshlibRecordRewriteCommand>)
    ensures
        out@ == spec_contour_order(assembly.stitched_edge_paths@, record_commands@),
{
    let paths = &assembly.stitched_edge_paths;
    let mut ordered: Vec<ExactMeshlibRecordRewriteCommand> = Vec::new();
    let mut seen: Vec<usize> = Vec::new();
    let mut p: usize = 0;
    while p < paths.len()
        invariant
            p <= paths@.len(),
            increasing(seen@),
            forall|x: usize| seen@.contains(x) <==> path_pairs(paths@, p as int).contains(x),
            ordered@ == first_visit_commands(path_pairs(paths@, p as int), record_commands@),
        decreases paths.len() - p,
    {
        let pair_indices = &paths[p].pair_indices;
        let ghost base = path_pairs(paths@, p as int);
        let mut k: usize = 0;
        while k < pair_indices.len()
            invariant
                p < paths@.len(),
                pair_indices@ == paths@[p as int].pair_indices@,
                base == path_pairs(paths@, p as int),
                k <= pair_indices@.len(),
                increasing(seen@),
                forall|x: usize| seen@.contains(x) <==> (base + pair_indices@.subrange(0, k as int)).contains(x),
                ordered@ == first_visit_commands(base + pair_indices@.subrange(0, k as int), record_commands@),
            decreases pair_indices.len() - k,
        {
            let pair = pair_indices[k];
            let ghost prefix = base + pair_indices@.subrange(0, k as int);
            let ghost next = base + pair_indices@.subrange(0, k as int + 1);
            proof {
                assert(next =~= prefix.push(pair));
                assert(next.drop_last() =~= prefix);
                assert(next.last() == pair);
            }
            let ghost before = seen@;
            let fresh = insert_sorted(&mut seen, pair);
            if fresh {
                if let Some(command) = find_command(record_commands, pair) {
                    ordered.push(command);
                }
            }
            proof {
                assert forall|x: usize| seen@.contains(x) <==> next.contains(x) by {
                    assert(seen@.contains(x) <==> seen@.to_set().contains(x));
                    assert(before.contains(x) <==> before.to_set().contains(x));
                    if prefix.contains(x) {
                        let t = choose|t: int| 0 <= t < prefix.len() && prefix[t] == x;
                        assert(next[t] == x);
                    }
                    if next.contains(x) && x != pair {
                        let t = choose|t: int| 0 <= t < next.len() && next[t] == x;
                        assert(t < prefix.len());
                        assert(prefix[t] == x);
                    }
                    if x == pair {
                        assert(next[next.len() - 1] == x);
                    }
                }
            }
            k += 1;
        }
        proof {
            assert(pair_indices@.subrange(0, pair_indices@.len() as int) =~= pair_indices@);
        }
        p += 1;
    }
    let ghost visits = path_pairs(paths@, paths@.len() as int);
    let mut i: usize = 0;
    while i < record_commands.len()
        invariant
            i <= record_commands@.len(),
            visits == path_pairs(paths@, paths@.len() as int),
            forall|x: usize| seen@.contains(x) <==> visits.contains(x),
            ordered@ == first_visit_commands(visits, record_commands@) + unseen_commands(record_commands@, visits, i as int),
        decreases record_commands.len() - i,
    {
        let command = record_commands[i];
        let ghost head = first_visit_commands(visits, record_commands@);
        let ghost tail = unseen_commands(record_commands@, visits, i as int);
        if !crate::edge::contains_index(&seen, command.stitch_pair_index) {
            ordered.push(command);
            proof {
                assert(ordered@ =~= head + tail.push(command));
            }
        }
        i += 1;
    }
    ordered
}

/// The cut edge that a stitch source records for `operand`.
pub open spec fn operand_cut_edge(source: ExactBooleanStitchedEdgeSource, operand: ExactBooleanOperand) -> [usize; 2] {
    match operand {
        ExactBooleanOperand::First => source.first_cut_edge,
        ExactBooleanOperand::Second => source.second_cut_edge,
    }
}

/// The contour vertex map entry that `command` gives `operand`, as
/// `(source edge, output edge)`: for the incoming side, its cut edge onto
/// the target contour edge; for the base side, its source edge onto its
/// contour edge; none for a command of an unknown stitch pair.
pub open spec fn vertex_map_entry(
    assembly: &AssemblyTopology,
    operand: ExactBooleanOperand,
    command: ExactMeshlibRecordRewriteCommand,
) -> Option<([usize; 2], [usize; 2])> {
    let sources = assembly.stitched_edge_sources@;
    if command.stitch_pair_index >= sources.len() {
        None
    } else if command.from_operand == operand {
        Some((operand_cut_edge(sources[command.stitch_pair_index as int], operand), spec_target_contour_edge(command)))
    } else if command.this_operand == operand {
        Some((command.this_source_edge, command.this_contour_edge))
    } else {
        None
    }
}

/// The entries of the commands that give one, in order.
pub open spec fn vertex_map_entries(
    assembly: &AssemblyTopology,
    operand: ExactBooleanOperand,
    commands: Seq<ExactMeshlibRecordRewriteCommand>,
) -> Seq<([usize; 2], [usize; 2])>
    decreases commands.len(),
{
    if commands.len() == 0 {
        Seq::empty()
    } else {
        match vertex_map_entry(assembly, operand, commands.last()) {
            Some(e) => vertex_map_entries(assembly, operand, commands.drop_last()).push(e),
            None => vertex_map_entries(assembly, operand, commands.drop_last()),
        }
    }
}

/// The contour edge index behind `command`'s entry for `operand`.
pub open spec fn source_index_entry(
    assembly: &AssemblyTopology,
    operand: ExactBooleanOperand,
    command: ExactMeshlibRecordRewriteCommand,
) -> Option<Option<usize>> {
    if command.stitch_pair_index >= assembly.stitched_edge_sources@.len() {
        None
    } else if command.from_operand == operand {
        Some(Some(command.from_source_edge_index))
    } else if command.this_operand == operand {
        Some(Some(command.this_source_edge_index))
    } else {
        None
    }
}

/// The contour edge indices of the commands that give an entry, in order.
pub open spec fn source_index_entries(
    assembly: &AssemblyTopology,
    operand: ExactBooleanOperand,
    commands: Seq<ExactMeshlibRecordRewriteCommand>,
) -> Seq<Option<usize>>
    decreases commands.len(),
{
    if commands.len() == 0 {
        Seq::empty()
    } else {
        match source_index_entry(assembly, operand, commands.last()) {
            Some(e) => source_index_entries(assembly, operand, commands.drop_last()).push(e),
            None => source_index_entries(assembly, operand, commands.drop_last()),
        }
    }
}

/// The contour vertex map entries of `operand`, as `(source edge, output
/// edge)`, in contour order.
pub fn contour_vertex_maps(
    assembly: &AssemblyTopology,
    operand: ExactBooleanOperand,
    record_commands: &Vec<ExactMeshlibRecordRewriteCommand>,
) -> (out: Vec<([usize; 2], [usize; 2])>)
    ensures
        out@ == vertex_map_entries(assembly, operand, spec_contour_order(assembly.stitched_edge_paths@, record_commands@)),
{
    let ordered = record_commands_in_meshlib_contour_order(assembly, record_commands);
    let sources = &assembly.stitched_edge_sources;
    let mut out: Vec<([usize; 2], [usize; 2])> = Vec::new();
    let mut i: usize = 0;
    while i < ordered.len()
        invariant
            i <= ordered@.len(),
            sources@ == assembly.stitched_edge_sources@,
            out@ == vertex_map_entries(assembly, operand, ordered@.subrange(0, i as int)),
        decreases ordered.len() - i,
    {
        let command = ordered[i];
        proof {
            assert(ordered@.subrange(0, i as int + 1).drop_last() =~= ordered@.subrange(0, i as int));
        }
        if command.stitch_pair_index < sources.len() {
            let source = &sources[command.stitch_pair_index];
            if command.from_operand == operand {
                let source_edge = match operand {
                    ExactBooleanOperand::First => source.first_cut_edge,
                    ExactBooleanOperand::Second => source.second_cut_edge,
                };
                out.push((source_edge, meshlib_target_contour_edge(&command)));
            } else if command.this_operand == operand {
                out.push((command.this_source_edge, command.this_contour_edge));
            }
        }
        i += 1;
    }
    proof {
        assert(ordered@.subrange(0, ordered@.len() as int) =~= ordered@);
    }
    out
}

/// The contour edge index behind each of `operand`'s contour vertex map
/// entries, in contour order.
pub fn contour_vertex_map_source_indices(
    assembly: &AssemblyTopology,
    operand: ExactBooleanOperand,
    record_commands: &Vec<ExactMeshlibRecordRewriteCommand>,
) -> (out: Vec<Option<usize>>)
    ensures
        out@ == source_index_entries(assembly, operand, spec_contour_order(assembly.stitched_edge_paths@, record_commands@)),
{
    let ordered = record_commands_in_meshlib_contour_order(assembly, record_commands);
    let mut out: Vec<Option<usize>> = Vec::new();
    let mut i: usize = 0;
    while i < ordered.len()
        invariant
            i <= ordered@.len(),
            out@ == source_index_entries(assembly, operand, ordered@.subrange(0, i as int)),
        decreases ordered.len() - i,
    {
        let command = ordered[i];
        proof {
            assert(ordered@.subrange(0, i as int + 1).drop_last() =~= ordered@.subrange(0, i as int));
        }
        if command.stitch_pair_index < assembly.stitched_edge_sources.len() {
            if command.from_operand == operand {
                out.push(Some(command.from_source_edge_index));
            } else if command.this_operand == operand {
                out.push(Some(command.this_source_edge_index));
            }
        }
        i += 1;
    }
    proof {
        assert(ordered@.subrange(0, ordered@.len() as int) =~= ordered@);
    }
    out
}

/// `map` after sending the source vertices of each entry, in order, to the
/// matching output vertices.
pub open spec fn seeded_map(map: Seq<Option<usize>>, entries: Seq<([usize; 2], [usize; 2])>) -> Seq<Option<usize>>
    decreases entries.len(),
{
    if entries.len() == 0 {
        map
    } else {
        let e = entries.last();
        spec_set_copied(spec_set_copied(seeded_map(map, entries.drop_last()), e.0[0], e.1[0]), e.0[1], e.1[1])
    }
}

/// `map` after giving each of `vertices` that has no output vertex the next
/// virtual vertex, counting from `first`; with the next unused one.
pub open spec fn numbered_map(map: Seq<Option<usize>>, vertices: Seq<usize>, first: int) -> (Seq<Option<usize>>, int)
    decreases vertices.len(),
{
    if vertices.len() == 0 {
        (map, first)
    } else {
        let (m, next) = numbered_map(map, vertices.drop_last(), first);
        let v = vertices.last();
        let grown = grown_to(m, v);
        if grown[v as int] is None {
            (grown.update(v as int, Some(next as usize)), next + 1)
        } else {
            (grown, next)
        }
    }
}

/// Whether some entry has `v` as a source vertex.
pub open spec fn seeded_vertex(entries: Seq<([usize; 2], [usize; 2])>, v: usize) -> bool {
    exists|t: int| 0 <= t < entries.len() && (#[trigger] entries[t].0[0] == v || entries[t].0[1] == v)
}

proof fn lemma_grown(map: Seq<Option<usize>>, v: usize)
    requires
        v < usize::MAX,
    ensures
        grown_to(map, v).len() > v,
        grown_to(map, v).len() >= map.len(),
        forall|x: usize| #[trigger] map_vertex(grown_to(map, v), x) == map_vertex(map, x),
{
}

proof fn lemma_set_copied_known(map: Seq<Option<usize>>, source: usize, output: usize)
    requires
        source < usize::MAX,
    ensures
        spec_set_copied(map, source, output).len() >= map.len(),
        forall|x: usize| #[trigger] map_vertex(spec_set_copied(map, source, output), x) is Some <==> (map_vertex(map, x) is Some || x == source),
{
    lemma_grown(map, source);
}

/// The copied vertex map: `vertex_map`, then each contour entry's source
/// vertices sent to its output vertices where they had none, then each
/// prepared vertex still without one given the next virtual vertex from
/// `first_virtual_vertex` on, in ascending order.
pub fn copied_vertex_map(
    vertex_map: &Vec<Option<usize>>,
    prepared_vertices: &Vec<usize>,
    first_virtual_vertex: usize,
    contour_vertex_maps: &Vec<([usize; 2], [usize; 2])>,
) -> (out: Vec<Option<usize>>)
    requires
        increasing(prepared_vertices@),
        forall|t: int| 0 <= t < prepared_vertices@.len() ==> #[trigger] prepared_vertices@[t] < usize::MAX,
        forall|t: int|
            0 <= t < contour_vertex_maps@.len() ==> (#[trigger] contour_vertex_maps@[t]).0[0] < usize::MAX
                && contour_vertex_maps@[t].0[1] < usize::MAX,
        first_virtual_vertex + prepared_vertices@.len() <= usize::MAX,
    ensures
        out@ == numbered_map(seeded_map(vertex_map@, contour_vertex_maps@), prepared_vertices@, first_virtual_vertex as int).0,
        out@.len() >= vertex_map@.len(),
        forall|x: usize|
            #[trigger] map_vertex(out@, x) is Some <==> (map_vertex(vertex_map@, x) is Some || seeded_vertex(contour_vertex_maps@, x)
                || prepared_vertices@.contains(x)),
{
    let mut copied_map: Vec<Option<usize>> = Vec::new();
    let mut i: usize = 0;
    while i < vertex_map.len()
        invariant
            i <= vertex_map@.len(),
            copied_map@ == vertex_map@.subrange(0, i as int),
        decreases vertex_map.len() - i,
    {
        copied_map.push(vertex_map[i]);
        proof {
            assert(copied_map@ =~= vertex_map@.subrange(0, i as int + 1));
        }
        i += 1;
    }
    proof {
        assert(copied_map@ =~= vertex_map@);
    }
    let entries = contour_vertex_maps;
    let mut t: usize = 0;
    while t < entries.len()
        invariant
            t <= entries@.len(),
            forall|u: int| 0 <= u < entries@.len() ==> (#[trigger] entries@[u]).0[0] < usize::MAX && entries@[u].0[1] < usize::MAX,
            copied_map@ == seeded_map(vertex_map@, entries@.subrange(0, t as int)),
            copied_map@.len() >= vertex_map@.len(),
            forall|x: usize|
                #[trigger] map_vertex(copied_map@, x) is Some <==> (map_vertex(vertex_map@, x) is Some || seeded_vertex(
                    entries@.subrange(0, t as int),
                    x,
                )),
        decreases entries.len() - t,
    {
        let (source_edge, output_edge) = entries[t];
        let ghost before = copied_map@;
        proof {
            lemma_set_copied_known(before, source_edge[0], output_edge[0]);
            lemma_set_copied_known(spec_set_copied(before, source_edge[0], output_edge[0]), source_edge[1], output_edge[1]);
            assert(entries@.subrange(0, t as int + 1).drop_last() =~= entries@.subrange(0, t as int));
        }
        set_copied_vertex(&mut copied_map, source_edge[0], output_edge[0]);
        set_copied_vertex(&mut copied_map, source_edge[1], output_edge[1]);
        proof {
            let next = entries@.subrange(0, t as int + 1);
            assert forall|x: usize| seeded_vertex(next, x) <==> (seeded_vertex(entries@.subrange(0, t as int), x) || x == source_edge[0] || x == source_edge[1]) by {
                if seeded_vertex(next, x) {
                    let u = choose|u: int| 0 <= u < next.len() && (#[trigger] next[u].0[0] == x || next[u].0[1] == x);
                    if u < t {
                        assert(entries@.subrange(0, t as int)[u] == next[u]);
                    }
                }
                if seeded_vertex(entries@.subrange(0, t as int), x) {
                    let u = choose|u: int| 0 <= u < t && (#[trigger] entries@.subrange(0, t as int)[u].0[0] == x || entries@.subrange(0, t as int)[u].0[1] == x);
                    assert(next[u] == entries@.subrange(0, t as int)[u]);
                }
                if x == source_edge[0] || x == source_edge[1] {
                    assert(next[t as int] == (source_edge, output_edge));
                }
            }
        }
        t += 1;
    }
    proof {
        assert(entries@.subrange(0, entries@.len() as int) =~= entries@);
    }
    let ghost seeded = copied_map@;
    let mut next_virtual_vertex = first_virtual_vertex;
    let mut k: usize = 0;
    while k < prepared_vertices.len()
        invariant
            k <= prepared_vertices@.len(),
            forall|u: int| 0 <= u < prepared_vertices@.len() ==> #[trigger] prepared_vertices@[u] < usize::MAX,
            first_virtual_vertex + prepared_vertices@.len() <= usize::MAX,
            next_virtual_vertex <= first_virtual_vertex + k,
            (copied_map@, next_virtual_vertex as int) == numbered_map(seeded, prepared_vertices@.subrange(0, k as int), first_virtual_vertex as int),
            copied_map@.len() >= seeded.len(),
            forall|x: usize|
                #[trigger] map_vertex(copied_map@, x) is Some <==> (map_vertex(seeded, x) is Some || prepared_vertices@.subrange(0, k as int).contains(x)),
        decreases prepared_vertices.len() - k,
    {
        let vertex = prepared_vertices[k];
        let ghost before = copied_map@;
        proof {
            lemma_grown(before, vertex);
            assert(prepared_vertices@.subrange(0, k as int + 1).drop_last() =~= prepared_vertices@.subrange(0, k as int));
        }
        grow_to(&mut copied_map, vertex);
        let ghost grown = copied_map@;
        if copied_map[vertex].is_none() {
            copied_map.set(vertex, Some(next_virtual_vertex));
            next_virtual_vertex += 1;
        }
        proof {
            assert forall|x: usize| #[trigger] map_vertex(copied_map@, x) is Some <==> (map_vertex(before, x) is Some || x == vertex) by {
                assert(map_vertex(grown, x) == map_vertex(before, x));
                if x != vertex && x < copied_map@.len() {
                    assert(copied_map@[x as int] == grown[x as int]);
                }
            }
            let next = prepared_vertices@.subrange(0, k as int + 1);
            assert forall|x: usize| next.contains(x) <==> (prepared_vertices@.subrange(0, k as int).contains(x) || x == vertex) by {
                if next.contains(x) && x != vertex {
                    let u = choose|u: int| 0 <= u < next.len() && next[u] == x;
                    assert(prepared_vertices@.subrange(0, k as int)[u] == x);
                }
                if prepared_vertices@.subrange(0, k as int).contains(x) {
                    let u = choose|u: int| 0 <= u < k && prepared_vertices@.subrange(0, k as int)[u] == x;
                    assert(next[u] == x);
                }
                if x == vertex {
                    assert(next[k as int] == x);
                }
            }
        }
        k += 1;
    }
    proof {
        assert(prepared_vertices@.subrange(0, prepared_vertices@.len() as int) =~= prepared_vertices@);
    }
    copied_map
}

/// How many items of `s` satisfy `p`.
pub open spec fn count_where<T>(s: Seq<T>, p: spec_fn(T) -> bool) -> nat
    decreases s.len(),
{
    if s.len() == 0 {
        0
    } else {
        count_where(s.drop_last(), p) + if p(s.last()) { 1nat } else { 0nat }
    }
}

/// Counting the items of a sequence without repeats that satisfy `p` counts
/// the set of them.
proof fn lemma_count_where_set<T>(s: Seq<T>, p: spec_fn(T) -> bool)
    requires
        s.no_duplicates(),
    ensures
        s.to_set().filter(p).finite(),
        count_where(s, p) == s.to_set().filter(p).len(),
    decreases s.len(),
{
    if s.len() == 0 {
        assert(s.to_set().filter(p) =~= Set::empty());
    } else {
        let init = s.drop_last();
        let x = s.last();
        assert(init.no_duplicates()) by {
            assert forall|a: int, b: int| 0 <= a < init.len() && 0 <= b < init.len() && a != b implies init[a] != init[b] by {
                assert(init[a] == s[a]);
                assert(init[b] == s[b]);
            }
        }
        lemma_count_where_set(init, p);
        assert(!init.to_set().contains(x)) by {
            if init.contains(x) {
                let t = choose|t: int| 0 <= t < init.len() && init[t] == x;
                assert(s[t] == s[s.len() - 1]);
            }
        }
        assert(s.to_set() =~= init.to_set().insert(x)) by {
            assert forall|y: T| s.to_set().contains(y) <==> init.to_set().insert(x).contains(y) by {
                if s.contains(y) && y != x {
                    let t = choose|t: int| 0 <= t < s.len() && s[t] == y;
                    assert(t < init.len());
                    assert(init[t] == y);
                }
                if init.contains(y) {
                    let t = choose|t: int| 0 <= t < init.len() && init[t] == y;
                    assert(s[t] == y);
                }
                if y == x {
                    assert(s[s.len() - 1] == y);
                }
            }
        }
        if p(x) {
            assert(s.to_set().filter(p) =~= init.to_set().filter(p).insert(x));
        } else {
            assert(s.to_set().filter(p) =~= init.to_set().filter(p));
        }
    }
}

proof fn lemma_count_where_bound<T>(s: Seq<T>, p: spec_fn(T) -> bool)
    ensures
        count_where(s, p) <= s.len(),
    decreases s.len(),
{
    if s.len() > 0 {
        lemma_count_where_bound(s.drop_last(), p);
    }
}

/// Ascending sequences have no repeats.
proof fn lemma_increasing_no_dup(s: Seq<usize>)
    requires
        increasing(s),
    ensures
        s.no_duplicates(),
{
    assert forall|a: int, b: int| 0 <= a < s.len() && 0 <= b < s.len() && a != b implies s[a] != s[b] by {
        if a < b {
            assert(s[a] < s[b]);
        } else {
            assert(s[b] < s[a]);
        }
    }
}

/// Ascending sequences of edges have no repeats.
proof fn lemma_edges_increasing_no_dup(s: Seq<[usize; 2]>)
    requires
        edges_increasing(s),
    ensures
        s.no_duplicates(),
{
    assert forall|a: int, b: int| 0 <= a < s.len() && 0 <= b < s.len() && a != b implies s[a] != s[b] by {
        if a < b {
            assert(crate::edge::edge_lt(s[a], s[b]));
        } else {
            assert(crate::edge::edge_lt(s[b], s[a]));
        }
    }
}

/// Corner `c`, read as an index, of the `j`-th prepared face.
pub open spec fn corner(faces: Seq<[i64; 3]>, prepared: Seq<usize>, j: int, c: int) -> usize {
    faces[prepared[j] as int][c] as usize
}

/// Edge `c`, ordered, of the `j`-th prepared face.
pub open spec fn face_edge(faces: Seq<[i64; 3]>, prepared: Seq<usize>, j: int, c: int) -> [usize; 2] {
    spec_ordered(signed_face_edges(faces[prepared[j] as int])[c])
}

/// Whether the `j`-th prepared face exists.
pub open spec fn prepared_face_ok(faces: Seq<[i64; 3]>, prepared: Seq<usize>, j: int) -> bool {
    0 <= j < prepared.len() && prepared[j] < faces.len()
}

/// Whether `v` is a corner of a prepared face.
pub open spec fn region_vertex(faces: Seq<[i64; 3]>, prepared: Seq<usize>, v: usize) -> bool {
    exists|j: int, c: int| prepared_face_ok(faces, prepared, j) && 0 <= c < 3 && #[trigger] corner(faces, prepared, j, c) == v
}

/// Whether the ordered edge `e` is an edge of a prepared face.
pub open spec fn region_edge(faces: Seq<[i64; 3]>, prepared: Seq<usize>, e: [usize; 2]) -> bool {
    exists|j: int, c: int| prepared_face_ok(faces, prepared, j) && 0 <= c < 3 && #[trigger] face_edge(faces, prepared, j, c) == e
}

/// The corners of the prepared faces, ascending and once each.
pub fn prepared_region_vertices(faces: &Vec<[i64; 3]>, prepared_faces: &Vec<usize>) -> (out: Vec<usize>)
    ensures
        increasing(out@),
        forall|v: usize| out@.contains(v) <==> region_vertex(faces@, prepared_faces@, v),
{
    let mut out: Vec<usize> = Vec::new();
    let mut j: usize = 0;
    while j < prepared_faces.len()
        invariant
            j <= prepared_faces@.len(),
            increasing(out@),
            forall|v: usize|
                out@.contains(v) <==> exists|i: int, c: int|
                    i < j && prepared_face_ok(faces@, prepared_faces@, i) && 0 <= c < 3 && #[trigger] corner(
                        faces@,
                        prepared_faces@,
                        i,
                        c,
                    ) == v,
        decreases prepared_faces.len() - j,
    {
        let f = prepared_faces[j];
        if f < faces.len() {
            let face = faces[f];
            let mut c: usize = 0;
            while c < 3
                invariant
                    j < prepared_faces@.len(),
                    f == prepared_faces@[j as int],
                    f < faces@.len(),
                    face == faces@[f as int],
                    c <= 3,
                    increasing(out@),
                    forall|v: usize|
                        out@.contains(v) <==> (exists|i: int, d: int|
                            i < j && prepared_face_ok(faces@, prepared_faces@, i) && 0 <= d < 3 && #[trigger] corner(
                                faces@,
                                prepared_faces@,
                                i,
                                d,
                            ) == v) || exists|d: int| 0 <= d < c && corner(faces@, prepared_faces@, j as int, d) == v,
                decreases 3 - c,
            {
                let ghost before = out@;
                let v = face[c] as usize;
                assert(v == corner(faces@, prepared_faces@, j as int, c as int));
                insert_sorted(&mut out, v);
                proof {
                    assert forall|x: usize|
                        out@.contains(x) <==> (exists|i: int, d: int|
                            i < j && prepared_face_ok(faces@, prepared_faces@, i) && 0 <= d < 3 && #[trigger] corner(
                                faces@,
                                prepared_faces@,
                                i,
                                d,
                            ) == x) || exists|d: int| 0 <= d < c + 1 && corner(faces@, prepared_faces@, j as int, d) == x by {
                        assert(out@.contains(x) <==> out@.to_set().contains(x));
                        assert(before.contains(x) <==> before.to_set().contains(x));
                        if exists|d: int| 0 <= d < c + 1 && corner(faces@, prepared_faces@, j as int, d) == x {
                            let d = choose|d: int| 0 <= d < c + 1 && corner(faces@, prepared_faces@, j as int, d) == x;
                            if d < c {
                                assert(exists|d: int| 0 <= d < c && corner(faces@, prepared_faces@, j as int, d) == x);
                            }
                        }
                    }
                }
                c += 1;
            }
            proof {
                assert forall|v: usize|
                    out@.contains(v) <==> exists|i: int, c: int|
                        i < j + 1 && prepared_face_ok(faces@, prepared_faces@, i) && 0 <= c < 3 && #[trigger] corner(
                            faces@,
                            prepared_faces@,
                            i,
                            c,
                        ) == v by {
                    if exists|d: int| 0 <= d < 3 && corner(faces@, prepared_faces@, j as int, d) == v {
                        let d = choose|d: int| 0 <= d < 3 && corner(faces@, prepared_faces@, j as int, d) == v;
                        assert(prepared_face_ok(faces@, prepared_faces@, j as int));
                    }
                    if exists|i: int, c: int|
                        i < j + 1 && prepared_face_ok(faces@, prepared_faces@, i) && 0 <= c < 3 && #[trigger] corner(
                            faces@,
                            prepared_faces@,
                            i,
                            c,
                        ) == v {
                        let (i, c) = choose|i: int, c: int|
                            i < j + 1 && prepared_face_ok(faces@, prepared_faces@, i) && 0 <= c < 3 && #[trigger] corner(
                                faces@,
                                prepared_faces@,
                                i,
                                c,
                            ) == v;
                        if i == j {
                            assert(exists|d: int| 0 <= d < 3 && corner(faces@, prepared_faces@, j as int, d) == v);
                        }
                    }
                }
            }
        } else {
            proof {
                assert forall|v: usize|
                    out@.contains(v) <==> exists|i: int, c: int|
                        i < j + 1 && prepared_face_ok(faces@, prepared_faces@, i) && 0 <= c < 3 && #[trigger] corner(
                            faces@,
                            prepared_faces@,
                            i,
                            c,
                        ) == v by {
                    if exists|i: int, c: int|
                        i < j + 1 && prepared_face_ok(faces@, prepared_faces@, i) && 0 <= c < 3 && #[trigger] corner(
                            faces@,
                            prepared_faces@,
                            i,
                            c,
                        ) == v {
                        let (i, c) = choose|i: int, c: int|
                            i < j + 1 && prepared_face_ok(faces@, prepared_faces@, i) && 0 <= c < 3 && #[trigger] corner(
                                faces@,
                                prepared_faces@,
                                i,
                                c,
                            ) == v;
                        assert(i != j);
                        assert(exists|i: int, c: int|
                            i < j && prepared_face_ok(faces@, prepared_faces@, i) && 0 <= c < 3 && #[trigger] corner(
                                faces@,
                                prepared_faces@,
                                i,
                                c,
                            ) == v);
                    }
                }
            }
        }
        j += 1;
    }
    out
}

/// The ordered edges of the prepared faces, ascending and once each.
pub fn prepared_region_edges(faces: &Vec<[i64; 3]>, prepared_faces: &Vec<usize>) -> (out: Vec<[usize; 2]>)
    ensures
        edges_increasing(out@),
        forall|v: [usize; 2]| out@.contains(v) <==> region_edge(faces@, prepared_faces@, v),
{
    let mut out: Vec<[usize; 2]> = Vec::new();
    let mut j: usize = 0;
    while j < prepared_faces.len()
        invariant
            j <= prepared_faces@.len(),
            edges_increasing(out@),
            forall|v: [usize; 2]|
                out@.contains(v) <==> exists|i: int, c: int|
                    i < j && prepared_face_ok(faces@, prepared_faces@, i) && 0 <= c < 3 && #[trigger] face_edge(
                        faces@,
                        prepared_faces@,
                        i,
                        c,
                    ) == v,
        decreases prepared_faces.len() - j,
    {
        let f = prepared_faces[j];
        if f < faces.len() {
            let face = faces[f];
            let mut c: usize = 0;
            while c < 3
                invariant
                    j < prepared_faces@.len(),
                    f == prepared_faces@[j as int],
                    f < faces@.len(),
                    face == faces@[f as int],
                    c <= 3,
                    edges_increasing(out@),
                    forall|v: [usize; 2]|
                        out@.contains(v) <==> (exists|i: int, d: int|
                            i < j && prepared_face_ok(faces@, prepared_faces@, i) && 0 <= d < 3 && #[trigger] face_edge(
                                faces@,
                                prepared_faces@,
                                i,
                                d,
                            ) == v) || exists|d: int| 0 <= d < c && face_edge(faces@, prepared_faces@, j as int, d) == v,
                decreases 3 - c,
            {
                let ghost before = out@;
                let candidates = [
                    [face[0] as usize, face[1] as usize],
                    [face[1] as usize, face[2] as usize],
                    [face[2] as usize, face[0] as usize],
                ];
                assert(forall|d: int| 0 <= d < 3 ==> candidates[d] == signed_face_edges(face)[d]);
                let v = crate::edge::ordered_edge(candidates[c]);
                assert(v == face_edge(faces@, prepared_faces@, j as int, c as int));
                insert_sorted_edge(&mut out, v);
                proof {
                    assert forall|x: [usize; 2]|
                        out@.contains(x) <==> (exists|i: int, d: int|
                            i < j && prepared_face_ok(faces@, prepared_faces@, i) && 0 <= d < 3 && #[trigger] face_edge(
                                faces@,
                                prepared_faces@,
                                i,
                                d,
                            ) == x) || exists|d: int| 0 <= d < c + 1 && face_edge(faces@, prepared_faces@, j as int, d) == x by {
                        assert(out@.contains(x) <==> out@.to_set().contains(x));
                        assert(before.contains(x) <==> before.to_set().contains(x));
                        if exists|d: int| 0 <= d < c + 1 && face_edge(faces@, prepared_faces@, j as int, d) == x {
                            let d = choose|d: int| 0 <= d < c + 1 && face_edge(faces@, prepared_faces@, j as int, d) == x;
                            if d < c {
                                assert(exists|d: int| 0 <= d < c && face_edge(faces@, prepared_faces@, j as int, d) == x);
                            }
                        }
                    }
                }
                c += 1;
            }
            proof {
                assert forall|v: [usize; 2]|
                    out@.contains(v) <==> exists|i: int, c: int|
                        i < j + 1 && prepared_face_ok(faces@, prepared_faces@, i) && 0 <= c < 3 && #[trigger] face_edge(
                            faces@,
                            prepared_faces@,
                            i,
                            c,
                        ) == v by {
                    if exists|d: int| 0 <= d < 3 && face_edge(faces@, prepared_faces@, j as int, d) == v {
                        let d = choose|d: int| 0 <= d < 3 && face_edge(faces@, prepared_faces@, j as int, d) == v;
                        assert(prepared_face_ok(faces@, prepared_faces@, j as int));
                    }
                    if exists|i: int, c: int|
                        i < j + 1 && prepared_face_ok(faces@, prepared_faces@, i) && 0 <= c < 3 && #[trigger] face_edge(
                            faces@,
                            prepared_faces@,
                            i,
                            c,
                        ) == v {
                        let (i, c) = choose|i: int, c: int|
                            i < j + 1 && prepared_face_ok(faces@, prepared_faces@, i) && 0 <= c < 3 && #[trigger] face_edge(
                                faces@,
                                prepared_faces@,
                                i,
                                c,
                            ) == v;
                        if i == j {
                            assert(exists|d: int| 0 <= d < 3 && face_edge(faces@, prepared_faces@, j as int, d) == v);
                        }
                    }
                }
            }
        } else {
            proof {
                assert forall|v: [usize; 2]|
                    out@.contains(v) <==> exists|i: int, c: int|
                        i < j + 1 && prepared_face_ok(faces@, prepared_faces@, i) && 0 <= c < 3 && #[trigger] face_edge(
                            faces@,
                            prepared_faces@,
                            i,
                            c,
                        ) == v by {
                    if exists|i: int, c: int|
                        i < j + 1 && prepared_face_ok(faces@, prepared_faces@, i) && 0 <= c < 3 && #[trigger] face_edge(
                            faces@,
                            prepared_faces@,
                            i,
                            c,
                        ) == v {
                        let (i, c) = choose|i: int, c: int|
                            i < j + 1 && prepared_face_ok(faces@, prepared_faces@, i) && 0 <= c < 3 && #[trigger] face_edge(
                                faces@,
                                prepared_faces@,
                                i,
                                c,
                            ) == v;
                        assert(i != j);
                        assert(exists|i: int, c: int|
                            i < j && prepared_face_ok(faces@, prepared_faces@, i) && 0 <= c < 3 && #[trigger] face_edge(
                                faces@,
                                prepared_faces@,
                                i,
                                c,
                            ) == v);
                    }
                }
            }
        }
        j += 1;
    }
    out
}

/// The ordered cut edge of the incoming side that `command` maps, if it is
/// a command from `operand` of a known stitch pair.
pub open spec fn mapped_edge_of(assembly: &AssemblyTopology, operand: ExactBooleanOperand, command: ExactMeshlibRecordRewriteCommand) -> Option<[usize; 2]> {
    let sources = assembly.stitched_edge_sources@;
    if command.from_operand == operand && command.stitch_pair_index < sources.len() {
        Some(spec_ordered(operand_cut_edge(sources[command.stitch_pair_index as int], operand)))
    } else {
        None
    }
}

/// Whether some command maps the ordered cut edge `e` of `operand`.
pub open spec fn mapped_edge(assembly: &AssemblyTopology, operand: ExactBooleanOperand, commands: Seq<ExactMeshlibRecordRewriteCommand>, e: [usize; 2]) -> bool {
    exists|t: int| 0 <= t < commands.len() && #[trigger] mapped_edge_of(assembly, operand, commands[t]) == Some(e)
}

/// The ordered cut edges of the incoming operand that the rewrite commands
/// already map, ascending and once each.
pub fn mapped_incoming_edges(
    assembly: &AssemblyTopology,
    incoming_operand: ExactBooleanOperand,
    record_commands: &Vec<ExactMeshlibRecordRewriteCommand>,
) -> (out: Vec<[usize; 2]>)
    ensures
        edges_increasing(out@),
        forall|e: [usize; 2]| out@.contains(e) <==> mapped_edge(assembly, incoming_operand, record_commands@, e),
{
    let mut out: Vec<[usize; 2]> = Vec::new();
    let mut i: usize = 0;
    while i < record_commands.len()
        invariant
            i <= record_commands@.len(),
            edges_increasing(out@),
            forall|e: [usize; 2]|
                out@.contains(e) <==> exists|t: int|
                    0 <= t < i && #[trigger] mapped_edge_of(assembly, incoming_operand, record_commands@[t]) == Some(e),
        decreases record_commands.len() - i,
    {
        let command = record_commands[i];
        let ghost before = out@;
        if command.from_operand == incoming_operand && command.stitch_pair_index < assembly.stitched_edge_sources.len() {
            let source = &assembly.stitched_edge_sources[command.stitch_pair_index];
            let edge = match incoming_operand {
                ExactBooleanOperand::First => source.first_cut_edge,
                ExactBooleanOperand::Second => source.second_cut_edge,
            };
            let ordered = crate::edge::ordered_edge(edge);
            assert(mapped_edge_of(assembly, incoming_operand, record_commands@[i as int]) == Some(ordered));
            insert_sorted_edge(&mut out, ordered);
        } else {
            assert(mapped_edge_of(assembly, incoming_operand, record_commands@[i as int]) is None);
        }
        proof {
            assert forall|e: [usize; 2]|
                out@.contains(e) <==> exists|t: int|
                    0 <= t < i + 1 && #[trigger] mapped_edge_of(assembly, incoming_operand, record_commands@[t]) == Some(e) by {
                assert(out@.contains(e) <==> out@.to_set().contains(e));
                assert(before.contains(e) <==> before.to_set().contains(e));
                if exists|t: int| 0 <= t < i + 1 && #[trigger] mapped_edge_of(assembly, incoming_operand, record_commands@[t]) == Some(e) {
                    let t = choose|t: int| 0 <= t < i + 1 && #[trigger] mapped_edge_of(assembly, incoming_operand, record_commands@[t]) == Some(e);
                    if t < i {
                        assert(exists|t: int| 0 <= t < i && #[trigger] mapped_edge_of(assembly, incoming_operand, record_commands@[t]) == Some(e));
                    }
                }
                if exists|t: int| 0 <= t < i && #[trigger] mapped_edge_of(assembly, incoming_operand, record_commands@[t]) == Some(e) {
                    let t = choose|t: int| 0 <= t < i && #[trigger] mapped_edge_of(assembly, incoming_operand, record_commands@[t]) == Some(e);
                    assert(exists|t: int| 0 <= t < i + 1 && #[trigger] mapped_edge_of(assembly, incoming_operand, record_commands@[t]) == Some(e));
                }
            }
        }
        i += 1;
    }
    out
}

/// The faces of the incoming operand's cut mesh.
pub open spec fn incoming_faces(first_cut: &ExactCutMeshRecords, second_cut: &ExactCutMeshRecords, incoming: ExactBooleanOperand) -> Seq<[i64; 3]> {
    match incoming {
        ExactBooleanOperand::First => first_cut.faces@,
        ExactBooleanOperand::Second => second_cut.faces@,
    }
}

/// The faces of the incoming operand's prepared part.
pub open spec fn incoming_prepared(assembly: &AssemblyTopology, incoming: ExactBooleanOperand) -> Seq<usize> {
    match incoming {
        ExactBooleanOperand::First => assembly.prepare_first_faces@,
        ExactBooleanOperand::Second => assembly.prepare_second_faces@,
    }
}

/// Where the incoming operand's cut vertices went in the output.
pub open spec fn incoming_vertex_map(assembly: &AssemblyTopology, incoming: ExactBooleanOperand) -> Seq<Option<usize>> {
    match incoming {
        ExactBooleanOperand::First => assembly.first_output_vertex_for_cut_vertex@,
        ExactBooleanOperand::Second => assembly.second_output_vertex_for_cut_vertex@,
    }
}

/// The incoming operand's contour vertex map entries.
pub open spec fn incoming_entries(
    assembly: &AssemblyTopology,
    incoming: ExactBooleanOperand,
    commands: Seq<ExactMeshlibRecordRewriteCommand>,
) -> Seq<([usize; 2], [usize; 2])> {
    vertex_map_entries(assembly, incoming, spec_contour_order(assembly.stitched_edge_paths@, commands))
}

/// Whether vertex `v` of the incoming cut mesh has an output vertex once
/// the prepared part is copied: it had one, a contour entry gives it one,
/// or it is a corner of a prepared face and gets a virtual one.
pub open spec fn copied_known(
    first_cut: &ExactCutMeshRecords,
    second_cut: &ExactCutMeshRecords,
    assembly: &AssemblyTopology,
    incoming: ExactBooleanOperand,
    commands: Seq<ExactMeshlibRecordRewriteCommand>,
    v: usize,
) -> bool {
    ||| map_vertex(incoming_vertex_map(assembly, incoming), v) is Some
    ||| seeded_vertex(incoming_entries(assembly, incoming, commands), v)
    ||| region_vertex(incoming_faces(first_cut, second_cut, incoming), incoming_prepared(assembly, incoming), v)
}

/// The prepared part's ordered edges that no command maps.
pub open spec fn copied_edge_set(
    first_cut: &ExactCutMeshRecords,
    second_cut: &ExactCutMeshRecords,
    assembly: &AssemblyTopology,
    incoming: ExactBooleanOperand,
    commands: Seq<ExactMeshlibRecordRewriteCommand>,
) -> Set<[usize; 2]> {
    Set::new(
        |e: [usize; 2]|
            region_edge(incoming_faces(first_cut, second_cut, incoming), incoming_prepared(assembly, incoming), e) && !mapped_edge(
                assembly,
                incoming,
                commands,
                e,
            ),
    )
}

/// The plan counts the incoming prepared part's faces, vertices and edges,
/// the edges the commands map and those left to copy, and how many of
/// those have output vertices at both ends before and after the copy.
pub open spec fn copied_edge_plan_ok(
    first_cut: &ExactCutMeshRecords,
    second_cut: &ExactCutMeshRecords,
    assembly: &AssemblyTopology,
    incoming: ExactBooleanOperand,
    commands: Seq<ExactMeshlibRecordRewriteCommand>,
    plan: ExactMeshlibCopiedEdgePlan,
) -> bool {
    let faces = incoming_faces(first_cut, second_cut, incoming);
    let prepared = incoming_prepared(assembly, incoming);
    let vertex_map = incoming_vertex_map(assembly, incoming);
    let entries = incoming_entries(assembly, incoming, commands);
    let copied = copied_edge_set(first_cut, second_cut, assembly, incoming, commands);
    &&& plan.prepared_faces == prepared.len()
    &&& plan.prepared_vertices == Set::new(|v: usize| region_vertex(faces, prepared, v)).len()
    &&& plan.prepared_edges == Set::new(|e: [usize; 2]| region_edge(faces, prepared, e)).len()
    &&& plan.mapped_edges == Set::new(|e: [usize; 2]| mapped_edge(assembly, incoming, commands, e)).len()
    &&& plan.copied_edges == copied.len()
    &&& plan.copied_edges_mapped_to_existing_output == copied.filter(|e: [usize; 2]| spec_mapped_directed(vertex_map, e) is Some).len()
    &&& plan.copied_edges_mapped_to_output == copied.filter(
        |e: [usize; 2]|
            copied_known(first_cut, second_cut, assembly, incoming, commands, e[0]) && copied_known(
                first_cut,
                second_cut,
                assembly,
                incoming,
                commands,
                e[1],
            ),
    ).len()
    &&& plan.virtual_copied_vertices == Set::new(
        |v: usize| (seeded_vertex(entries, v) || region_vertex(faces, prepared, v)) && map_vertex(vertex_map, v) is None,
    ).len()
    &&& plan.copied_edges_missing_output_vertices == plan.copied_edges - plan.copied_edges_mapped_to_output
}

/// How many items of `items`, from the start up to `n`, satisfy `p`, as
/// counted by a loop.
fn count_edges_mapped(items: &Vec<[usize; 2]>, vertex_map: &Vec<Option<usize>>) -> (out: usize)
    ensures
        out == count_where(items@, |e: [usize; 2]| spec_mapped_directed(vertex_map@, e) is Some),
{
    let ghost p = |e: [usize; 2]| spec_mapped_directed(vertex_map@, e) is Some;
    let mut count: usize = 0;
    let mut i: usize = 0;
    while i < items.len()
        invariant
            i <= items@.len(),
            p == (|e: [usize; 2]| spec_mapped_directed(vertex_map@, e) is Some),
            count == count_where(items@.subrange(0, i as int), p),
            count <= i,
        decreases items.len() - i,
    {
        proof {
            assert(items@.subrange(0, i as int + 1).drop_last() =~= items@.subrange(0, i as int));
        }
        if output_edge_for_cut_edge(items[i], vertex_map).is_some() {
            count += 1;
        }
        i += 1;
    }
    proof {
        assert(items@.subrange(0, items@.len() as int) =~= items@);
    }
    count
}

/// The entries of `copied` that were given a vertex and had none in
/// `original`, counted over the positions of `copied`.
fn count_virtual(copied: &Vec<Option<usize>>, original: &Vec<Option<usize>>) -> (out: usize)
    ensures
        out == count_where(
            Seq::new(copied@.len(), |i: int| i as usize),
            |v: usize| map_vertex(copied@, v) is Some && map_vertex(original@, v) is None,
        ),
{
    let ghost p = |v: usize| map_vertex(copied@, v) is Some && map_vertex(original@, v) is None;
    let ghost positions = Seq::new(copied@.len(), |i: int| i as usize);
    let mut count: usize = 0;
    let mut i: usize = 0;
    while i < copied.len()
        invariant
            i <= copied@.len(),
            p == (|v: usize| map_vertex(copied@, v) is Some && map_vertex(original@, v) is None),
            positions == Seq::new(copied@.len(), |i: int| i as usize),
            count == count_where(positions.subrange(0, i as int), p),
            count <= i,
        decreases copied.len() - i,
    {
        proof {
            assert(positions.subrange(0, i as int + 1).drop_last() =~= positions.subrange(0, i as int));
            assert(positions.subrange(0, i as int + 1).last() == i);
        }
        let original_none = i >= original.len() || original[i].is_none();
        if copied[i].is_some() && original_none {
            count += 1;
        }
        i += 1;
    }
    proof {
        assert(positions.subrange(0, copied@.len() as int) =~= positions);
    }
    count
}

/// How the incoming operand's prepared part is copied into the base
/// operand: its faces, vertices and edges, the edges the rewrite commands
/// already map, the edges left to copy, and how many of those have output
/// vertices at both ends, before the copy and once the copy gives the
/// contour and prepared vertices theirs.
pub fn exact_meshlib_copied_edge_plan(
    first_cut: &ExactCutMeshRecords,
    second_cut: &ExactCutMeshRecords,
    assembly: &AssemblyTopology,
    incoming_operand: ExactBooleanOperand,
    record_commands: &Vec<ExactMeshlibRecordRewriteCommand>,
) -> (plan: ExactMeshlibCopiedEdgePlan)
    requires
        forall|v: usize|
            region_vertex(incoming_faces(first_cut, second_cut, incoming_operand), incoming_prepared(assembly, incoming_operand), v)
                ==> v < usize::MAX,
        forall|t: int|
            0 <= t < incoming_entries(assembly, incoming_operand, record_commands@).len() ==> (#[trigger] incoming_entries(
                assembly,
                incoming_operand,
                record_commands@,
            )[t]).0[0] < usize::MAX && incoming_entries(assembly, incoming_operand, record_commands@)[t].0[1] < usize::MAX,
        assembly.vertex_count + Set::new(
            |v: usize|
                region_vertex(incoming_faces(first_cut, second_cut, incoming_operand), incoming_prepared(assembly, incoming_operand), v),
        ).len() <= usize::MAX,
    ensures
        copied_edge_plan_ok(first_cut, second_cut, assembly, incoming_operand, record_commands@, plan),
{
    let (faces, prepared_faces, vertex_map) = match incoming_operand {
        ExactBooleanOperand::First => (&first_cut.faces, &assembly.prepare_first_faces, &assembly.first_output_vertex_for_cut_vertex),
        ExactBooleanOperand::Second => (&second_cut.faces, &assembly.prepare_second_faces, &assembly.second_output_vertex_for_cut_vertex),
    };
    let ghost region = Set::new(|v: usize| region_vertex(faces@, prepared_faces@, v));
    let ghost region_edges = Set::new(|e: [usize; 2]| region_edge(faces@, prepared_faces@, e));
    let ghost mapped = Set::new(|e: [usize; 2]| mapped_edge(assembly, incoming_operand, record_commands@, e));
    let ghost copied_set = copied_edge_set(first_cut, second_cut, assembly, incoming_operand, record_commands@);
    let prepared_vertices = prepared_region_vertices(faces, prepared_faces);
    let prepared_edges = prepared_region_edges(faces, prepared_faces);
    let mapped_edges = mapped_incoming_edges(assembly, incoming_operand, record_commands);
    proof {
        lemma_increasing_no_dup(prepared_vertices@);
        prepared_vertices@.unique_seq_to_set();
        assert(prepared_vertices@.to_set() =~= region);
        lemma_edges_increasing_no_dup(prepared_edges@);
        prepared_edges@.unique_seq_to_set();
        assert(prepared_edges@.to_set() =~= region_edges);
        lemma_edges_increasing_no_dup(mapped_edges@);
        mapped_edges@.unique_seq_to_set();
        assert(mapped_edges@.to_set() =~= mapped);
    }
    let mut copied: Vec<[usize; 2]> = Vec::new();
    let mut i: usize = 0;
    while i < prepared_edges.len()
        invariant
            i <= prepared_edges@.len(),
            edges_increasing(prepared_edges@),
            edges_increasing(copied@),
            forall|t: int| #![trigger copied@[t]] 0 <= t < copied@.len() ==> exists|u: int| 0 <= u < i && #[trigger] prepared_edges@[u] == copied@[t],
            forall|e: [usize; 2]|
                copied@.contains(e) <==> (prepared_edges@.subrange(0, i as int).contains(e) && !mapped_edges@.contains(e)),
        decreases prepared_edges.len() - i,
    {
        let edge = prepared_edges[i];
        let ghost before = copied@;
        if !crate::edge::contains_edge(&mapped_edges, edge) {
            copied.push(edge);
            proof {
                assert forall|a: int, b: int| 0 <= a < b < copied@.len() implies crate::edge::edge_lt(copied@[a], copied@[b]) by {
                    if b == copied@.len() - 1 {
                        let u = choose|u: int| 0 <= u < i && #[trigger] prepared_edges@[u] == before[a];
                        assert(crate::edge::edge_lt(prepared_edges@[u], prepared_edges@[i as int]));
                    }
                }
            }
        }
        proof {
            assert forall|t: int| #![trigger copied@[t]] 0 <= t < copied@.len() implies exists|u: int| 0 <= u < i + 1 && #[trigger] prepared_edges@[u] == copied@[t] by {
                if t < before.len() {
                    let u = choose|u: int| 0 <= u < i && #[trigger] prepared_edges@[u] == before[t];
                    assert(copied@[t] == before[t]);
                } else {
                    assert(prepared_edges@[i as int] == copied@[t]);
                }
            }
            let next = prepared_edges@.subrange(0, i as int + 1);
            assert forall|e: [usize; 2]| copied@.contains(e) <==> (next.contains(e) && !mapped_edges@.contains(e)) by {
                if next.contains(e) && e != edge {
                    let u = choose|u: int| 0 <= u < next.len() && next[u] == e;
                    assert(prepared_edges@.subrange(0, i as int)[u] == e);
                }
                if prepared_edges@.subrange(0, i as int).contains(e) {
                    let u = choose|u: int| 0 <= u < i && prepared_edges@.subrange(0, i as int)[u] == e;
                    assert(next[u] == e);
                }
                if e == edge {
                    assert(next[i as int] == e);
                }
                if copied@.contains(e) && !before.contains(e) {
                    let t = choose|t: int| 0 <= t < copied@.len() && copied@[t] == e;
                    assert(t == before.len());
                }
                if before.contains(e) {
                    let t = choose|t: int| 0 <= t < before.len() && before[t] == e;
                    assert(copied@[t] == e);
                }
                if e == edge && !mapped_edges@.contains(e) {
                    assert(copied@[before.len() as int] == e);
                }
            }
        }
        i += 1;
    }
    proof {
        assert(prepared_edges@.subrange(0, prepared_edges@.len() as int) =~= prepared_edges@);
        lemma_edges_increasing_no_dup(copied@);
        copied@.unique_seq_to_set();
        assert(copied@.to_set() =~= copied_set);
    }
    let existing = count_edges_mapped(&copied, vertex_map);
    let contour_maps = contour_vertex_maps(assembly, incoming_operand, record_commands);
    proof {
        assert forall|t: int| 0 <= t < prepared_vertices@.len() implies #[trigger] prepared_vertices@[t] < usize::MAX by {
            assert(prepared_vertices@.contains(prepared_vertices@[t]));
        }
    }
    proof {
        assert(contour_maps@ == incoming_entries(assembly, incoming_operand, record_commands@));
        assert forall|t: int| 0 <= t < contour_maps@.len() implies (#[trigger] contour_maps@[t]).0[0] < usize::MAX
            && contour_maps@[t].0[1] < usize::MAX by {
            assert(incoming_entries(assembly, incoming_operand, record_commands@)[t] == contour_maps@[t]);
        }
    }
    let copied_map = copied_vertex_map(vertex_map, &prepared_vertices, assembly.vertex_count, &contour_maps);
    let to_output = count_edges_mapped(&copied, &copied_map);
    let virtual_vertices = count_virtual(&copied_map, vertex_map);
    proof {
        let p1 = |e: [usize; 2]| spec_mapped_directed(vertex_map@, e) is Some;
        lemma_count_where_set(copied@, p1);
        let p2 = |e: [usize; 2]| spec_mapped_directed(copied_map@, e) is Some;
        lemma_count_where_set(copied@, p2);
        lemma_count_where_bound(copied@, p2);
        let known = |e: [usize; 2]|
            copied_known(first_cut, second_cut, assembly, incoming_operand, record_commands@, e[0]) && copied_known(
                first_cut,
                second_cut,
                assembly,
                incoming_operand,
                record_commands@,
                e[1],
            );
        assert(copied_set.filter(p2) =~= copied_set.filter(known)) by {
            assert forall|e: [usize; 2]| #[trigger] p2(e) == known(e) by {
                assert(map_vertex(copied_map@, e[0]) is Some == copied_known(first_cut, second_cut, assembly, incoming_operand, record_commands@, e[0]));
                assert(map_vertex(copied_map@, e[1]) is Some == copied_known(first_cut, second_cut, assembly, incoming_operand, record_commands@, e[1]));
            }
        }
        let positions = Seq::new(copied_map@.len(), |i: int| i as usize);
        let p3 = |v: usize| map_vertex(copied_map@, v) is Some && map_vertex(vertex_map@, v) is None;
        assert(positions.no_duplicates());
        lemma_count_where_set(positions, p3);
        let entries = incoming_entries(assembly, incoming_operand, record_commands@);
        let target = Set::new(
            |v: usize| (seeded_vertex(entries, v) || region_vertex(faces@, prepared_faces@, v)) && map_vertex(vertex_map@, v) is None,
        );
        assert(positions.to_set().filter(p3) =~= target) by {
            assert forall|v: usize| positions.to_set().filter(p3).contains(v) <==> target.contains(v) by {
                assert(map_vertex(copied_map@, v) is Some <==> (map_vertex(vertex_map@, v) is Some || seeded_vertex(contour_maps@, v)
                    || prepared_vertices@.contains(v)));
                if target.contains(v) {
                    assert(map_vertex(copied_map@, v) is Some);
                    assert(v < copied_map@.len());
                    assert(positions[v as int] == v);
                    assert(positions.contains(v));
                }
            }
        }
    }
    let copied_count = copied.len();
    ExactMeshlibCopiedEdgePlan {
        prepared_faces: prepared_faces.len(),
        prepared_vertices: prepared_vertices.len(),
        virtual_copied_vertices: virtual_vertices,
        prepared_edges: prepared_edges.len(),
        mapped_edges: mapped_edges.len(),
        copied_edges: copied_count,
        copied_edges_mapped_to_existing_output: existing,
        copied_edges_mapped_to_output: to_output,
        copied_edges_missing_output_vertices: copied_count.saturating_sub(to_output),
    }
}


/// The first `n` commands whose pair is in `visits`, in order.
pub open spec fn commands_on(commands: Seq<ExactMeshlibRecordRewriteCommand>, visits: Seq<usize>, n: int) -> Seq<ExactMeshlibRecordRewriteCommand>
    decreases n,
{
    if n <= 0 {
        Seq::empty()
    } else if visits.contains(commands[n - 1].stitch_pair_index) {
        commands_on(commands, visits, n - 1).push(commands[n - 1])
    } else {
        commands_on(commands, visits, n - 1)
    }
}

/// The first `n` commands for stitch pair `pair`, in order.
pub open spec fn commands_for(commands: Seq<ExactMeshlibRecordRewriteCommand>, pair: usize, n: int) -> Seq<ExactMeshlibRecordRewriteCommand>
    decreases n,
{
    if n <= 0 {
        Seq::empty()
    } else if commands[n - 1].stitch_pair_index == pair {
        commands_for(commands, pair, n - 1).push(commands[n - 1])
    } else {
        commands_for(commands, pair, n - 1)
    }
}

/// No two commands are for the same stitch pair.
pub open spec fn distinct_pairs(commands: Seq<ExactMeshlibRecordRewriteCommand>) -> bool {
    forall|i: int, j: int|
        0 <= i < j < commands.len() ==> (#[trigger] commands[i]).stitch_pair_index != (#[trigger] commands[j]).stitch_pair_index
}

proof fn lemma_split_commands(commands: Seq<ExactMeshlibRecordRewriteCommand>, visits: Seq<usize>, n: int)
    requires
        0 <= n <= commands.len(),
    ensures
        unseen_commands(commands, visits, n).to_multiset().add(commands_on(commands, visits, n).to_multiset())
            == commands.take(n).to_multiset(),
    decreases n,
{
    broadcast use vstd::seq_lib::group_to_multiset_ensures, vstd::multiset::group_multiset_axioms;

    if n == 0 {
        assert(commands.take(0) =~= Seq::<ExactMeshlibRecordRewriteCommand>::empty());
        assert(unseen_commands(commands, visits, 0).to_multiset().add(commands_on(commands, visits, 0).to_multiset()) =~= vstd::multiset::Multiset::empty());
    } else {
        lemma_split_commands(commands, visits, n - 1);
        assert(commands.take(n) =~= commands.take(n - 1).push(commands[n - 1]));
        let u = unseen_commands(commands, visits, n - 1).to_multiset();
        let o = commands_on(commands, visits, n - 1).to_multiset();
        assert(u.insert(commands[n - 1]).add(o) =~= u.add(o).insert(commands[n - 1]));
        assert(u.add(o.insert(commands[n - 1])) =~= u.add(o).insert(commands[n - 1]));
    }
}

proof fn lemma_commands_on_members(commands: Seq<ExactMeshlibRecordRewriteCommand>, a: Seq<usize>, b: Seq<usize>, n: int)
    requires
        forall|y: usize| a.contains(y) <==> b.contains(y),
    ensures
        commands_on(commands, a, n) == commands_on(commands, b, n),
    decreases n,
{
    if n > 0 {
        lemma_commands_on_members(commands, a, b, n - 1);
    }
}

proof fn lemma_commands_on_push(commands: Seq<ExactMeshlibRecordRewriteCommand>, visits: Seq<usize>, x: usize, n: int)
    requires
        !visits.contains(x),
    ensures
        commands_on(commands, visits.push(x), n).to_multiset() == commands_on(commands, visits, n).to_multiset().add(
            commands_for(commands, x, n).to_multiset(),
        ),
    decreases n,
{
    broadcast use vstd::seq_lib::group_to_multiset_ensures, vstd::multiset::group_multiset_axioms;

    if n <= 0 {
        assert(commands_on(commands, visits.push(x), n).to_multiset() =~= commands_on(commands, visits, n).to_multiset().add(
            commands_for(commands, x, n).to_multiset(),
        ));
    } else {
        lemma_commands_on_push(commands, visits, x, n - 1);
        let c = commands[n - 1];
        let k = c.stitch_pair_index;
        assert(visits.push(x).contains(k) <==> (visits.contains(k) || k == x)) by {
            if visits.push(x).contains(k) {
                let i = choose|i: int| 0 <= i < visits.push(x).len() && visits.push(x)[i] == k;
                if i < visits.len() {
                    assert(visits[i] == k);
                }
            }
            if visits.contains(k) {
                let i = choose|i: int| 0 <= i < visits.len() && visits[i] == k;
                assert(visits.push(x)[i] == k);
            }
            if k == x {
                assert(visits.push(x)[visits.len() as int] == k);
            }
        }
        let o = commands_on(commands, visits, n - 1).to_multiset();
        let w = commands_for(commands, x, n - 1).to_multiset();
        assert(o.insert(c).add(w) =~= o.add(w).insert(c));
        assert(o.add(w.insert(c)) =~= o.add(w).insert(c));
    }
}

proof fn lemma_first_command_found(commands: Seq<ExactMeshlibRecordRewriteCommand>, pair: usize, start: int)
    requires
        0 <= start,
    ensures
        match first_command(commands, pair, start) {
            Some(c) => exists|i: int| start <= i < commands.len() && commands[i] == c && c.stitch_pair_index == pair,
            None => forall|i: int| start <= i < commands.len() ==> (#[trigger] commands[i]).stitch_pair_index != pair,
        },
    decreases commands.len() - start,
{
    if start < commands.len() && commands[start].stitch_pair_index != pair {
        lemma_first_command_found(commands, pair, start + 1);
    }
}

proof fn lemma_commands_for_unique(commands: Seq<ExactMeshlibRecordRewriteCommand>, pair: usize, n: int)
    requires
        distinct_pairs(commands),
        0 <= n <= commands.len(),
    ensures
        commands_for(commands, pair, n) == match first_command(commands, pair, 0) {
            Some(c) => if exists|i: int| 0 <= i < n && (#[trigger] commands[i]).stitch_pair_index == pair {
                seq![c]
            } else {
                Seq::empty()
            },
            None => Seq::empty(),
        },
    decreases n,
{
    lemma_first_command_found(commands, pair, 0);
    if n > 0 {
        lemma_commands_for_unique(commands, pair, n - 1);
        let c = commands[n - 1];
        if c.stitch_pair_index == pair {
            let f = first_command(commands, pair, 0);
            let i = choose|i: int| 0 <= i < commands.len() && commands[i] == f->0 && f->0.stitch_pair_index == pair;
            assert(i == n - 1) by {
                if i < n - 1 {
                    assert(commands[i].stitch_pair_index != commands[n - 1].stitch_pair_index);
                } else if i > n - 1 {
                    assert(commands[n - 1].stitch_pair_index != commands[i].stitch_pair_index);
                }
            }
            assert(!exists|j: int| 0 <= j < n - 1 && (#[trigger] commands[j]).stitch_pair_index == pair) by {
                if exists|j: int| 0 <= j < n - 1 && (#[trigger] commands[j]).stitch_pair_index == pair {
                    let j = choose|j: int| 0 <= j < n - 1 && (#[trigger] commands[j]).stitch_pair_index == pair;
                    assert(commands[j].stitch_pair_index != commands[n - 1].stitch_pair_index);
                }
            }
            assert(exists|j: int| 0 <= j < n && (#[trigger] commands[j]).stitch_pair_index == pair) by {
                assert(commands[n - 1].stitch_pair_index == pair);
            }
            assert(Seq::<ExactMeshlibRecordRewriteCommand>::empty().push(c) =~= seq![c]);
        } else {
            assert((exists|j: int| 0 <= j < n && (#[trigger] commands[j]).stitch_pair_index == pair) == (exists|j: int|
                0 <= j < n - 1 && (#[trigger] commands[j]).stitch_pair_index == pair)) by {
                if exists|j: int| 0 <= j < n && (#[trigger] commands[j]).stitch_pair_index == pair {
                    let j = choose|j: int| 0 <= j < n && (#[trigger] commands[j]).stitch_pair_index == pair;
                    assert(j < n - 1);
                }
            }
        }
    }
}

proof fn lemma_first_visits_on(commands: Seq<ExactMeshlibRecordRewriteCommand>, visits: Seq<usize>)
    requires
        distinct_pairs(commands),
    ensures
        first_visit_commands(visits, commands).to_multiset() == commands_on(commands, visits, commands.len() as int).to_multiset(),
    decreases visits.len(),
{
    broadcast use vstd::seq_lib::group_to_multiset_ensures, vstd::multiset::group_multiset_axioms;

    let n = commands.len() as int;
    if visits.len() == 0 {
        assert(commands_on(commands, visits, n) =~= Seq::<ExactMeshlibRecordRewriteCommand>::empty()) by {
            lemma_commands_on_members(commands, visits, Seq::<usize>::empty(), n);
            lemma_nothing_on(commands, n);
        }
        assert(first_visit_commands(visits, commands).to_multiset() =~= commands_on(commands, visits, n).to_multiset());
    } else {
        let v = visits.drop_last();
        let x = visits.last();
        lemma_first_visits_on(commands, v);
        assert(visits =~= v.push(x));
        if v.contains(x) {
            assert forall|y: usize| visits.contains(y) <==> v.contains(y) by {
                if visits.contains(y) {
                    let i = choose|i: int| 0 <= i < visits.len() && visits[i] == y;
                    if i < v.len() {
                        assert(v[i] == y);
                    }
                }
                if v.contains(y) {
                    let i = choose|i: int| 0 <= i < v.len() && v[i] == y;
                    assert(visits[i] == y);
                }
            }
            lemma_commands_on_members(commands, visits, v, n);
        } else {
            lemma_commands_on_push(commands, v, x, n);
            lemma_commands_for_unique(commands, x, n);
            lemma_first_command_found(commands, x, 0);
            match first_command(commands, x, 0) {
                Some(c) => {
                    let i = choose|i: int| 0 <= i < commands.len() && commands[i] == c && c.stitch_pair_index == x;
                    assert(commands[i].stitch_pair_index == x);
                    assert(commands_for(commands, x, n) == seq![c]);
                    assert(seq![c] =~= Seq::<ExactMeshlibRecordRewriteCommand>::empty().push(c));
                    assert(seq![c].to_multiset() =~= vstd::multiset::Multiset::<ExactMeshlibRecordRewriteCommand>::empty().insert(c));
                    let f = first_visit_commands(v, commands).to_multiset();
                    assert(f.insert(c) =~= f.add(vstd::multiset::Multiset::empty().insert(c)));
                },
                None => {
                    assert(commands_for(commands, x, n) == Seq::<ExactMeshlibRecordRewriteCommand>::empty());
                    let f = first_visit_commands(v, commands).to_multiset();
                    assert(f =~= f.add(Seq::<ExactMeshlibRecordRewriteCommand>::empty().to_multiset()));
                },
            }
        }
    }
}

proof fn lemma_nothing_on(commands: Seq<ExactMeshlibRecordRewriteCommand>, n: int)
    ensures
        commands_on(commands, Seq::<usize>::empty(), n) == Seq::<ExactMeshlibRecordRewriteCommand>::empty(),
    decreases n,
{
    if n > 0 {
        lemma_nothing_on(commands, n - 1);
    }
}

/// When no two commands are for the same stitch pair, the contour order
/// holds every command exactly once: it is a reordering of the commands.
pub proof fn lemma_contour_order_permutes(paths: Seq<ExactStitchPath>, commands: Seq<ExactMeshlibRecordRewriteCommand>)
    requires
        distinct_pairs(commands),
    ensures
        spec_contour_order(paths, commands).to_multiset() == commands.to_multiset(),
{
    broadcast use vstd::seq_lib::group_to_multiset_ensures, vstd::multiset::group_multiset_axioms;

    let visits = path_pairs(paths, paths.len() as int);
    let n = commands.len() as int;
    lemma_first_visits_on(commands, visits);
    lemma_split_commands(commands, visits, n);
    assert(commands.take(n) =~= commands);
    vstd::seq_lib::lemma_multiset_commutative(first_visit_commands(visits, commands), unseen_commands(commands, visits, n));
    let a = first_visit_commands(visits, commands).to_multiset();
    let b = unseen_commands(commands, visits, n).to_multiset();
    assert(a.add(b) =~= b.add(a));
}

} // verus!
