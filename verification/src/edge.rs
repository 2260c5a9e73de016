//! Directed and undirected mesh edges, and the sorted sets that hold them.
use vstd::prelude::*;

verus! {

/// An edge with its endpoints in ascending order.
pub open spec fn spec_ordered(edge: [usize; 2]) -> [usize; 2] {
    if edge[0] <= edge[1] {
        edge
    } else {
        [edge[1], edge[0]]
    }
}

/// The same edge walked the other way.
pub open spec fn spec_reverse(edge: [usize; 2]) -> [usize; 2] {
    [edge[1], edge[0]]
}

/// The three directed edges of a triangle, in winding order.
pub open spec fn spec_face_edges(face: [usize; 3]) -> [[usize; 2]; 3] {
    [[face[0], face[1]], [face[1], face[2]], [face[2], face[0]]]
}

/// Whether `face` walks `edge` in that direction.
pub open spec fn face_has_directed(face: [usize; 3], edge: [usize; 2]) -> bool {
    ||| spec_face_edges(face)[0] == edge
    ||| spec_face_edges(face)[1] == edge
    ||| spec_face_edges(face)[2] == edge
}

/// Lexicographic order on edges, the order of `[usize; 2]` in Rust.
pub open spec fn edge_lt(a: [usize; 2], b: [usize; 2]) -> bool {
    a[0] < b[0] || (a[0] == b[0] && a[1] < b[1])
}

/// A sequence of indices in strictly ascending order.
pub open spec fn increasing(s: Seq<usize>) -> bool {
    forall|i: int, j: int| 0 <= i < j < s.len() ==> s[i] < s[j]
}

/// A sequence of edges in strictly ascending lexicographic order.
pub open spec fn edges_increasing(s: Seq<[usize; 2]>) -> bool {
    forall|i: int, j: int| 0 <= i < j < s.len() ==> edge_lt(s[i], s[j])
}

/// Returns the edge with its endpoints in ascending order.
pub fn ordered_edge(edge: [usize; 2]) -> (out: [usize; 2])
    ensures
        out == spec_ordered(edge),
{
    if edge[0] <= edge[1] {
        edge
    } else {
        [edge[1], edge[0]]
    }
}

/// Returns the edge walked the other way.
pub fn reverse_edge(edge: [usize; 2]) -> (out: [usize; 2])
    ensures
        out == spec_reverse(edge),
{
    [edge[1], edge[0]]
}

/// Returns the three directed edges of a triangle, in winding order.
pub fn face_edges(face: [usize; 3]) -> (out: [[usize; 2]; 3])
    ensures
        out == spec_face_edges(face),
{
    [[face[0], face[1]], [face[1], face[2]], [face[2], face[0]]]
}

/// Ordering an edge twice changes nothing, and an edge and its reverse
/// order to the same undirected edge.
pub proof fn lemma_ordered_edge_laws(edge: [usize; 2])
    ensures
        spec_ordered(spec_ordered(edge)) == spec_ordered(edge),
        spec_ordered(spec_reverse(edge)) == spec_ordered(edge),
        spec_reverse(spec_reverse(edge)) == edge,
        spec_ordered(edge)[0] <= spec_ordered(edge)[1],
{
    assert(spec_reverse(spec_reverse(edge)) =~= edge);
    if edge[0] == edge[1] {
        assert(spec_reverse(edge) =~= edge);
    }
}

/// Whether two edges are the same directed edge.
pub fn same_edge(a: [usize; 2], b: [usize; 2]) -> (same: bool)
    ensures
        same == (a == b),
{
    if a[0] == b[0] && a[1] == b[1] {
        assert(a =~= b);
        true
    } else {
        false
    }
}

/// The first position of `e` in `v`, or `v.len()` when `e` does not occur.
pub fn find_edge(v: &Vec<[usize; 2]>, e: [usize; 2]) -> (i: usize)
    ensures
        i <= v@.len(),
        i < v@.len() ==> v@[i as int] == e,
        forall|j: int| 0 <= j < i ==> v@[j] != e,
        i == v@.len() ==> !v@.contains(e),
{
    let mut i: usize = 0;
    while i < v.len()
        invariant
            i <= v.len(),
            forall|j: int| 0 <= j < i ==> v@[j] != e,
        decreases v.len() - i,
    {
        if same_edge(v[i], e) {
            return i;
        }
        i += 1;
    }
    i
}

/// Whether `x` occurs in `v`.
pub fn contains_index(v: &Vec<usize>, x: usize) -> (found: bool)
    ensures
        found == v@.contains(x),
{
    let mut i: usize = 0;
    while i < v.len()
        invariant
            i <= v.len(),
            forall|j: int| 0 <= j < i ==> v@[j] != x,
        decreases v.len() - i,
    {
        if v[i] == x {
            return true;
        }
        i += 1;
    }
    false
}

/// Whether `e` occurs in `v`.
pub fn contains_edge(v: &Vec<[usize; 2]>, e: [usize; 2]) -> (found: bool)
    ensures
        found == v@.contains(e),
{
    let mut i: usize = 0;
    while i < v.len()
        invariant
            i <= v.len(),
            forall|j: int| 0 <= j < i ==> v@[j] != e,
        decreases v.len() - i,
    {
        if same_edge(v[i], e) {
            return true;
        }
        i += 1;
    }
    false
}

/// Inserts `x` into an ascending set of indices, keeping it ascending.
/// Returns whether `x` was new.
pub fn insert_sorted(v: &mut Vec<usize>, x: usize) -> (inserted: bool)
    requires
        increasing(old(v)@),
    ensures
        increasing(final(v)@),
        final(v)@.to_set() == old(v)@.to_set().insert(x),
        inserted == !old(v)@.contains(x),
        final(v)@.len() == old(v)@.len() + (if inserted { 1int } else { 0int }),
{
    let mut i: usize = 0;
    while i < v.len() && v[i] < x
        invariant
            i <= v.len(),
            increasing(v@),
            forall|j: int| 0 <= j < i ==> v@[j] < x,
        decreases v.len() - i,
    {
        i += 1;
    }
    if i < v.len() && v[i] == x {
        assert(v@.contains(x));
        return false;
    }
    let ghost before = v@;
    assert(!before.contains(x)) by {
        if before.contains(x) {
            let k = choose|k: int| 0 <= k < before.len() && before[k] == x;
            if k >= i {
                assert(before[k] >= before[i as int]);
            }
        }
    }
    v.insert(i, x);
    assert(v@ == before.insert(i as int, x));
    assert forall|a: int, b: int| 0 <= a < b < v@.len() implies v@[a] < v@[b] by {
        if b < i {
        } else if b == i {
        } else if a < i {
            assert(v@[b] == before[b - 1]);
            assert(before[b - 1] >= before[i as int]);
        } else if a == i {
            assert(v@[b] == before[b - 1]);
            assert(before[b - 1] >= before[i as int]);
        } else {
            assert(v@[a] == before[a - 1]);
            assert(v@[b] == before[b - 1]);
        }
    }
    assert(v@.to_set() =~= before.to_set().insert(x)) by {
        assert forall|y: usize| v@.to_set().contains(y) implies before.to_set().insert(x).contains(
            y,
        ) by {
            let k = choose|k: int| 0 <= k < v@.len() && v@[k] == y;
            if k < i {
                assert(before[k] == y);
            } else if k > i {
                assert(before[k - 1] == y);
            }
        }
        assert forall|y: usize| before.to_set().insert(x).contains(y) implies v@.to_set().contains(
            y,
        ) by {
            if y == x {
                assert(v@[i as int] == x);
            } else {
                let k = choose|k: int| 0 <= k < before.len() && before[k] == y;
                if k < i {
                    assert(v@[k] == y);
                } else {
                    assert(v@[k + 1] == y);
                }
            }
        }
    }
    true
}

/// Inserts `e` into a lexicographically ascending set of edges, keeping it
/// ascending. Returns whether `e` was new.
pub fn insert_sorted_edge(v: &mut Vec<[usize; 2]>, e: [usize; 2]) -> (inserted: bool)
    requires
        edges_increasing(old(v)@),
    ensures
        edges_increasing(final(v)@),
        final(v)@.to_set() == old(v)@.to_set().insert(e),
        inserted == !old(v)@.contains(e),
        final(v)@.len() == old(v)@.len() + (if inserted { 1int } else { 0int }),
{
    let mut i: usize = 0;
    while i < v.len() && (v[i][0] < e[0] || (v[i][0] == e[0] && v[i][1] < e[1]))
        invariant
            i <= v.len(),
            edges_increasing(v@),
            forall|j: int| 0 <= j < i ==> edge_lt(v@[j], e),
        decreases v.len() - i,
    {
        i += 1;
    }
    if i < v.len() && v[i][0] == e[0] && v[i][1] == e[1] {
        assert(v@[i as int] =~= e);
        assert(v@.contains(e));
        return false;
    }
    let ghost before = v@;
    assert(i < before.len() ==> edge_lt(e, before[i as int]));
    assert(!before.contains(e)) by {
        if before.contains(e) {
            let k = choose|k: int| 0 <= k < before.len() && before[k] == e;
            if k > i {
                assert(edge_lt(before[i as int], before[k]));
            }
        }
    }
    v.insert(i, e);
    assert(v@ == before.insert(i as int, e));
    assert forall|a: int, b: int| 0 <= a < b < v@.len() implies edge_lt(v@[a], v@[b]) by {
        if b < i {
        } else if b == i {
        } else if a < i {
            assert(v@[b] == before[b - 1]);
            if b - 1 > i {
                assert(edge_lt(before[i as int], before[b - 1]));
            }
        } else if a == i {
            assert(v@[b] == before[b - 1]);
            if b - 1 > i {
                assert(edge_lt(before[i as int], before[b - 1]));
            }
        } else {
            assert(v@[a] == before[a - 1]);
            assert(v@[b] == before[b - 1]);
        }
    }
    assert(v@.to_set() =~= before.to_set().insert(e)) by {
        assert forall|y: [usize; 2]| v@.to_set().contains(y) implies before.to_set().insert(
            e,
        ).contains(y) by {
            let k = choose|k: int| 0 <= k < v@.len() && v@[k] == y;
            if k < i {
                assert(before[k] == y);
            } else if k > i {
                assert(before[k - 1] == y);
            }
        }
        assert forall|y: [usize; 2]| before.to_set().insert(e).contains(y) implies v@.to_set().contains(
            y,
        ) by {
            if y == e {
                assert(v@[i as int] == e);
            } else {
                let k = choose|k: int| 0 <= k < before.len() && before[k] == y;
                if k < i {
                    assert(v@[k] == y);
                } else {
                    assert(v@[k + 1] == y);
                }
            }
        }
    }
    true
}

/// Adds every index of `items` to the ascending set `v`.
pub fn extend_sorted(v: &mut Vec<usize>, items: &Vec<usize>)
    requires
        increasing(old(v)@),
    ensures
        increasing(final(v)@),
        forall|x: usize|
            #![trigger final(v)@.contains(x)]
            #![trigger old(v)@.contains(x)]
            #![trigger items@.contains(x)]
            final(v)@.contains(x) <==> (old(v)@.contains(x) || items@.contains(x)),
{
    let mut i: usize = 0;
    while i < items.len()
        invariant
            i <= items.len(),
            increasing(v@),
            forall|x: usize|
                v@.contains(x) <==> (old(v)@.contains(x) || exists|t: int| 0 <= t < i && items@[t] == x),
        decreases items.len() - i,
    {
        let ghost before = v@;
        insert_sorted(v, items[i]);
        proof {
            assert forall|x: usize|
                v@.contains(x) <==> (old(v)@.contains(x) || exists|t: int|
                    0 <= t < i + 1 && items@[t] == x) by {
                assert(v@.contains(x) <==> v@.to_set().contains(x));
                assert(before.contains(x) <==> before.to_set().contains(x));
                if exists|t: int| 0 <= t < i + 1 && items@[t] == x {
                    let t = choose|t: int| 0 <= t < i + 1 && items@[t] == x;
                    if t < i {
                        assert(exists|t: int| 0 <= t < i && items@[t] == x);
                    }
                }
                if exists|t: int| 0 <= t < i && items@[t] == x {
                    let t = choose|t: int| 0 <= t < i && items@[t] == x;
                    assert(exists|t: int| 0 <= t < i + 1 && items@[t] == x);
                }
            }
        }
        i += 1;
    }
}

/// Whether point key `a` comes before or is `b`, comparing coordinates
/// in turn.
pub open spec fn point_le(a: [i64; 3], b: [i64; 3]) -> bool {
    a[0] < b[0] || (a[0] == b[0] && (a[1] < b[1] || (a[1] == b[1] && a[2] <= b[2])))
}

/// The two point keys of an edge, the smaller first.
pub fn ordered_point_edge(left: [i64; 3], right: [i64; 3]) -> (out: ([i64; 3], [i64; 3]))
    ensures
        out == (if point_le(left, right) { (left, right) } else { (right, left) }),
{
    let le = left[0] < right[0] || (left[0] == right[0] && (left[1] < right[1] || (left[1] == right[1] && left[2] <= right[2])));
    if le {
        (left, right)
    } else {
        (right, left)
    }
}

/// Ordering the point keys of an edge forgets its direction and puts the
/// smaller key first.
pub proof fn lemma_ordered_point_edge_symmetric(left: [i64; 3], right: [i64; 3])
    ensures
        (if point_le(left, right) { (left, right) } else { (right, left) }) == (if point_le(right, left) {
            (right, left)
        } else {
            (left, right)
        }),
        point_le(
            (if point_le(left, right) { (left, right) } else { (right, left) }).0,
            (if point_le(left, right) { (left, right) } else { (right, left) }).1,
        ),
{
    if point_le(left, right) && point_le(right, left) {
        assert(left =~= right);
    }
}

} // verus!
