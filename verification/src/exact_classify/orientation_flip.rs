//! Re-orienting cut paths whose left and right sides disagree.
//!
//! Each cut path says which components lie on its left and which on its
//! right. When the paths were traced in opposite directions, the plain union
//! of their sides puts a component on both sides. The paths then only say
//! which components lie together and which lie apart; a two-colouring of
//! that constraint system, when one exists, gives consistent sides.
use vstd::prelude::*;
use crate::edge::{extend_sorted, increasing};
use super::{CutPathSideComponents, PathCutSideComponents};

verus! {

/// Whether `a` and `b` lie on the same side of some cut path.
pub open spec fn same_side(sides: Seq<PathCutSideComponents>, a: usize, b: usize) -> bool {
    exists|t: int|
        0 <= t < sides.len() && ((sides[t].left_components@.contains(a)
            && sides[t].left_components@.contains(b)) || (sides[t].right_components@.contains(a)
            && sides[t].right_components@.contains(b)))
}

/// Whether `a` and `b` lie on opposite sides of some cut path.
pub open spec fn opposite_sides(sides: Seq<PathCutSideComponents>, a: usize, b: usize) -> bool {
    exists|t: int|
        0 <= t < sides.len() && ((sides[t].left_components@.contains(a)
            && sides[t].right_components@.contains(b)) || (sides[t].right_components@.contains(a)
            && sides[t].left_components@.contains(b)))
}

/// Whether component `x` lies on some side of some cut path.
pub open spec fn side_member(sides: Seq<PathCutSideComponents>, x: usize) -> bool {
    exists|t: int|
        0 <= t < sides.len() && (sides[t].left_components@.contains(x)
            || sides[t].right_components@.contains(x))
}

/// A colouring (`true` meaning the right side) that keeps components of one
/// side together and components of opposite sides apart, for every path.
pub open spec fn valid_side_coloring(
    sides: Seq<PathCutSideComponents>,
    g: spec_fn(usize) -> bool,
) -> bool {
    &&& forall|a: usize, b: usize| #[trigger] same_side(sides, a, b) ==> g(a) == g(b)
    &&& forall|a: usize, b: usize| #[trigger] opposite_sides(sides, a, b) ==> g(a) != g(b)
}

/// The constraint an edge of the side graph stands for.
pub open spec fn constraint_holds(
    sides: Seq<PathCutSideComponents>,
    a: usize,
    b: usize,
    opposite: bool,
) -> bool {
    if opposite {
        opposite_sides(sides, a, b)
    } else {
        same_side(sides, a, b)
    }
}

/// The side graph over the positions of `nodes`: every edge stands for a
/// constraint, every edge has its mirror, and every constraint is linked.
pub open spec fn side_graph_ok(
    sides: Seq<PathCutSideComponents>,
    nodes: Seq<usize>,
    adj: Seq<Vec<(usize, bool)>>,
    upto: int,
) -> bool {
    &&& adj.len() == nodes.len()
    &&& forall|i: int, j: usize, o: bool|
        0 <= i < adj.len() && #[trigger] adj[i]@.contains((j, o)) ==> j < nodes.len()
            && constraint_holds(sides, nodes[i], nodes[j as int], o)
    &&& forall|i: int, j: usize, o: bool|
        0 <= i < adj.len() && #[trigger] adj[i]@.contains((j, o)) ==> adj[j as int]@.contains(
            (i as usize, o),
        )
    &&& forall|t: int, p: int, q: int|
        0 <= t < upto && 0 <= p < nodes.len() && 0 <= q < nodes.len() && p != q
            && sides[t].left_components@.len() > 0 && nodes[p] == sides[t].left_components@[0]
            && #[trigger] sides[t].left_components@.contains(nodes[q]) ==> #[trigger] adj[p]@.contains(
            (q as usize, false),
        )
    &&& forall|t: int, p: int, q: int|
        0 <= t < upto && 0 <= p < nodes.len() && 0 <= q < nodes.len() && p != q
            && sides[t].right_components@.len() > 0 && nodes[p] == sides[t].right_components@[0]
            && #[trigger] sides[t].right_components@.contains(nodes[q]) ==> #[trigger] adj[p]@.contains(
            (q as usize, false),
        )
    &&& forall|t: int, p: int, q: int|
        0 <= t < upto && 0 <= p < nodes.len() && 0 <= q < nodes.len()
            && #[trigger] sides[t].left_components@.contains(nodes[p])
            && #[trigger] sides[t].right_components@.contains(nodes[q]) ==> adj[p]@.contains(
            (q as usize, true),
        )
}

/// The position of `x` in an ascending set that holds it.
fn node_position(nodes: &Vec<usize>, x: usize) -> (p: usize)
    requires
        increasing(nodes@),
        nodes@.contains(x),
    ensures
        p < nodes@.len(),
        nodes@[p as int] == x,
{
    let mut i: usize = 0;
    while i < nodes.len()
        invariant
            i <= nodes.len(),
            nodes@.contains(x),
            forall|j: int| 0 <= j < i ==> nodes@[j] != x,
        decreases nodes.len() - i,
    {
        if nodes[i] == x {
            return i;
        }
        i += 1;
    }
    proof {
        let k = choose|k: int| 0 <= k < nodes@.len() && nodes@[k] == x;
    }
    0
}

/// In an ascending set, a value sits at one position only.
proof fn lemma_increasing_unique(s: Seq<usize>, p: int, q: int)
    requires
        increasing(s),
        0 <= p < s.len(),
        0 <= q < s.len(),
        s[p] == s[q],
    ensures
        p == q,
{
    if p < q {
        assert(s[p] < s[q]);
    } else if q < p {
        assert(s[q] < s[p]);
    }
}

/// Links `left` and `right` (positions in the graph) by an edge in both
/// directions.
pub fn add_component_constraint(
    graph: &mut Vec<Vec<(usize, bool)>>,
    left: usize,
    right: usize,
    opposite: bool,
)
    requires
        left < old(graph)@.len(),
        right < old(graph)@.len(),
    ensures
        final(graph)@.len() == old(graph)@.len(),
        forall|i: int, e: (usize, bool)|
            0 <= i < final(graph)@.len() ==> (#[trigger] final(graph)@[i]@.contains(e) <==> (
            old(graph)@[i]@.contains(e) || (i == left && e == (right, opposite)) || (i == right && e
                == (left, opposite)))),
{
    let ghost before = graph@;
    let mut list: Vec<(usize, bool)> = Vec::new();
    std::mem::swap(&mut list, &mut graph[left]);
    list.push((right, opposite));
    graph.set(left, list);
    let ghost middle = graph@;
    let mut list2: Vec<(usize, bool)> = Vec::new();
    std::mem::swap(&mut list2, &mut graph[right]);
    list2.push((left, opposite));
    graph.set(right, list2);
    proof {
        assert forall|i: int, e: (usize, bool)|
            0 <= i < graph@.len() implies (#[trigger] graph@[i]@.contains(e) <==> (
            before[i]@.contains(e) || (i == left && e == (right, opposite)) || (i == right && e == (
            left,
            opposite,
        )))) by {
            if i == right {
                assert(graph@[i]@ == middle[i]@.push((left, opposite)));
                lemma_push_contains(middle[i]@, (left, opposite), e);
            }
            if i == left {
                assert(middle[i]@ == before[i]@.push((right, opposite)));
                lemma_push_contains(before[i]@, (right, opposite), e);
            }
        }
    }
}

/// What a pushed sequence contains.
pub proof fn lemma_push_contains<A>(s: Seq<A>, x: A, y: A)
    ensures
        s.push(x).contains(y) <==> (s.contains(y) || y == x),
{
    if s.push(x).contains(y) {
        let k = choose|k: int| 0 <= k < s.push(x).len() && s.push(x)[k] == y;
        if k < s.len() {
            assert(s[k] == y);
        }
    }
    if s.contains(y) {
        let k = choose|k: int| 0 <= k < s.len() && s[k] == y;
        assert(s.push(x)[k] == y);
    }
    if y == x {
        assert(s.push(x)[s.len() as int] == y);
    }
}

/// Links every component of one side to the smallest of them.
pub fn add_same_side_constraints(
    graph: &mut Vec<Vec<(usize, bool)>>,
    nodes: &Vec<usize>,
    components: &Vec<usize>,
)
    requires
        increasing(nodes@),
        increasing(components@),
        old(graph)@.len() == nodes@.len(),
        forall|x: usize| components@.contains(x) ==> nodes@.contains(x),
    ensures
        final(graph)@.len() == old(graph)@.len(),
        forall|i: int, e: (usize, bool)|
            0 <= i < final(graph)@.len() ==> (#[trigger] final(graph)@[i]@.contains(e) <==> (
            old(graph)@[i]@.contains(e) || (!e.1 && components@.len() > 0 && e.0 < nodes@.len() && (
            (nodes@[i] == components@[0] && components@.contains(nodes@[e.0 as int]) && nodes@[e.0 as int]
                != components@[0]) || (nodes@[e.0 as int] == components@[0] && components@.contains(
                nodes@[i],
            ) && nodes@[i] != components@[0]))))),
{
    if components.len() == 0 {
        return;
    }
    let first = components[0];
    assert(components@.contains(first));
    let p = node_position(nodes, first);
    let mut k: usize = 1;
    while k < components.len()
        invariant
            increasing(nodes@),
            increasing(components@),
            components@.len() > 0,
            first == components@[0],
            p < nodes@.len(),
            nodes@[p as int] == first,
            1 <= k <= components@.len(),
            graph@.len() == nodes@.len(),
            forall|x: usize| components@.contains(x) ==> nodes@.contains(x),
            forall|i: int, e: (usize, bool)|
                0 <= i < graph@.len() ==> (#[trigger] graph@[i]@.contains(e) <==> (old(
                    graph,
                )@[i]@.contains(e) || (!e.1 && e.0 < nodes@.len() && ((i == p && exists|u: int|
                    1 <= u < k && components@[u] == nodes@[e.0 as int]) || (e.0 == p && exists|
                    u: int,
                |
                    1 <= u < k && components@[u] == nodes@[i]))))),
        decreases components.len() - k,
    {
        let c = components[k];
        assert(components@.contains(c));
        let q = node_position(nodes, c);
        let ghost before = graph@;
        add_component_constraint(graph, p, q, false);
        proof {
            assert forall|i: int, e: (usize, bool)|
                0 <= i < graph@.len() implies (#[trigger] graph@[i]@.contains(e) <==> (old(
                graph,
            )@[i]@.contains(e) || (!e.1 && e.0 < nodes@.len() && ((i == p && exists|u: int|
                1 <= u < k + 1 && components@[u] == nodes@[e.0 as int]) || (e.0 == p && exists|
                u: int,
            |
                1 <= u < k + 1 && components@[u] == nodes@[i]))))) by {
                assert(before[i]@.contains(e) <==> (old(graph)@[i]@.contains(e) || (!e.1 && e.0
                    < nodes@.len() && ((i == p && exists|u: int|
                    1 <= u < k && components@[u] == nodes@[e.0 as int]) || (e.0 == p && exists|
                    u: int,
                |
                    1 <= u < k && components@[u] == nodes@[i])))));
                if e.0 < nodes@.len() {
                    if exists|u: int| 1 <= u < k + 1 && components@[u] == nodes@[e.0 as int] {
                        let u = choose|u: int|
                            1 <= u < k + 1 && components@[u] == nodes@[e.0 as int];
                        if u < k {
                            assert(exists|u: int|
                                1 <= u < k && components@[u] == nodes@[e.0 as int]);
                        } else {
                            lemma_increasing_unique(nodes@, e.0 as int, q as int);
                        }
                    }
                    if exists|u: int| 1 <= u < k && components@[u] == nodes@[e.0 as int] {
                        let u = choose|u: int| 1 <= u < k && components@[u] == nodes@[e.0 as int];
                        assert(exists|u: int| 1 <= u < k + 1 && components@[u] == nodes@[e.0 as int]);
                    }
                }
                if 0 <= i < nodes@.len() {
                    if exists|u: int| 1 <= u < k + 1 && components@[u] == nodes@[i] {
                        let u = choose|u: int| 1 <= u < k + 1 && components@[u] == nodes@[i];
                        if u < k {
                            assert(exists|u: int| 1 <= u < k && components@[u] == nodes@[i]);
                        } else {
                            lemma_increasing_unique(nodes@, i, q as int);
                        }
                    }
                    if exists|u: int| 1 <= u < k && components@[u] == nodes@[i] {
                        let u = choose|u: int| 1 <= u < k && components@[u] == nodes@[i];
                        assert(exists|u: int| 1 <= u < k + 1 && components@[u] == nodes@[i]);
                    }
                }
                if i == p && e == (q, false) {
                    assert(components@[k as int] == nodes@[e.0 as int]);
                }
                if i == q && e == (p, false) {
                    assert(components@[k as int] == nodes@[i]);
                }
            }
        }
        k += 1;
    }
    proof {
        assert forall|i: int, e: (usize, bool)|
            0 <= i < graph@.len() implies (#[trigger] graph@[i]@.contains(e) <==> (old(
            graph,
        )@[i]@.contains(e) || (!e.1 && components@.len() > 0 && e.0 < nodes@.len() && ((nodes@[i]
            == components@[0] && components@.contains(nodes@[e.0 as int]) && nodes@[e.0 as int]
            != components@[0]) || (nodes@[e.0 as int] == components@[0] && components@.contains(
            nodes@[i],
        ) && nodes@[i] != components@[0]))))) by {
            if e.0 < nodes@.len() {
                if components@.contains(nodes@[e.0 as int]) && nodes@[e.0 as int] != components@[0] {
                    let u = choose|u: int|
                        0 <= u < components@.len() && components@[u] == nodes@[e.0 as int];
                    assert(u != 0);
                    assert(exists|u: int|
                        1 <= u < k && components@[u] == nodes@[e.0 as int]);
                }
                if exists|u: int| 1 <= u < k && components@[u] == nodes@[e.0 as int] {
                    let u = choose|u: int| 1 <= u < k && components@[u] == nodes@[e.0 as int];
                    assert(components@[0] < components@[u]);
                    assert(components@.contains(nodes@[e.0 as int]));
                }
                if nodes@[e.0 as int] == components@[0] {
                    lemma_increasing_unique(nodes@, e.0 as int, p as int);
                }
            }
            if 0 <= i < nodes@.len() {
                if components@.contains(nodes@[i]) && nodes@[i] != components@[0] {
                    let u = choose|u: int| 0 <= u < components@.len() && components@[u] == nodes@[i];
                    assert(u != 0);
                    assert(exists|u: int| 1 <= u < k && components@[u] == nodes@[i]);
                }
                if exists|u: int| 1 <= u < k && components@[u] == nodes@[i] {
                    let u = choose|u: int| 1 <= u < k && components@[u] == nodes@[i];
                    assert(components@[0] < components@[u]);
                    assert(components@.contains(nodes@[i]));
                }
                if nodes@[i] == components@[0] {
                    lemma_increasing_unique(nodes@, i, p as int);
                }
            }
        }
    }
}

/// A graph that only gained edges keeps every linking clause it had.
proof fn lemma_side_graph_grows(
    sides: Seq<PathCutSideComponents>,
    nodes: Seq<usize>,
    small: Seq<Vec<(usize, bool)>>,
    big: Seq<Vec<(usize, bool)>>,
    upto: int,
)
    requires
        side_graph_ok(sides, nodes, small, upto),
        big.len() == small.len(),
        forall|i: int, e: (usize, bool)|
            0 <= i < small.len() && #[trigger] small[i]@.contains(e) ==> big[i]@.contains(e),
        forall|i: int, j: usize, o: bool|
            0 <= i < big.len() && #[trigger] big[i]@.contains((j, o)) ==> j < nodes.len()
                && constraint_holds(sides, nodes[i], nodes[j as int], o),
        forall|i: int, j: usize, o: bool|
            0 <= i < big.len() && #[trigger] big[i]@.contains((j, o)) ==> big[j as int]@.contains(
                (i as usize, o),
            ),
    ensures
        side_graph_ok(sides, nodes, big, upto),
{
    assert forall|t: int, p: int, q: int|
        0 <= t < upto && 0 <= p < nodes.len() && 0 <= q < nodes.len() && p != q
            && sides[t].left_components@.len() > 0 && nodes[p] == sides[t].left_components@[0]
            && #[trigger] sides[t].left_components@.contains(nodes[q]) implies #[trigger] big[p]@.contains(
        (q as usize, false),
    ) by {
        assert(small[p]@.contains((q as usize, false)));
    }
    assert forall|t: int, p: int, q: int|
        0 <= t < upto && 0 <= p < nodes.len() && 0 <= q < nodes.len() && p != q
            && sides[t].right_components@.len() > 0 && nodes[p] == sides[t].right_components@[0]
            && #[trigger] sides[t].right_components@.contains(nodes[q]) implies #[trigger] big[p]@.contains(
        (q as usize, false),
    ) by {
        assert(small[p]@.contains((q as usize, false)));
    }
    assert forall|t: int, p: int, q: int|
        0 <= t < upto && 0 <= p < nodes.len() && 0 <= q < nodes.len()
            && #[trigger] sides[t].left_components@.contains(nodes[p])
            && #[trigger] sides[t].right_components@.contains(nodes[q]) implies big[p]@.contains(
        (q as usize, true),
    ) by {
        assert(small[p]@.contains((q as usize, true)));
    }
}

/// Builds the constraint graph of the cut-path sides over the positions of
/// `nodes`.
fn side_constraint_graph(sides: &Vec<PathCutSideComponents>, nodes: &Vec<usize>) -> (graph: Vec<
    Vec<(usize, bool)>,
>)
    requires
        forall|t: int| 0 <= t < sides@.len() ==> (#[trigger] sides@[t]).wf(),
        increasing(nodes@),
        forall|x: usize| nodes@.contains(x) <==> side_member(sides@, x),
    ensures
        side_graph_ok(sides@, nodes@, graph@, sides@.len() as int),
{
    let mut graph: Vec<Vec<(usize, bool)>> = Vec::new();
    let mut i: usize = 0;
    while i < nodes.len()
        invariant
            i <= nodes.len(),
            graph@.len() == i,
            forall|k: int| 0 <= k < i ==> graph@[k]@.len() == 0,
        decreases nodes.len() - i,
    {
        graph.push(Vec::new());
        i += 1;
    }
    let mut t: usize = 0;
    while t < sides.len()
        invariant
            forall|u: int| 0 <= u < sides@.len() ==> (#[trigger] sides@[u]).wf(),
            increasing(nodes@),
            forall|x: usize| nodes@.contains(x) <==> side_member(sides@, x),
            t <= sides@.len(),
            side_graph_ok(sides@, nodes@, graph@, t as int),
        decreases sides.len() - t,
    {
        let side = &sides[t];
        assert(side.wf());
        proof {
            assert forall|x: usize| side.left_components@.contains(x) implies nodes@.contains(x) by {
                assert(side_member(sides@, x));
            }
            assert forall|x: usize| side.right_components@.contains(x) implies nodes@.contains(x) by {
                assert(side_member(sides@, x));
            }
        }
        let ghost g0 = graph@;
        add_same_side_constraints(&mut graph, nodes, &side.left_components);
        proof {
            assert forall|a: int, j: usize, o: bool|
                0 <= a < graph@.len() && #[trigger] graph@[a]@.contains((j, o)) implies j < nodes@.len()
                    && constraint_holds(sides@, nodes@[a], nodes@[j as int], o) by {
                if !g0[a]@.contains((j, o)) {
                    let l = side.left_components@;
                    assert(l.contains(l[0]));
                    if nodes@[a] == l[0] {
                        assert(sides@[t as int].left_components@.contains(nodes@[a]));
                    } else {
                        assert(sides@[t as int].left_components@.contains(nodes@[j as int]));
                    }
                }
            }
            assert forall|a: int, j: usize, o: bool|
                0 <= a < graph@.len() && #[trigger] graph@[a]@.contains((j, o)) implies graph@[j as int]@.contains(
                (a as usize, o),
            ) by {
                assert(j < nodes@.len());
                assert(a < graph.len());
                assert((a as usize) as int == a);
                if g0[a]@.contains((j, o)) {
                    assert(g0[j as int]@.contains((a as usize, o)));
                }
                assert(graph@[j as int]@.contains((a as usize, o)) || !graph@[j as int]@.contains((a as usize, o)));
            }
            lemma_side_graph_grows(sides@, nodes@, g0, graph@, t as int);
        }
        let ghost g1 = graph@;
        add_same_side_constraints(&mut graph, nodes, &side.right_components);
        proof {
            assert forall|a: int, j: usize, o: bool|
                0 <= a < graph@.len() && #[trigger] graph@[a]@.contains((j, o)) implies j < nodes@.len()
                    && constraint_holds(sides@, nodes@[a], nodes@[j as int], o) by {
                if !g1[a]@.contains((j, o)) {
                    let r = side.right_components@;
                    assert(r.contains(r[0]));
                    if nodes@[a] == r[0] {
                        assert(sides@[t as int].right_components@.contains(nodes@[a]));
                    } else {
                        assert(sides@[t as int].right_components@.contains(nodes@[j as int]));
                    }
                }
            }
            assert forall|a: int, j: usize, o: bool|
                0 <= a < graph@.len() && #[trigger] graph@[a]@.contains((j, o)) implies graph@[j as int]@.contains(
                (a as usize, o),
            ) by {
                assert(j < nodes@.len());
                assert(a < graph.len());
                assert((a as usize) as int == a);
                if g1[a]@.contains((j, o)) {
                    assert(g1[j as int]@.contains((a as usize, o)));
                }
                assert(graph@[j as int]@.contains((a as usize, o)) || !graph@[j as int]@.contains((a as usize, o)));
            }
            lemma_side_graph_grows(sides@, nodes@, g1, graph@, t as int);
        }
        let ghost g2 = graph@;
        proof {
            assert forall|q: int, p: int|
                0 <= q < nodes@.len() && 0 <= p < nodes@.len() && p != q
                    && sides@[t as int].left_components@.len() > 0 && nodes@[p]
                    == sides@[t as int].left_components@[0]
                    && sides@[t as int].left_components@.contains(nodes@[q])
                    implies g2[p]@.contains((q as usize, false)) by {
                assert(q < graph.len());
                assert((q as usize) as int == q);
                if nodes@[q] == nodes@[p] {
                    lemma_increasing_unique(nodes@, p, q);
                }
                assert(g1[p]@.contains((q as usize, false)));
            }
            assert forall|q: int, p: int|
                0 <= q < nodes@.len() && 0 <= p < nodes@.len() && p != q
                    && sides@[t as int].right_components@.len() > 0 && nodes@[p]
                    == sides@[t as int].right_components@[0]
                    && sides@[t as int].right_components@.contains(nodes@[q])
                    implies g2[p]@.contains((q as usize, false)) by {
                assert(q < graph.len());
                assert((q as usize) as int == q);
                if nodes@[q] == nodes@[p] {
                    lemma_increasing_unique(nodes@, p, q);
                }
            }
        }
        let left = &side.left_components;
        let right = &side.right_components;
        let mut u: usize = 0;
        while u < left.len()
            invariant
                forall|v: int| 0 <= v < sides@.len() ==> (#[trigger] sides@[v]).wf(),
                increasing(nodes@),
                forall|x: usize| nodes@.contains(x) <==> side_member(sides@, x),
                t < sides@.len(),
                side == &sides@[t as int],
                left == &side.left_components,
                right == &side.right_components,
                forall|x: usize| left@.contains(x) ==> nodes@.contains(x),
                forall|x: usize| right@.contains(x) ==> nodes@.contains(x),
                u <= left@.len(),
                side_graph_ok(sides@, nodes@, graph@, t as int),
                forall|a: int, e: (usize, bool)|
                    0 <= a < g2.len() && #[trigger] g2[a]@.contains(e) ==> graph@[a]@.contains(e),
                forall|p: int, q: int, w: int, z: int|
                    #![trigger nodes@[p], nodes@[q], left@[w], right@[z]]
                    0 <= w < u && 0 <= z < right@.len() && 0 <= p < nodes@.len() && 0 <= q
                        < nodes@.len() && nodes@[p] == left@[w] && nodes@[q] == right@[z] ==> graph@[p]@.contains((q as usize, true)),
                g2.len() == nodes@.len(),
                forall|q: int, p: int|
                    0 <= q < nodes@.len() && 0 <= p < nodes@.len() && p != q
                        && sides@[t as int].left_components@.len() > 0 && nodes@[p]
                        == sides@[t as int].left_components@[0]
                        && sides@[t as int].left_components@.contains(nodes@[q])
                        ==> g2[p]@.contains((q as usize, false)),
                forall|q: int, p: int|
                    0 <= q < nodes@.len() && 0 <= p < nodes@.len() && p != q
                        && sides@[t as int].right_components@.len() > 0 && nodes@[p]
                        == sides@[t as int].right_components@[0]
                        && sides@[t as int].right_components@.contains(nodes@[q])
                        ==> g2[p]@.contains((q as usize, false)),
            decreases left.len() - u,
        {
            let a = left[u];
            assert(left@.contains(a));
            let pa = node_position(nodes, a);
            let mut w: usize = 0;
            while w < right.len()
                invariant
                    forall|v: int| 0 <= v < sides@.len() ==> (#[trigger] sides@[v]).wf(),
                    increasing(nodes@),
                    t < sides@.len(),
                    side == &sides@[t as int],
                    left == &side.left_components,
                    right == &side.right_components,
                    forall|x: usize| right@.contains(x) ==> nodes@.contains(x),
                    u < left@.len(),
                    a == left@[u as int],
                    pa < nodes@.len(),
                    nodes@[pa as int] == a,
                    w <= right@.len(),
                    side_graph_ok(sides@, nodes@, graph@, t as int),
                    forall|b: int, e: (usize, bool)|
                        0 <= b < g2.len() && #[trigger] g2[b]@.contains(e) ==> graph@[b]@.contains(e),
                    forall|p: int, q: int, w2: int, z: int|
                    #![trigger nodes@[p], nodes@[q], left@[w2], right@[z]]
                        0 <= w2 < u && 0 <= z < right@.len() && 0 <= p < nodes@.len() && 0 <= q
                            < nodes@.len() && nodes@[p] == left@[w2] && nodes@[q] == right@[z] ==> graph@[p]@.contains((q as usize, true)),
                    forall|q: int, z: int|
                        #![trigger nodes@[q], right@[z]]
                        0 <= z < w && 0 <= q < nodes@.len() && nodes@[q] == right@[z]
                            ==> graph@[pa as int]@.contains((q as usize, true)),
                    g2.len() == nodes@.len(),
                decreases right.len() - w,
            {
                let b = right[w];
                assert(right@.contains(b));
                let pb = node_position(nodes, b);
                let ghost gb = graph@;
                add_component_constraint(&mut graph, pa, pb, true);
                proof {
                    assert(sides@[t as int].left_components@.contains(a));
                    assert(sides@[t as int].right_components@.contains(b));
                    assert forall|c: int, j: usize, o: bool|
                        0 <= c < graph@.len() && #[trigger] graph@[c]@.contains((j, o)) implies j
                            < nodes@.len() && constraint_holds(sides@, nodes@[c], nodes@[j as int], o) by {
                        if !gb[c]@.contains((j, o)) {
                            if c == pa && j == pb {
                                assert(opposite_sides(sides@, a, b));
                            } else {
                                assert(opposite_sides(sides@, b, a));
                            }
                        }
                    }
                    lemma_side_graph_grows(sides@, nodes@, gb, graph@, t as int);
                    assert forall|q: int, z: int|
                        #![trigger nodes@[q], right@[z]]
                        0 <= z < w + 1 && 0 <= q < nodes@.len() && nodes@[q] == right@[z]
                            implies graph@[pa as int]@.contains((q as usize, true)) by {
                        if z == w {
                            lemma_increasing_unique(nodes@, q, pb as int);
                        } else {
                            assert(gb[pa as int]@.contains((q as usize, true)));
                        }
                    }
                }
                w += 1;
            }
            proof {
                assert forall|p: int, q: int, w2: int, z: int|
                    #![trigger nodes@[p], nodes@[q], left@[w2], right@[z]]
                    0 <= w2 < u + 1 && 0 <= z < right@.len() && 0 <= p < nodes@.len() && 0 <= q
                        < nodes@.len() && nodes@[p] == left@[w2] && nodes@[q] == right@[z] implies graph@[p]@.contains((q as usize, true)) by {
                    if w2 == u {
                        lemma_increasing_unique(nodes@, p, pa as int);
                    }
                }
            }
            u += 1;
        }
        proof {
            assert forall|tt: int, p: int, q: int|
                0 <= tt < t + 1 && 0 <= p < nodes@.len() && 0 <= q < nodes@.len() && p != q
                    && sides@[tt].left_components@.len() > 0 && nodes@[p] == sides@[tt].left_components@[0]
                    && #[trigger] sides@[tt].left_components@.contains(nodes@[q]) implies #[trigger] graph@[p]@.contains(
                (q as usize, false),
            ) by {
                if tt == t {
                    assert(g2[p]@.contains((q as usize, false)));
                }
            }
            assert forall|tt: int, p: int, q: int|
                0 <= tt < t + 1 && 0 <= p < nodes@.len() && 0 <= q < nodes@.len() && p != q
                    && sides@[tt].right_components@.len() > 0 && nodes@[p] == sides@[tt].right_components@[0]
                    && #[trigger] sides@[tt].right_components@.contains(nodes@[q]) implies #[trigger] graph@[p]@.contains(
                (q as usize, false),
            ) by {
                if tt == t {
                    assert(g2[p]@.contains((q as usize, false)));
                }
            }
            assert forall|tt: int, p: int, q: int|
                0 <= tt < t + 1 && 0 <= p < nodes@.len() && 0 <= q < nodes@.len()
                    && #[trigger] sides@[tt].left_components@.contains(nodes@[p])
                    && #[trigger] sides@[tt].right_components@.contains(nodes@[q]) implies graph@[p]@.contains(
                (q as usize, true),
            ) by {
                if tt == t {
                    let w2 = choose|w2: int| 0 <= w2 < left@.len() && left@[w2] == nodes@[p];
                    let z = choose|z: int| 0 <= z < right@.len() && right@[z] == nodes@[q];
                }
            }
        }
        t += 1;
    }
    graph
}

/// Under a valid colouring, an edge's constraint fixes whether its ends differ.
proof fn lemma_constraint_forces(
    sides: Seq<PathCutSideComponents>,
    g: spec_fn(usize) -> bool,
    a: usize,
    b: usize,
    o: bool,
)
    requires
        valid_side_coloring(sides, g),
        constraint_holds(sides, a, b, o),
    ensures
        (g(a) != g(b)) == o,
{
    if o {
        assert(opposite_sides(sides, a, b));
    } else {
        assert(same_side(sides, a, b));
    }
}

/// Every valid colouring agrees with `c` on whether node `i` differs from
/// node `r`.
#[verifier::opaque]
pub open spec fn forced(
    sides: Seq<PathCutSideComponents>,
    nodes: Seq<usize>,
    i: int,
    r: int,
    c: bool,
) -> bool {
    forall|g: spec_fn(usize) -> bool|
        valid_side_coloring(sides, g) ==> ((g(nodes[i]) != g(nodes[r])) == c)
}

/// Every edge of node `i` joins a node coloured as the edge demands.
#[verifier::opaque]
pub open spec fn edges_consistent(
    adj: Seq<Vec<(usize, bool)>>,
    colors: Seq<Option<bool>>,
    i: int,
) -> bool {
    forall|j: usize, o: bool|
        #[trigger] adj[i]@.contains((j, o)) ==> colors[j as int] == Some(colors[i].unwrap() != o)
}

/// The components named by the cut-path sides, in ascending order.
fn side_nodes(path_sides: &Vec<PathCutSideComponents>) -> (nodes: Vec<usize>)
    requires
        forall|t: int| 0 <= t < path_sides@.len() ==> (#[trigger] path_sides@[t]).wf(),
    ensures
        increasing(nodes@),
        forall|x: usize| nodes@.contains(x) <==> side_member(path_sides@, x),
{
    let ghost sides = path_sides@;
    let mut found: Vec<usize> = Vec::new();
    let mut t: usize = 0;
    while t < path_sides.len()
        invariant
            sides == path_sides@,
            t <= sides.len(),
            increasing(found@),
            forall|x: usize|
                found@.contains(x) <==> exists|u: int|
                    0 <= u < t && (sides[u].left_components@.contains(x)
                        || sides[u].right_components@.contains(x)),
        decreases path_sides.len() - t,
    {
        let side = &path_sides[t];
        let ghost n0 = found@;
        extend_sorted(&mut found, &side.left_components);
        extend_sorted(&mut found, &side.right_components);
        proof {
            assert forall|x: usize|
                found@.contains(x) <==> exists|u: int|
                    0 <= u < t + 1 && (sides[u].left_components@.contains(x)
                        || sides[u].right_components@.contains(x)) by {
                assert(found@.contains(x) <==> (n0.contains(x) || side.left_components@.contains(x)
                    || side.right_components@.contains(x)));
                if exists|u: int|
                    0 <= u < t + 1 && (sides[u].left_components@.contains(x)
                        || sides[u].right_components@.contains(x)) {
                    let u = choose|u: int|
                        0 <= u < t + 1 && (sides[u].left_components@.contains(x)
                            || sides[u].right_components@.contains(x));
                    if u < t {
                        assert(exists|u: int|
                            0 <= u < t && (sides[u].left_components@.contains(x)
                                || sides[u].right_components@.contains(x)));
                    }
                }
                if exists|u: int|
                    0 <= u < t && (sides[u].left_components@.contains(x)
                        || sides[u].right_components@.contains(x)) {
                    let u = choose|u: int|
                        0 <= u < t && (sides[u].left_components@.contains(x)
                            || sides[u].right_components@.contains(x));
                    assert(exists|u: int|
                        0 <= u < t + 1 && (sides[u].left_components@.contains(x)
                            || sides[u].right_components@.contains(x)));
                }
            }
        }
        t += 1;
    }
    found
}

/// What holds of a colouring between rounds: each coloured node is forced
/// relative to a smaller root on the left, and its edges are satisfied.
pub open spec fn coloring_ok(
    sides: Seq<PathCutSideComponents>,
    nodes: Seq<usize>,
    graph: Seq<Vec<(usize, bool)>>,
    colors: Seq<Option<bool>>,
    roots: Seq<usize>,
) -> bool {
    &&& colors.len() == nodes.len()
    &&& roots.len() == nodes.len()
    &&& forall|k: int|
        0 <= k < nodes.len() && #[trigger] colors[k] is Some ==> roots[k] <= k && colors[roots[k] as int]
            == Some(false) && forced(sides, nodes, k, roots[k] as int, colors[k].unwrap())
    &&& forall|k: int|
        0 <= k < nodes.len() && #[trigger] colors[k] is Some ==> edges_consistent(graph, colors, k)
}

/// The state of a breadth-first round started at `start`: nodes coloured
/// before the round keep their colours, nodes coloured in it are queued and
/// forced relative to `start`, and the first `done` queued nodes, like all
/// nodes coloured before, have their edges satisfied.
#[verifier::opaque]
pub open spec fn bfs_ok(
    sides: Seq<PathCutSideComponents>,
    nodes: Seq<usize>,
    graph: Seq<Vec<(usize, bool)>>,
    colors0: Seq<Option<bool>>,
    colors: Seq<Option<bool>>,
    roots: Seq<usize>,
    queue: Seq<usize>,
    done: int,
    start: usize,
) -> bool {
    let n = nodes.len() as int;
    &&& colors0.len() == n
    &&& colors.len() == n
    &&& roots.len() == n
    &&& graph.len() == n
    &&& start < n
    &&& colors0[start as int] is None
    &&& forall|k: int| 0 <= k < start ==> #[trigger] colors0[k] is Some
    &&& forall|k: int| 0 <= k < n && #[trigger] colors0[k] is Some ==> edges_consistent(graph, colors0, k)
    &&& colors[start as int] == Some(false)
    &&& 0 <= done <= queue.len()
    &&& queue.len() <= n
    &&& queue.no_duplicates()
    &&& forall|k: int| 0 <= k < n && #[trigger] colors0[k] is Some ==> colors[k] == colors0[k]
    &&& forall|k: int|
        0 <= k < n && #[trigger] colors[k] is Some ==> roots[k] <= k && colors[roots[k] as int] == Some(
            false,
        ) && forced(sides, nodes, k, roots[k] as int, colors[k].unwrap())
    &&& forall|q: int|
        0 <= q < queue.len() ==> #[trigger] queue[q] < n && colors[queue[q] as int] is Some
            && colors0[queue[q] as int] is None && roots[queue[q] as int] == start
    &&& forall|k: int|
        0 <= k < n && colors0[k] is None && #[trigger] colors[k] is Some ==> exists|q: int|
            0 <= q < queue.len() && queue[q] == k
    &&& forall|k: int|
        0 <= k < n && #[trigger] colors[k] is Some && (colors0[k] is Some || exists|q: int|
            0 <= q < done && queue[q] == k) ==> edges_consistent(graph, colors, k)
}

/// Facts read off the round state for a queued node.
proof fn lemma_bfs_queued(
    sides: Seq<PathCutSideComponents>,
    nodes: Seq<usize>,
    graph: Seq<Vec<(usize, bool)>>,
    colors0: Seq<Option<bool>>,
    colors: Seq<Option<bool>>,
    roots: Seq<usize>,
    queue: Seq<usize>,
    done: int,
    start: usize,
    q: int,
)
    requires
        bfs_ok(sides, nodes, graph, colors0, colors, roots, queue, done, start),
        0 <= q < queue.len(),
    ensures
        queue[q] < nodes.len(),
        colors[queue[q] as int] is Some,
        colors0[queue[q] as int] is None,
        roots[queue[q] as int] == start,
        colors.len() == nodes.len(),
        queue.len() <= nodes.len(),
{
    reveal(bfs_ok);
}

/// Sizes read off the round state.
proof fn lemma_bfs_bounds(
    sides: Seq<PathCutSideComponents>,
    nodes: Seq<usize>,
    graph: Seq<Vec<(usize, bool)>>,
    colors0: Seq<Option<bool>>,
    colors: Seq<Option<bool>>,
    roots: Seq<usize>,
    queue: Seq<usize>,
    done: int,
    start: usize,
)
    requires
        bfs_ok(sides, nodes, graph, colors0, colors, roots, queue, done, start),
    ensures
        colors.len() == nodes.len(),
        roots.len() == nodes.len(),
        0 <= done <= queue.len(),
        queue.len() <= nodes.len(),
{
    reveal(bfs_ok);
}

/// The round state at the start of a round.
#[verifier::rlimit(100)]
proof fn lemma_bfs_init(
    sides: Seq<PathCutSideComponents>,
    nodes: Seq<usize>,
    graph: Seq<Vec<(usize, bool)>>,
    colors0: Seq<Option<bool>>,
    roots0: Seq<usize>,
    start: usize,
)
    requires
        coloring_ok(sides, nodes, graph, colors0, roots0),
        side_graph_ok(sides, nodes, graph, sides.len() as int),
        start < nodes.len(),
        colors0[start as int] is None,
        forall|k: int| 0 <= k < start ==> #[trigger] colors0[k] is Some,
    ensures
        bfs_ok(
            sides,
            nodes,
            graph,
            colors0,
            colors0.update(start as int, Some(false)),
            roots0.update(start as int, start),
            seq![start],
            0,
            start,
        ),
{
    let colors = colors0.update(start as int, Some(false));
    let roots = roots0.update(start as int, start);
    assert(forced(sides, nodes, start as int, start as int, false)) by {
        reveal(forced);
    }
    assert forall|k: int|
        0 <= k < nodes.len() && colors0[k] is None && #[trigger] colors[k] is Some implies exists|
        q: int,
    | 0 <= q < seq![start].len() && seq![start][q] == k by {
        assert(seq![start][0] == start);
    }
    assert forall|k: int|
        0 <= k < nodes.len() && #[trigger] colors[k] is Some implies roots[k] <= k && colors[roots[k] as int]
            == Some(false) && forced(sides, nodes, k, roots[k] as int, colors[k].unwrap()) by {
        if k != start {
            assert(colors0[k] is Some);
            assert(colors0[roots0[k] as int] == Some(false));
        }
    }
    assert forall|k: int|
        0 <= k < nodes.len() && #[trigger] colors[k] is Some && (colors0[k] is Some || exists|q: int|
            0 <= q < 0 && seq![start][q] == k) implies edges_consistent(graph, colors, k) by {
        reveal(edges_consistent);
        assert(colors0[k] is Some);
        assert(edges_consistent(graph, colors0, k));
        assert forall|j: usize, o: bool| #[trigger] graph[k]@.contains((j, o)) implies colors[j as int]
            == Some(colors[k].unwrap() != o) by {
            assert(colors0[j as int] == Some(colors0[k].unwrap() != o));
        }
    }
    assert(seq![start].no_duplicates());
    reveal(bfs_ok);
}

/// Colouring a new neighbour `v` of the node `u` being expanded keeps the
/// round state, with `v` queued.
proof fn lemma_bfs_color_new(
    sides: Seq<PathCutSideComponents>,
    nodes: Seq<usize>,
    graph: Seq<Vec<(usize, bool)>>,
    colors0: Seq<Option<bool>>,
    colors: Seq<Option<bool>>,
    roots: Seq<usize>,
    queue: Seq<usize>,
    done: int,
    start: usize,
    u: usize,
    v: usize,
    opp: bool,
)
    requires
        bfs_ok(sides, nodes, graph, colors0, colors, roots, queue, done, start),
        side_graph_ok(sides, nodes, graph, sides.len() as int),
        u < nodes.len(),
        colors[u as int] is Some,
        roots[u as int] == start,
        graph[u as int]@.contains((v, opp)),
        colors[v as int] is None,
        done < queue.len(),
        queue[done] == u,
    ensures
        queue.len() < nodes.len(),
        bfs_ok(
            sides,
            nodes,
            graph,
            colors0,
            colors.update(v as int, Some(colors[u as int].unwrap() != opp)),
            roots.update(v as int, start),
            queue.push(v),
            done,
            start,
        ),
{
    reveal(bfs_ok);
    let n = nodes.len() as int;
    let cu = colors[u as int].unwrap();
    let nc = cu != opp;
    let c2 = colors.update(v as int, Some(nc));
    let r2 = roots.update(v as int, start);
    let q2 = queue.push(v);
    assert(v < n);
    assert(colors0[v as int] is None);
    assert(v >= start) by {
        if v < start {
            assert(colors0[v as int] is Some);
        }
    }
    assert(forced(sides, nodes, u as int, start as int, cu));
    assert(forced(sides, nodes, v as int, start as int, nc)) by {
        reveal(forced);
        assert forall|g: spec_fn(usize) -> bool|
            valid_side_coloring(sides, g) implies ((g(nodes[v as int]) != g(nodes[start as int])) == nc) by {
            lemma_constraint_forces(sides, g, nodes[u as int], nodes[v as int], opp);
        }
    }
    assert forall|q: int| 0 <= q < queue.len() implies #[trigger] queue[q] < n && queue[q] != v by {
        assert(colors[queue[q] as int] is Some);
    }
    lemma_queue_bound(queue, n, v);
    assert(q2.no_duplicates()) by {
        assert forall|a: int, b: int| 0 <= a < b < q2.len() implies q2[a] != q2[b] by {
            if b == queue.len() {
                assert(q2[a] == queue[a]);
            }
        }
    }
    assert forall|k: int|
        0 <= k < n && colors0[k] is None && #[trigger] c2[k] is Some implies exists|q: int|
        0 <= q < q2.len() && q2[q] == k by {
        if k == v {
            assert(q2[queue.len() as int] == k);
        } else {
            assert(colors[k] is Some);
            let q = choose|q: int| 0 <= q < queue.len() && queue[q] == k;
            assert(q2[q] == k);
        }
    }
    assert forall|k: int|
        0 <= k < n && #[trigger] c2[k] is Some && (colors0[k] is Some || exists|q: int|
            0 <= q < done && q2[q] == k) implies edges_consistent(graph, c2, k) by {
        if k != v {
            assert(colors[k] is Some);
            if exists|q: int| 0 <= q < done && q2[q] == k {
                let q = choose|q: int| 0 <= q < done && q2[q] == k;
                assert(queue[q] == k);
            }
            assert(edges_consistent(graph, colors, k));
            reveal(edges_consistent);
            assert forall|j: usize, o: bool| #[trigger] graph[k]@.contains((j, o)) implies c2[j as int]
                == Some(c2[k].unwrap() != o) by {
                assert(colors[j as int] == Some(colors[k].unwrap() != o));
            }
        } else {
            let q = choose|q: int| 0 <= q < done && q2[q] == k;
            assert(queue[q] == k);
        }
    }
    assert forall|q: int| 0 <= q < q2.len() implies #[trigger] q2[q] < n && c2[q2[q] as int] is Some
        && colors0[q2[q] as int] is None && r2[q2[q] as int] == start by {
        if q < queue.len() {
            assert(q2[q] == queue[q]);
        }
    }
}

/// Once every edge of the node at position `done` is satisfied, that node
/// counts as expanded.
proof fn lemma_bfs_expanded(
    sides: Seq<PathCutSideComponents>,
    nodes: Seq<usize>,
    graph: Seq<Vec<(usize, bool)>>,
    colors0: Seq<Option<bool>>,
    colors: Seq<Option<bool>>,
    roots: Seq<usize>,
    queue: Seq<usize>,
    done: int,
    start: usize,
)
    requires
        bfs_ok(sides, nodes, graph, colors0, colors, roots, queue, done, start),
        done < queue.len(),
        edges_consistent(graph, colors, queue[done] as int),
    ensures
        bfs_ok(sides, nodes, graph, colors0, colors, roots, queue, done + 1, start),
{
    reveal(bfs_ok);
    let u = queue[done];
    assert forall|k: int|
        0 <= k < nodes.len() && #[trigger] colors[k] is Some && (colors0[k] is Some || exists|q: int|
            0 <= q < done + 1 && queue[q] == k) implies edges_consistent(graph, colors, k) by {
        if k != u as int && colors0[k] is None {
            let q = choose|q: int| 0 <= q < done + 1 && queue[q] == k;
            assert(q < done);
        }
    }
}

/// A finished round leaves a colouring state with `start` coloured and no
/// earlier colour changed.
proof fn lemma_bfs_finished(
    sides: Seq<PathCutSideComponents>,
    nodes: Seq<usize>,
    graph: Seq<Vec<(usize, bool)>>,
    colors0: Seq<Option<bool>>,
    colors: Seq<Option<bool>>,
    roots: Seq<usize>,
    queue: Seq<usize>,
    start: usize,
)
    requires
        bfs_ok(sides, nodes, graph, colors0, colors, roots, queue, queue.len() as int, start),
    ensures
        coloring_ok(sides, nodes, graph, colors, roots),
        colors[start as int] is Some,
        forall|k: int| 0 <= k < nodes.len() && #[trigger] colors0[k] is Some ==> colors[k] is Some,
{
    reveal(bfs_ok);
    assert forall|k: int|
        0 <= k < nodes.len() && #[trigger] colors[k] is Some implies edges_consistent(graph, colors, k) by {
        if colors0[k] is None {
            let q = choose|q: int| 0 <= q < queue.len() && queue[q] == k;
        }
    }
}

/// Colours, breadth first from `start`, every node linked to it. Returns
/// false when two constraints disagree, which leaves no valid colouring.
fn color_component(
    graph: &Vec<Vec<(usize, bool)>>,
    colors: &mut Vec<Option<bool>>,
    roots: &mut Vec<usize>,
    start: usize,
    Ghost(sides): Ghost<Seq<PathCutSideComponents>>,
    Ghost(nodes): Ghost<Seq<usize>>,
) -> (ok: bool)
    requires
        increasing(nodes),
        side_graph_ok(sides, nodes, graph@, sides.len() as int),
        coloring_ok(sides, nodes, graph@, old(colors)@, old(roots)@),
        start < nodes.len(),
        old(colors)@[start as int] is None,
        forall|k: int| 0 <= k < start ==> #[trigger] old(colors)@[k] is Some,
    ensures
        ok ==> coloring_ok(sides, nodes, graph@, final(colors)@, final(roots)@),
        ok ==> final(colors)@[start as int] is Some,
        ok ==> forall|k: int|
            0 <= k < nodes.len() && #[trigger] old(colors)@[k] is Some ==> final(colors)@[k] is Some,
        !ok ==> forall|g: spec_fn(usize) -> bool| !valid_side_coloring(sides, g),
{
    let n = colors.len();
    let ghost colors0 = colors@;
    proof {
        lemma_bfs_init(sides, nodes, graph@, colors0, roots@, start);
    }
    colors.set(start, Some(false));
    roots.set(start, start);
    let mut queue: Vec<usize> = Vec::new();
    queue.push(start);
    assert(queue@ == seq![start]);
    let mut head: usize = 0;
    while head < queue.len()
        invariant
            side_graph_ok(sides, nodes, graph@, sides.len() as int),
            n == nodes.len(),
            bfs_ok(sides, nodes, graph@, colors0, colors@, roots@, queue@, head as int, start),
        decreases 2 * (n - queue@.len()) + (queue@.len() - head),
    {
        let ghost m0 = 2 * (n - queue@.len()) + (queue@.len() - head);
        proof {
            lemma_bfs_queued(sides, nodes, graph@, colors0, colors@, roots@, queue@, head as int, start, head as int);
            lemma_bfs_bounds(sides, nodes, graph@, colors0, colors@, roots@, queue@, head as int, start);
        }
        let u = queue[head];
        let cu = match colors[u] {
            Some(c) => c,
            None => false,
        };
        let list = &graph[u];
        let mut k: usize = 0;
        while k < list.len()
            invariant
                side_graph_ok(sides, nodes, graph@, sides.len() as int),
                n == nodes.len(),
                head < queue@.len(),
                queue@[head as int] == u,
                u < n,
                list == &graph@[u as int],
                colors@[u as int] == Some(cu),
                k <= list@.len(),
                2 * (n - queue@.len()) + (queue@.len() - head) <= m0,
                bfs_ok(sides, nodes, graph@, colors0, colors@, roots@, queue@, head as int, start),
                forall|t2: int|
                    0 <= t2 < k ==> colors@[list@[t2].0 as int] == Some(cu != list@[t2].1),
            decreases list.len() - k,
        {
            let (v, opp) = list[k];
            assert(list@.contains((v, opp))) by {
                assert(list@[k as int] == (v, opp));
            }
            assert(v < n);
            proof {
                lemma_bfs_queued(sides, nodes, graph@, colors0, colors@, roots@, queue@, head as int, start, head as int);
                lemma_bfs_bounds(sides, nodes, graph@, colors0, colors@, roots@, queue@, head as int, start);
            }
            let nc = cu != opp;
            match colors[v] {
                Some(existing) => {
                    if existing != nc {
                        proof {
                            reveal(bfs_ok);
                            lemma_conflict(sides, nodes, graph@, colors0, colors@, roots@, u, v, opp, start);
                        }
                        return false;
                    }
                },
                None => {
                    let ghost prev = colors@;
                    proof {
                        lemma_bfs_color_new(sides, nodes, graph@, colors0, colors@, roots@, queue@, head as int, start, u, v, opp);
                    }
                    colors.set(v, Some(nc));
                    roots.set(v, start);
                    queue.push(v);
                    proof {
                        assert(colors@ == prev.update(v as int, Some(nc)));
                        assert forall|t2: int| 0 <= t2 < k implies colors@[list@[t2].0 as int] == Some(
                            cu != list@[t2].1,
                        ) by {
                            assert(prev[list@[t2].0 as int] == Some(cu != list@[t2].1));
                            assert(graph@[u as int]@.contains((list@[t2].0, list@[t2].1)));
                            assert(list@[t2].0 != v);
                            assert(colors@[list@[t2].0 as int] == prev[list@[t2].0 as int]);
                        }
                    }
                },
            }
            k += 1;
        }
        proof {
            assert(edges_consistent(graph@, colors@, u as int)) by {
                reveal(edges_consistent);
                assert forall|j: usize, o: bool| #[trigger] graph@[u as int]@.contains((j, o)) implies colors@[j as int]
                    == Some(colors@[u as int].unwrap() != o) by {
                    let t2 = choose|t2: int| 0 <= t2 < list@.len() && list@[t2] == (j, o);
                }
            }
            lemma_bfs_expanded(sides, nodes, graph@, colors0, colors@, roots@, queue@, head as int, start);
            lemma_bfs_bounds(sides, nodes, graph@, colors0, colors@, roots@, queue@, head as int + 1, start);
        }
        head += 1;
    }
    proof {
        lemma_bfs_bounds(sides, nodes, graph@, colors0, colors@, roots@, queue@, head as int, start);
        lemma_bfs_finished(sides, nodes, graph@, colors0, colors@, roots@, queue@, start);
    }
    true
}

/// Two constraints that disagree on a node coloured in this round leave no
/// valid colouring.
proof fn lemma_conflict(
    sides: Seq<PathCutSideComponents>,
    nodes: Seq<usize>,
    graph: Seq<Vec<(usize, bool)>>,
    colors0: Seq<Option<bool>>,
    colors: Seq<Option<bool>>,
    roots: Seq<usize>,
    u: usize,
    v: usize,
    opp: bool,
    start: usize,
)
    requires
        side_graph_ok(sides, nodes, graph, sides.len() as int),
        u < nodes.len(),
        v < nodes.len(),
        graph[u as int]@.contains((v, opp)),
        colors0.len() == nodes.len(),
        colors.len() == nodes.len(),
        roots.len() == nodes.len(),
        colors0[u as int] is None,
        colors[u as int] is Some,
        colors[v as int] is Some,
        colors[v as int].unwrap() != (colors[u as int].unwrap() != opp),
        roots[u as int] == start,
        forall|k: int|
            0 <= k < nodes.len() && #[trigger] colors0[k] is Some ==> edges_consistent(graph, colors0, k),
        forall|k: int|
            0 <= k < nodes.len() && #[trigger] colors0[k] is Some ==> colors[k] == colors0[k],
        forall|k: int|
            0 <= k < nodes.len() && #[trigger] colors[k] is Some ==> forced(
                sides,
                nodes,
                k,
                roots[k] as int,
                colors[k].unwrap(),
            ),
        forall|k: int|
            0 <= k < nodes.len() && colors0[k] is None && #[trigger] colors[k] is Some ==> roots[k]
                == start,
    ensures
        forall|g: spec_fn(usize) -> bool| !valid_side_coloring(sides, g),
{
    assert(colors0[v as int] is None) by {
        if colors0[v as int] is Some {
            assert(graph[v as int]@.contains((u, opp)));
            assert(edges_consistent(graph, colors0, v as int));
            reveal(edges_consistent);
        }
    }
    assert forall|g: spec_fn(usize) -> bool| !valid_side_coloring(sides, g) by {
        if valid_side_coloring(sides, g) {
            lemma_constraint_forces(sides, g, nodes[u as int], nodes[v as int], opp);
            assert(forced(sides, nodes, u as int, start as int, colors[u as int].unwrap()));
            assert(forced(sides, nodes, v as int, start as int, colors[v as int].unwrap()));
            reveal(forced);
        }
    }
}

/// Reads the two sides off a complete colouring: nodes coloured `false` go
/// left, the others right, both in ascending order.
fn split_colors(nodes: &Vec<usize>, colors: &Vec<Option<bool>>) -> (r: CutPathSideComponents)
    requires
        increasing(nodes@),
        colors@.len() == nodes@.len(),
        forall|w: int| 0 <= w < nodes@.len() ==> #[trigger] colors@[w] is Some,
    ensures
        r.wf(),
        forall|x: usize|
            r.left_components@.contains(x) <==> exists|w: int|
                0 <= w < nodes@.len() && nodes@[w] == x && colors@[w] == Some(false),
        forall|x: usize|
            r.right_components@.contains(x) <==> exists|w: int|
                0 <= w < nodes@.len() && nodes@[w] == x && colors@[w] == Some(true),
{
    let n = nodes.len();
    let mut left_components: Vec<usize> = Vec::new();
    let mut right_components: Vec<usize> = Vec::new();
    let mut p: usize = 0;
    while p < n
        invariant
            n == nodes@.len(),
            colors@.len() == n,
            increasing(nodes@),
            p <= n,
            increasing(left_components@),
            increasing(right_components@),
            forall|k: int|
                0 <= k < left_components@.len() ==> exists|w: int|
                    0 <= w < p && nodes@[w] == #[trigger] left_components@[k],
            forall|k: int|
                0 <= k < right_components@.len() ==> exists|w: int|
                    0 <= w < p && nodes@[w] == #[trigger] right_components@[k],
            forall|w: int| 0 <= w < n ==> #[trigger] colors@[w] is Some,
            forall|x: usize|
                left_components@.contains(x) <==> exists|w: int|
                    0 <= w < p && nodes@[w] == x && colors@[w] == Some(false),
            forall|x: usize|
                right_components@.contains(x) <==> exists|w: int|
                    0 <= w < p && nodes@[w] == x && colors@[w] == Some(true),
        decreases n - p,
    {
        let x = nodes[p];
        let ghost l0 = left_components@;
        let ghost r0 = right_components@;
        match colors[p] {
            Some(true) => {
                right_components.push(x);
            },
            _ => {
                left_components.push(x);
            },
        }
        proof {
            assert(colors@[p as int] is Some);
            assert forall|k: int| 0 <= k < left_components@.len() implies exists|w: int|
                0 <= w < p + 1 && nodes@[w] == #[trigger] left_components@[k] by {
                if k < l0.len() {
                    let w = choose|w: int| 0 <= w < p && nodes@[w] == l0[k];
                } else {
                    assert(nodes@[p as int] == left_components@[k]);
                }
            }
            assert forall|k: int| 0 <= k < right_components@.len() implies exists|w: int|
                0 <= w < p + 1 && nodes@[w] == #[trigger] right_components@[k] by {
                if k < r0.len() {
                    let w = choose|w: int| 0 <= w < p && nodes@[w] == r0[k];
                } else {
                    assert(nodes@[p as int] == right_components@[k]);
                }
            }
            assert forall|a: int, b: int|
                0 <= a < b < left_components@.len() implies left_components@[a]
                < left_components@[b] by {
                if b == l0.len() {
                    let w = choose|w: int| 0 <= w < p && nodes@[w] == left_components@[a];
                }
            }
            assert forall|a: int, b: int|
                0 <= a < b < right_components@.len() implies right_components@[a]
                < right_components@[b] by {
                if b == r0.len() {
                    let w = choose|w: int| 0 <= w < p && nodes@[w] == right_components@[a];
                }
            }
            assert forall|y: usize|
                left_components@.contains(y) <==> exists|w: int|
                    0 <= w < p + 1 && nodes@[w] == y && colors@[w] == Some(false) by {
                lemma_push_contains(l0, x, y);
                if exists|w: int| 0 <= w < p + 1 && nodes@[w] == y && colors@[w] == Some(false) {
                    let w = choose|w: int|
                        0 <= w < p + 1 && nodes@[w] == y && colors@[w] == Some(false);
                    if w < p {
                        assert(exists|w: int|
                            0 <= w < p && nodes@[w] == y && colors@[w] == Some(false));
                    }
                }
                if exists|w: int| 0 <= w < p && nodes@[w] == y && colors@[w] == Some(false) {
                    let w = choose|w: int| 0 <= w < p && nodes@[w] == y && colors@[w] == Some(false);
                    assert(exists|w: int|
                        0 <= w < p + 1 && nodes@[w] == y && colors@[w] == Some(false));
                }
            }
            assert forall|y: usize|
                right_components@.contains(y) <==> exists|w: int|
                    0 <= w < p + 1 && nodes@[w] == y && colors@[w] == Some(true) by {
                lemma_push_contains(r0, x, y);
                if exists|w: int| 0 <= w < p + 1 && nodes@[w] == y && colors@[w] == Some(true) {
                    let w = choose|w: int|
                        0 <= w < p + 1 && nodes@[w] == y && colors@[w] == Some(true);
                    if w < p {
                        assert(exists|w: int|
                            0 <= w < p && nodes@[w] == y && colors@[w] == Some(true));
                    }
                }
                if exists|w: int| 0 <= w < p && nodes@[w] == y && colors@[w] == Some(true) {
                    let w = choose|w: int| 0 <= w < p && nodes@[w] == y && colors@[w] == Some(true);
                    assert(exists|w: int|
                        0 <= w < p + 1 && nodes@[w] == y && colors@[w] == Some(true));
                }
            }
        }
        p += 1;
    }
    CutPathSideComponents { left_components, right_components }
}

/// Colours every node, round by round from the smallest uncoloured one.
/// Returns `None` when two constraints disagree, which leaves no valid
/// colouring.
fn color_all(
    graph: &Vec<Vec<(usize, bool)>>,
    nodes: &Vec<usize>,
    Ghost(sides): Ghost<Seq<PathCutSideComponents>>,
) -> (out: Option<(Vec<Option<bool>>, Vec<usize>)>)
    requires
        increasing(nodes@),
        side_graph_ok(sides, nodes@, graph@, sides.len() as int),
    ensures
        out is None ==> forall|g: spec_fn(usize) -> bool| !valid_side_coloring(sides, g),
        out matches Some((colors, roots)) ==> {
            &&& coloring_ok(sides, nodes@, graph@, colors@, roots@)
            &&& forall|k: int| 0 <= k < nodes@.len() ==> #[trigger] colors@[k] is Some
        },
{
    let n = nodes.len();
    let mut colors: Vec<Option<bool>> = Vec::new();
    let mut roots: Vec<usize> = Vec::new();
    let mut i: usize = 0;
    while i < n
        invariant
            n == nodes@.len(),
            i <= n,
            colors@.len() == i,
            roots@.len() == i,
            forall|k: int| 0 <= k < i ==> colors@[k] is None,
        decreases n - i,
    {
        colors.push(None);
        roots.push(i);
        i += 1;
    }
    let mut start: usize = 0;
    while start < n
        invariant
            n == nodes@.len(),
            increasing(nodes@),
            side_graph_ok(sides, nodes@, graph@, sides.len() as int),
            start <= n,
            coloring_ok(sides, nodes@, graph@, colors@, roots@),
            forall|k: int| 0 <= k < start ==> #[trigger] colors@[k] is Some,
        decreases n - start,
    {
        if colors[start].is_none() {
            let ghost c0 = colors@;
            let ok = color_component(graph, &mut colors, &mut roots, start, Ghost(sides), Ghost(nodes@));
            if !ok {
                return None;
            }
            assert forall|k: int| 0 <= k < start + 1 implies #[trigger] colors@[k] is Some by {
                if k < start {
                    assert(c0[k] is Some);
                }
            }
        }
        start += 1;
    }
    Some((colors, roots))
}

/// Sides `r` split the components named by the paths so that components of
/// one side of a path stay together and the two sides of a path stay apart,
/// with on the left the smallest component of each group of linked
/// components: every named component is linked to a no larger one on the
/// left, and lies on the right exactly when every valid split parts the two.
pub open spec fn normalized_sides(sides: Seq<PathCutSideComponents>, r: CutPathSideComponents) -> bool {
    &&& r.wf()
    &&& exists|x: usize| side_member(sides, x)
    &&& forall|x: usize|
        (r.left_components@.contains(x) || r.right_components@.contains(x)) <==> side_member(sides, x)
    &&& forall|x: usize| !(r.left_components@.contains(x) && r.right_components@.contains(x))
    &&& valid_side_coloring(sides, |x: usize| r.right_components@.contains(x))
    &&& forall|x: usize|
        side_member(sides, x) ==> exists|root: usize|
            root <= x && r.left_components@.contains(root) && forall|g: spec_fn(usize) -> bool|
                valid_side_coloring(sides, g) ==> ((g(x) != g(root)) == r.right_components@.contains(x))
}

/// Picks consistent sides for cut paths traced in mixed directions: splits
/// the components named by the paths into two sides so that components of one
/// side of a path stay together and the two sides of a path stay apart,
/// placing on the left the smallest component of each group of linked
/// components. Returns `None` when the paths name no component, or when no
/// such split exists.
#[verifier::rlimit(100)]
pub fn orientation_normalized_path_sides(path_sides: &Vec<PathCutSideComponents>) -> (out: Option<
    CutPathSideComponents,
>)
    requires
        forall|t: int| 0 <= t < path_sides@.len() ==> (#[trigger] path_sides@[t]).wf(),
    ensures
        match out {
            None => (forall|x: usize| !side_member(path_sides@, x)) || (forall|
                g: spec_fn(usize) -> bool,
            | !valid_side_coloring(path_sides@, g)),
            Some(r) => normalized_sides(path_sides@, r),
        },
{
    let ghost sides = path_sides@;
    let nodes = side_nodes(path_sides);
    if nodes.len() == 0 {
        proof {
            assert forall|x: usize| !side_member(sides, x) by {
                assert(!nodes@.contains(x));
            }
        }
        return None;
    }
    let graph = side_constraint_graph(path_sides, &nodes);
    let n = nodes.len();
    let (colors, roots) = match color_all(&graph, &nodes, Ghost(sides)) {
        Some(cr) => cr,
        None => {
            return None;
        },
    };
    let r = split_colors(&nodes, &colors);
    proof {
        lemma_normalized_membership(sides, nodes@, colors@, r);
        lemma_normalized_valid(sides, nodes@, graph@, colors@, r);
        lemma_normalized_canonical(sides, nodes@, colors@, roots@, graph@, r);
    }
    Some(r)
}

/// Distinct positions below `n`, none of them `v < n`, number fewer than `n`.
pub proof fn lemma_queue_bound(queue: Seq<usize>, n: int, v: usize)
    requires
        queue.no_duplicates(),
        v < n,
        forall|q: int| 0 <= q < queue.len() ==> #[trigger] queue[q] < n && queue[q] != v,
    ensures
        queue.len() < n,
{
    let s = queue.push(v);
    assert(s.no_duplicates()) by {
        assert forall|a: int, b: int| 0 <= a < b < s.len() implies s[a] != s[b] by {
            if b < queue.len() {
            } else {
                assert(s[a] == queue[a]);
            }
        }
    }
    let t = s.map_values(|x: usize| x as int);
    assert(t.no_duplicates()) by {
        assert forall|a: int, b: int| 0 <= a < b < t.len() implies t[a] != t[b] by {
            assert(s[a] != s[b]);
        }
    }
    assert(t.to_set().subset_of(vstd::set_lib::set_int_range(0, n))) by {
        assert forall|y: int| t.to_set().contains(y) implies vstd::set_lib::set_int_range(0, n).contains(y) by {
            let k = choose|k: int| 0 <= k < t.len() && t[k] == y;
            if k < queue.len() {
                assert(s[k] == queue[k]);
            }
        }
    }
    vstd::set_lib::lemma_int_range(0, n);
    vstd::set_lib::lemma_len_subset(t.to_set(), vstd::set_lib::set_int_range(0, n));
    t.unique_seq_to_set();
}

/// Membership of a node value in the read-off sides decides its colour.
proof fn lemma_split_member(
    nodes: Seq<usize>,
    colors: Seq<Option<bool>>,
    r: CutPathSideComponents,
    w: int,
)
    requires
        increasing(nodes),
        colors.len() == nodes.len(),
        0 <= w < nodes.len(),
        colors[w] is Some,
        forall|x: usize|
            r.left_components@.contains(x) <==> exists|w2: int|
                0 <= w2 < nodes.len() && nodes[w2] == x && colors[w2] == Some(false),
        forall|x: usize|
            r.right_components@.contains(x) <==> exists|w2: int|
                0 <= w2 < nodes.len() && nodes[w2] == x && colors[w2] == Some(true),
    ensures
        r.right_components@.contains(nodes[w]) <==> colors[w] == Some(true),
        r.left_components@.contains(nodes[w]) <==> colors[w] == Some(false),
{
    if r.right_components@.contains(nodes[w]) {
        let w2 = choose|w2: int|
            0 <= w2 < nodes.len() && nodes[w2] == nodes[w] && colors[w2] == Some(true);
        lemma_increasing_unique(nodes, w, w2);
    }
    if r.left_components@.contains(nodes[w]) {
        let w2 = choose|w2: int|
            0 <= w2 < nodes.len() && nodes[w2] == nodes[w] && colors[w2] == Some(false);
        lemma_increasing_unique(nodes, w, w2);
    }
    if colors[w] == Some(true) {
        assert(exists|w2: int|
            0 <= w2 < nodes.len() && nodes[w2] == nodes[w] && colors[w2] == Some(true));
    }
    if colors[w] == Some(false) {
        assert(exists|w2: int|
            0 <= w2 < nodes.len() && nodes[w2] == nodes[w] && colors[w2] == Some(false));
    }
}

/// The read-off sides hold exactly the named components, each on one side.
proof fn lemma_normalized_membership(
    sides: Seq<PathCutSideComponents>,
    nodes: Seq<usize>,
    colors: Seq<Option<bool>>,
    r: CutPathSideComponents,
)
    requires
        increasing(nodes),
        nodes.len() > 0,
        forall|x: usize| nodes.contains(x) <==> side_member(sides, x),
        colors.len() == nodes.len(),
        forall|k: int| 0 <= k < nodes.len() ==> #[trigger] colors[k] is Some,
        forall|x: usize|
            r.left_components@.contains(x) <==> exists|w: int|
                0 <= w < nodes.len() && nodes[w] == x && colors[w] == Some(false),
        forall|x: usize|
            r.right_components@.contains(x) <==> exists|w: int|
                0 <= w < nodes.len() && nodes[w] == x && colors[w] == Some(true),
    ensures
        exists|x: usize| side_member(sides, x),
        forall|x: usize|
            (r.left_components@.contains(x) || r.right_components@.contains(x)) <==> side_member(
                sides,
                x,
            ),
        forall|x: usize| !(r.left_components@.contains(x) && r.right_components@.contains(x)),
{
    assert(nodes.contains(nodes[0]));
    assert(side_member(sides, nodes[0]));
    assert forall|x: usize|
        (r.left_components@.contains(x) || r.right_components@.contains(x)) <==> side_member(
            sides,
            x,
        ) by {
        if side_member(sides, x) {
            assert(nodes.contains(x));
            let w = choose|w: int| 0 <= w < nodes.len() && nodes[w] == x;
            assert(colors[w] is Some);
            assert(colors[w] == Some(true) || colors[w] == Some(false));
            lemma_split_member(nodes, colors, r, w);
        }
        if r.left_components@.contains(x) {
            let w = choose|w: int| 0 <= w < nodes.len() && nodes[w] == x && colors[w] == Some(false);
            assert(nodes[w] == x);
            assert(nodes.contains(x));
        }
        if r.right_components@.contains(x) {
            let w = choose|w: int| 0 <= w < nodes.len() && nodes[w] == x && colors[w] == Some(true);
            assert(nodes[w] == x);
            assert(nodes.contains(x));
        }
    }
    assert forall|x: usize| !(r.left_components@.contains(x) && r.right_components@.contains(x)) by {
        if r.left_components@.contains(x) && r.right_components@.contains(x) {
            let w = choose|w: int| 0 <= w < nodes.len() && nodes[w] == x && colors[w] == Some(false);
            let w2 = choose|w2: int| 0 <= w2 < nodes.len() && nodes[w2] == x && colors[w2] == Some(true);
            lemma_increasing_unique(nodes, w, w2);
        }
    }
}

/// Taking the right side as `true` gives a valid colouring.
proof fn lemma_normalized_valid(
    sides: Seq<PathCutSideComponents>,
    nodes: Seq<usize>,
    graph: Seq<Vec<(usize, bool)>>,
    colors: Seq<Option<bool>>,
    r: CutPathSideComponents,
)
    requires
        forall|u: int| 0 <= u < sides.len() ==> (#[trigger] sides[u]).wf(),
        increasing(nodes),
        nodes.len() <= usize::MAX,
        forall|x: usize| nodes.contains(x) <==> side_member(sides, x),
        side_graph_ok(sides, nodes, graph, sides.len() as int),
        colors.len() == nodes.len(),
        forall|k: int| 0 <= k < nodes.len() ==> #[trigger] colors[k] is Some,
        forall|k: int|
            0 <= k < nodes.len() && #[trigger] colors[k] is Some ==> edges_consistent(graph, colors, k),
        forall|x: usize|
            r.left_components@.contains(x) <==> exists|w: int|
                0 <= w < nodes.len() && nodes[w] == x && colors[w] == Some(false),
        forall|x: usize|
            r.right_components@.contains(x) <==> exists|w: int|
                0 <= w < nodes.len() && nodes[w] == x && colors[w] == Some(true),
    ensures
        valid_side_coloring(sides, |x: usize| r.right_components@.contains(x)),
{
    reveal(edges_consistent);
    let n = nodes.len() as int;
    let g = |x: usize| r.right_components@.contains(x);
    assert forall|a: usize, b: usize| #[trigger] same_side(sides, a, b) implies g(a) == g(b) by {
        let t = choose|t: int|
            0 <= t < sides.len() && ((sides[t].left_components@.contains(a)
                && sides[t].left_components@.contains(b)) || (sides[t].right_components@.contains(a)
                && sides[t].right_components@.contains(b)));
        assert(sides[t].wf());
        let in_left = sides[t].left_components@.contains(a) && sides[t].left_components@.contains(b);
        let set = if in_left {
            sides[t].left_components@
        } else {
            sides[t].right_components@
        };
        assert(set.contains(set[0]));
        assert(side_member(sides, a));
        assert(side_member(sides, b));
        assert(side_member(sides, set[0]));
        assert(nodes.contains(a) && nodes.contains(b) && nodes.contains(set[0]));
        let pa = choose|w: int| 0 <= w < n && nodes[w] == a;
        let pb = choose|w: int| 0 <= w < n && nodes[w] == b;
        let pm = choose|w: int| 0 <= w < n && nodes[w] == set[0];
        assert(colors[pm] is Some);
        assert(colors[pa] is Some);
        assert(colors[pb] is Some);
        if pa != pm {
            assert((pa as usize) as int == pa);
            assert(graph[pm]@.contains((pa as usize, false)));
            assert(edges_consistent(graph, colors, pm));
        }
        if pb != pm {
            assert((pb as usize) as int == pb);
            assert(graph[pm]@.contains((pb as usize, false)));
            assert(edges_consistent(graph, colors, pm));
        }
        lemma_split_member(nodes, colors, r, pa);
        lemma_split_member(nodes, colors, r, pb);
    }
    assert forall|a: usize, b: usize| #[trigger] opposite_sides(sides, a, b) implies g(a) != g(b) by {
        let t = choose|t: int|
            0 <= t < sides.len() && ((sides[t].left_components@.contains(a)
                && sides[t].right_components@.contains(b)) || (sides[t].right_components@.contains(a)
                && sides[t].left_components@.contains(b)));
        assert(side_member(sides, a));
        assert(side_member(sides, b));
        assert(nodes.contains(a) && nodes.contains(b));
        let pa = choose|w: int| 0 <= w < n && nodes[w] == a;
        let pb = choose|w: int| 0 <= w < n && nodes[w] == b;
        assert(colors[pa] is Some);
        assert(colors[pb] is Some);
        assert((pa as usize) as int == pa);
        assert((pb as usize) as int == pb);
        if sides[t].left_components@.contains(a) && sides[t].right_components@.contains(b) {
            assert(graph[pa]@.contains((pb as usize, true)));
            assert(edges_consistent(graph, colors, pa));
        } else {
            assert(graph[pb]@.contains((pa as usize, true)));
            assert(edges_consistent(graph, colors, pb));
        }
        lemma_split_member(nodes, colors, r, pa);
        lemma_split_member(nodes, colors, r, pb);
    }
}

/// The node at position `w` is forced relative to its root, which is no
/// larger and lies on the left.
proof fn lemma_canonical_node(
    sides: Seq<PathCutSideComponents>,
    nodes: Seq<usize>,
    colors: Seq<Option<bool>>,
    roots: Seq<usize>,
    graph: Seq<Vec<(usize, bool)>>,
    r: CutPathSideComponents,
    w: int,
)
    requires
        increasing(nodes),
        coloring_ok(sides, nodes, graph, colors, roots),
        0 <= w < nodes.len(),
        forall|k: int| 0 <= k < nodes.len() ==> #[trigger] colors[k] is Some,
        forall|x: usize|
            r.left_components@.contains(x) <==> exists|w2: int|
                0 <= w2 < nodes.len() && nodes[w2] == x && colors[w2] == Some(false),
        forall|x: usize|
            r.right_components@.contains(x) <==> exists|w2: int|
                0 <= w2 < nodes.len() && nodes[w2] == x && colors[w2] == Some(true),
    ensures
        nodes[roots[w] as int] <= nodes[w],
        r.left_components@.contains(nodes[roots[w] as int]),
        forall|g: spec_fn(usize) -> bool|
            valid_side_coloring(sides, g) ==> ((g(nodes[w]) != g(nodes[roots[w] as int]))
                == r.right_components@.contains(nodes[w])),
{
    assert(colors[w] is Some);
    let rw = roots[w] as int;
    if rw < w {
        assert(nodes[rw] < nodes[w]);
    }
    assert(colors[rw] == Some(false));
    assert(colors[w] == Some(true) || colors[w] == Some(false));
    lemma_split_member(nodes, colors, r, rw);
    lemma_split_member(nodes, colors, r, w);
    let c = colors[w].unwrap();
    assert(c == r.right_components@.contains(nodes[w]));
    assert(forced(sides, nodes, w, rw, c));
    assert forall|g: spec_fn(usize) -> bool| valid_side_coloring(sides, g) implies ((g(nodes[w]) != g(
        nodes[rw],
    )) == r.right_components@.contains(nodes[w])) by {
        lemma_forced_apply(sides, nodes, w, rw, c, g);
    }
}

/// What `forced` says of one valid colouring.
proof fn lemma_forced_apply(
    sides: Seq<PathCutSideComponents>,
    nodes: Seq<usize>,
    i: int,
    r: int,
    c: bool,
    g: spec_fn(usize) -> bool,
)
    requires
        forced(sides, nodes, i, r, c),
        valid_side_coloring(sides, g),
    ensures
        (g(nodes[i]) != g(nodes[r])) == c,
{
    reveal(forced);
}

/// Every named component is forced relative to a smaller one on the left.
proof fn lemma_normalized_canonical(
    sides: Seq<PathCutSideComponents>,
    nodes: Seq<usize>,
    colors: Seq<Option<bool>>,
    roots: Seq<usize>,
    graph: Seq<Vec<(usize, bool)>>,
    r: CutPathSideComponents,
)
    requires
        increasing(nodes),
        forall|x: usize| nodes.contains(x) <==> side_member(sides, x),
        coloring_ok(sides, nodes, graph, colors, roots),
        forall|k: int| 0 <= k < nodes.len() ==> #[trigger] colors[k] is Some,
        forall|x: usize|
            r.left_components@.contains(x) <==> exists|w: int|
                0 <= w < nodes.len() && nodes[w] == x && colors[w] == Some(false),
        forall|x: usize|
            r.right_components@.contains(x) <==> exists|w: int|
                0 <= w < nodes.len() && nodes[w] == x && colors[w] == Some(true),
    ensures
        forall|x: usize|
            side_member(sides, x) ==> exists|root: usize|
                root <= x && r.left_components@.contains(root) && forall|g: spec_fn(usize) -> bool|
                    valid_side_coloring(sides, g) ==> ((g(x) != g(root))
                        == r.right_components@.contains(x)),
{
    assert forall|x: usize| side_member(sides, x) implies exists|root_value: usize|
        root_value <= x && r.left_components@.contains(root_value) && forall|
            g2: spec_fn(usize) -> bool,
        |
            valid_side_coloring(sides, g2) ==> ((g2(x) != g2(root_value))
                == r.right_components@.contains(x)) by {
        assert(nodes.contains(x));
        let w = choose|w: int| 0 <= w < nodes.len() && nodes[w] == x;
        lemma_canonical_node(sides, nodes, colors, roots, graph, r, w);
        let rv = nodes[roots[w] as int];
        assert(rv <= x && r.left_components@.contains(rv) && forall|g2: spec_fn(usize) -> bool|
            valid_side_coloring(sides, g2) ==> ((g2(x) != g2(rv)) == r.right_components@.contains(x)));
    }
}

} // verus!
