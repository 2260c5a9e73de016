//! Stitch pairs that join the cut edges of two meshes, and the paths they
//! form through shared vertices.
use vstd::prelude::*;

use crate::edge::{increasing, insert_sorted};

verus! {

/// A cut edge of the first mesh stitched to one of the second.
#[derive(Debug, Clone, Copy, PartialEq, Eq)]
pub struct ExactStitchEdgePair {
    pub first_edge_index: usize,
    pub second_edge_index: usize,
    pub first_edge: [usize; 2],
    pub second_edge: [usize; 2],
    pub second_reversed: bool,
}

/// Stitch pairs in path order, and whether the path closes.
#[derive(Debug, Clone, PartialEq, Eq)]
pub struct ExactStitchPath {
    pub pair_indices: Vec<usize>,
    pub closed: bool,
}

/// How the cut edges of two meshes are stitched together.
#[derive(Debug, Clone, PartialEq, Eq)]
pub struct ExactStitchPlan {
    pub pairs: Vec<ExactStitchEdgePair>,
    pub paths: Vec<ExactStitchPath>,
    pub unmatched_first_edges: Vec<usize>,
    pub unmatched_second_edges: Vec<usize>,
    pub compatible: bool,
}

/// The pairs at vertex `v`, among the first `n`: each pair once for each of
/// its first edge's ends that is `v`, in pair order.
pub open spec fn pairs_at(pairs: Seq<ExactStitchEdgePair>, v: usize, n: int) -> Seq<usize>
    decreases n,
{
    if n <= 0 {
        Seq::empty()
    } else {
        let before = pairs_at(pairs, v, n - 1);
        let p = (n - 1) as usize;
        let with_start = if pairs[n - 1].first_edge[0] == v {
            before.push(p)
        } else {
            before
        };
        if pairs[n - 1].first_edge[1] == v {
            with_start.push(p)
        } else {
            with_start
        }
    }
}

/// The pairs listed at a vertex are pairs.
proof fn lemma_pairs_at_range(pairs: Seq<ExactStitchEdgePair>, v: usize, n: int)
    requires
        n <= pairs.len(),
        pairs.len() <= usize::MAX,
    ensures
        forall|t: int| 0 <= t < pairs_at(pairs, v, n).len() ==> #[trigger] pairs_at(pairs, v, n)[t] < n,
    decreases n,
{
    if n > 0 {
        lemma_pairs_at_range(pairs, v, n - 1);
        let before = pairs_at(pairs, v, n - 1);
        assert forall|t: int| 0 <= t < pairs_at(pairs, v, n).len() implies #[trigger] pairs_at(pairs, v, n)[t] < n by {
            if t < before.len() {
                let s1 = if pairs[n - 1].first_edge[0] == v { before.push((n - 1) as usize) } else { before };
                assert(s1[t] == before[t]);
            }
        }
    }
}

/// The pairs at vertex `v`.
pub fn pairs_at_vertex(pairs: &Vec<ExactStitchEdgePair>, v: usize) -> (out: Vec<usize>)
    ensures
        out@ == pairs_at(pairs@, v, pairs@.len() as int),
        forall|t: int| 0 <= t < out@.len() ==> #[trigger] out@[t] < pairs@.len(),
{
    let mut out: Vec<usize> = Vec::new();
    let mut i: usize = 0;
    while i < pairs.len()
        invariant
            i <= pairs@.len(),
            out@ == pairs_at(pairs@, v, i as int),
        decreases pairs@.len() - i,
    {
        if pairs[i].first_edge[0] == v {
            out.push(i);
        }
        if pairs[i].first_edge[1] == v {
            out.push(i);
        }
        i += 1;
    }
    proof {
        lemma_pairs_at_range(pairs@, v, pairs@.len() as int);
    }
    out
}

/// The first pair of `list`, from position `start` on, that is not
/// `previous` and not yet visited.
pub open spec fn first_unvisited(list: Seq<usize>, previous: Option<usize>, visited: Seq<bool>, start: int) -> Option<usize>
    decreases list.len() - start,
{
    if start < 0 || start >= list.len() {
        None
    } else if Some(list[start]) != previous && list[start] < visited.len() && !visited[list[start] as int] {
        Some(list[start])
    } else {
        first_unvisited(list, previous, visited, start + 1)
    }
}

/// The first pair at `vertex` that is not `previous_pair` and not yet visited.
pub fn next_unvisited_stitch_pair(
    vertex: usize,
    previous_pair: Option<usize>,
    pairs: &Vec<ExactStitchEdgePair>,
    visited: &Vec<bool>,
) -> (out: Option<usize>)
    requires
        visited@.len() == pairs@.len(),
    ensures
        out == first_unvisited(pairs_at(pairs@, vertex, pairs@.len() as int), previous_pair, visited@, 0),
        out matches Some(p) ==> p < pairs@.len() && !visited@[p as int],
{
    let list = pairs_at_vertex(pairs, vertex);
    let mut t: usize = 0;
    while t < list.len()
        invariant
            t <= list@.len(),
            list@ == pairs_at(pairs@, vertex, pairs@.len() as int),
            visited@.len() == pairs@.len(),
            forall|u: int| 0 <= u < list@.len() ==> #[trigger] list@[u] < pairs@.len(),
            first_unvisited(list@, previous_pair, visited@, 0) == first_unvisited(list@, previous_pair, visited@, t as int),
        decreases list@.len() - t,
    {
        let p = list[t];
        let is_previous = match previous_pair {
            Some(q) => q == p,
            None => false,
        };
        if !is_previous && !visited[p] {
            return Some(p);
        }
        t += 1;
    }
    None
}

/// How many of the pairs listed at `vertex` are in the component.
pub open spec fn degree_in(list: Seq<usize>, component: Seq<usize>, n: int) -> nat
    decreases n,
{
    if n <= 0 {
        0
    } else {
        degree_in(list, component, n - 1) + if component.contains(list[n - 1]) {
            1nat
        } else {
            0nat
        }
    }
}

/// How many times the pairs of `component_pairs` are listed at `vertex`.
pub fn stitch_pair_degree_in_component(
    vertex: usize,
    pairs: &Vec<ExactStitchEdgePair>,
    component_pairs: &Vec<usize>,
) -> (out: usize)
    ensures
        out == degree_in(
            pairs_at(pairs@, vertex, pairs@.len() as int),
            component_pairs@,
            pairs_at(pairs@, vertex, pairs@.len() as int).len() as int,
        ),
{
    let list = pairs_at_vertex(pairs, vertex);
    let mut count: usize = 0;
    let mut t: usize = 0;
    while t < list.len()
        invariant
            t <= list@.len(),
            list@ == pairs_at(pairs@, vertex, pairs@.len() as int),
            count == degree_in(list@, component_pairs@, t as int),
            count <= t,
        decreases list@.len() - t,
    {
        if crate::edge::contains_index(component_pairs, list[t]) {
            count += 1;
        }
        t += 1;
    }
    count
}

/// The other end of a pair's first edge from `current`.
pub open spec fn other_end(edge: [usize; 2], vertex: usize) -> usize {
    if edge[0] == vertex {
        edge[1]
    } else {
        edge[0]
    }
}

/// The pairs a walk from `vertex` takes: each time the first pair at the
/// current vertex that is not the one just taken and not yet visited, then
/// on to that pair's other end; with the vertex the walk ends at. `fuel`
/// bounds the steps.
pub open spec fn walk_pairs(
    pairs: Seq<ExactStitchEdgePair>,
    visited: Seq<bool>,
    vertex: usize,
    previous: Option<usize>,
    fuel: nat,
) -> (Seq<usize>, usize)
    decreases fuel,
{
    if fuel == 0 {
        (Seq::empty(), vertex)
    } else {
        match first_unvisited(pairs_at(pairs, vertex, pairs.len() as int), previous, visited, 0) {
            None => (Seq::empty(), vertex),
            Some(p) => {
                let rest = walk_pairs(
                    pairs,
                    visited.update(p as int, true),
                    other_end(pairs[p as int].first_edge, vertex),
                    Some(p),
                    (fuel - 1) as nat,
                );
                (seq![p] + rest.0, rest.1)
            },
        }
    }
}

/// `visited` with the pairs of `taken` marked.
pub open spec fn visit_all(visited: Seq<bool>, taken: Seq<usize>) -> Seq<bool> {
    Seq::new(visited.len(), |i: int| visited[i] || taken.contains(i as usize))
}

/// Walks pairs from `start_vertex`, marking them visited: the pairs in walk
/// order, and whether the walk came back to its start. A walk takes each
/// pair at most once, so it takes at most as many steps as there are pairs.
pub fn walk_stitch_pair_path(
    start_vertex: usize,
    pairs: &Vec<ExactStitchEdgePair>,
    visited: &mut Vec<bool>,
) -> (out: (Vec<usize>, bool))
    requires
        old(visited)@.len() == pairs@.len(),
    ensures
        out.0@ == walk_pairs(pairs@, old(visited)@, start_vertex, None, pairs@.len() as nat).0,
        out.1 == (out.0@.len() > 0 && walk_pairs(pairs@, old(visited)@, start_vertex, None, pairs@.len() as nat).1
            == start_vertex),
        final(visited)@ == visit_all(old(visited)@, out.0@),
{
    let n = pairs.len();
    let ghost v0 = visited@;
    let ghost total = walk_pairs(pairs@, visited@, start_vertex, None, n as nat);
    let mut ordered: Vec<usize> = Vec::new();
    let mut current_vertex = start_vertex;
    let mut previous_pair: Option<usize> = None;
    let mut fuel: usize = n;
    assert(visit_all(v0, ordered@) =~= v0);
    while fuel > 0
        invariant_except_break
            total == (ordered@ + walk_pairs(pairs@, visited@, current_vertex, previous_pair, fuel as nat).0,
                walk_pairs(pairs@, visited@, current_vertex, previous_pair, fuel as nat).1),
        invariant
            n == pairs@.len(),
            visited@.len() == n,
            v0.len() == n,
            visited@ == visit_all(v0, ordered@),
        ensures
            total == (ordered@, current_vertex),
        decreases fuel,
    {
        let found = next_unvisited_stitch_pair(current_vertex, previous_pair, pairs, visited);
        let pair_index = match found {
            Some(p) => p,
            None => {
                assert(ordered@ + Seq::<usize>::empty() =~= ordered@);
                break;
            },
        };
        let ghost before_v = visited@;
        let ghost before_o = ordered@;
        let ghost vertex0 = current_vertex;
        visited.set(pair_index, true);
        ordered.push(pair_index);
        previous_pair = Some(pair_index);
        current_vertex = other_stitch_pair_endpoint(pairs[pair_index].first_edge, current_vertex);
        proof {
            let rest = walk_pairs(pairs@, visited@, current_vertex, previous_pair, (fuel - 1) as nat);
            assert(before_v.update(pair_index as int, true) == visited@);
            assert(before_o + (seq![pair_index] + rest.0) =~= ordered@ + rest.0);
            assert(visited@ =~= visit_all(v0, ordered@)) by {
                assert forall|i: int| 0 <= i < visited@.len() implies visited@[i] == visit_all(v0, ordered@)[i] by {
                    assert(i < n);
                    assert((i as usize) as int == i);
                    if i == pair_index as int {
                        assert(ordered@[before_o.len() as int] == pair_index);
                    } else {
                        if ordered@.contains(i as usize) {
                            let t = choose|t: int| 0 <= t < ordered@.len() && ordered@[t] == i as usize;
                            if t == before_o.len() {
                                assert(ordered@[t] == pair_index);
                            }
                            assert(before_o[t] == i as usize);
                        }
                        if before_o.contains(i as usize) {
                            let t = choose|t: int| 0 <= t < before_o.len() && before_o[t] == i as usize;
                            assert(ordered@[t] == i as usize);
                        }
                    }
                }
            }
        }
        fuel -= 1;
    }
    let closed = ordered.len() > 0 && current_vertex == start_vertex;
    (ordered, closed)
}

/// The other end of `edge` from `vertex`; its first end when `vertex` is not its first.
pub fn other_stitch_pair_endpoint(edge: [usize; 2], vertex: usize) -> (out: usize)
    ensures
        out == other_end(edge, vertex),
{
    if edge[0] == vertex {
        edge[1]
    } else {
        edge[0]
    }
}

/// Whether pair `b` is listed at an end of pair `a`'s first edge.
pub open spec fn shares(pairs: Seq<ExactStitchEdgePair>, a: int, b: usize) -> bool {
    pairs_at(pairs, pairs[a].first_edge[0], pairs.len() as int).contains(b) || pairs_at(
        pairs,
        pairs[a].first_edge[1],
        pairs.len() as int,
    ).contains(b)
}

/// A set of pairs that holds every pair sharing an end with one of its pairs.
pub open spec fn closed_set(pairs: Seq<ExactStitchEdgePair>, set: Set<usize>) -> bool {
    forall|a: usize, b: usize| #[trigger] set.contains(a) && a < pairs.len() && #[trigger] shares(pairs, a as int, b) ==> set.contains(b)
}

/// `c` lists, ascending, the pairs reached from `start` through shared ends:
/// it holds `start`, holds every pair sharing an end with one of its pairs,
/// and lies within every set that does both.
pub open spec fn component_ok(pairs: Seq<ExactStitchEdgePair>, start: usize, c: Seq<usize>) -> bool {
    &&& increasing(c)
    &&& c.contains(start)
    &&& forall|t: int| 0 <= t < c.len() ==> #[trigger] c[t] < pairs.len()
    &&& forall|a: usize, b: usize| #[trigger] c.contains(a) && #[trigger] shares(pairs, a as int, b) ==> c.contains(b)
    &&& forall|set: Set<usize>|
        #[trigger] closed_set(pairs, set) && set.contains(start) ==> forall|x: usize| c.contains(x) ==> set.contains(x)
}

/// An ascending list of values below `n` is no longer than `n`.
proof fn lemma_increasing_bound(s: Seq<usize>, n: int)
    requires
        0 <= n,
        increasing(s),
        forall|t: int| 0 <= t < s.len() ==> #[trigger] s[t] < n,
    ensures
        s.len() <= n,
    decreases s.len(),
{
    if s.len() > 0 {
        let prefix = s.drop_last();
        assert forall|t: int| 0 <= t < prefix.len() implies #[trigger] prefix[t] < s.last() by {
            assert(prefix[t] == s[t]);
        }
        assert forall|a: int, b: int| 0 <= a < b < prefix.len() implies prefix[a] < prefix[b] by {
            assert(prefix[a] == s[a] && prefix[b] == s[b]);
        }
        assert(s[s.len() - 1] < n);
        lemma_increasing_bound(prefix, s.last() as int);
    }
}

/// Two ascending lists with the same members are the same list.
pub proof fn lemma_increasing_same_members(a: Seq<usize>, b: Seq<usize>)
    requires
        increasing(a),
        increasing(b),
        forall|x: usize| a.contains(x) <==> b.contains(x),
    ensures
        a == b,
    decreases a.len(),
{
    if a.len() == 0 {
        if b.len() > 0 {
            assert(b.contains(b[0]));
        }
        assert(a =~= b);
    } else {
        assert(a.contains(a[0]));
        assert(b.len() > 0);
        assert(b.contains(b[0]));
        let ia = choose|i: int| 0 <= i < a.len() && a[i] == b[0];
        let ib = choose|i: int| 0 <= i < b.len() && b[i] == a[0];
        if ia > 0 {
            assert(a[0] < a[ia]);
        }
        if ib > 0 {
            assert(b[0] < b[ib]);
        }
        assert(a[0] == b[0]);
        let a1 = a.drop_first();
        let b1 = b.drop_first();
        assert forall|x: usize| a1.contains(x) <==> b1.contains(x) by {
            if a1.contains(x) {
                let i = choose|i: int| 0 <= i < a1.len() && a1[i] == x;
                assert(a[i + 1] == x);
                assert(a[0] < a[i + 1]);
                assert(b.contains(x));
                let j = choose|j: int| 0 <= j < b.len() && b[j] == x;
                assert(j != 0);
                assert(b1[j - 1] == x);
            }
            if b1.contains(x) {
                let i = choose|i: int| 0 <= i < b1.len() && b1[i] == x;
                assert(b[i + 1] == x);
                assert(b[0] < b[i + 1]);
                assert(a.contains(x));
                let j = choose|j: int| 0 <= j < a.len() && a[j] == x;
                assert(j != 0);
                assert(a1[j - 1] == x);
            }
        }
        assert forall|p: int, q: int| 0 <= p < q < a1.len() implies a1[p] < a1[q] by {
            assert(a1[p] == a[p + 1] && a1[q] == a[q + 1]);
        }
        assert forall|p: int, q: int| 0 <= p < q < b1.len() implies b1[p] < b1[q] by {
            assert(b1[p] == b[p + 1] && b1[q] == b[q + 1]);
        }
        lemma_increasing_same_members(a1, b1);
        assert(a =~= b) by {
            assert forall|i: int| 0 <= i < a.len() implies a[i] == b[i] by {
                if i > 0 {
                    assert(a[i] == a1[i - 1]);
                    assert(b[i] == b1[i - 1]);
                }
            }
        }
    }
}

/// The pairs reached from `start_pair` through shared ends, ascending.
pub fn stitch_pair_component(start_pair: usize, pairs: &Vec<ExactStitchEdgePair>) -> (component: Vec<usize>)
    requires
        start_pair < pairs@.len(),
    ensures
        component_ok(pairs@, start_pair, component@),
{
    let n = pairs.len();
    let mut stack: Vec<usize> = Vec::new();
    stack.push(start_pair);
    let mut component: Vec<usize> = Vec::new();
    assert(stack@[0] == start_pair);
    while stack.len() > 0
        invariant
            n == pairs@.len(),
            start_pair < n,
            increasing(component@),
            forall|t: int| 0 <= t < component@.len() ==> #[trigger] component@[t] < n,
            forall|t: int| 0 <= t < stack@.len() ==> #[trigger] stack@[t] < n,
            component@.contains(start_pair) || stack@.contains(start_pair),
            forall|a: usize, b: usize|
                #[trigger] component@.contains(a) && #[trigger] shares(pairs@, a as int, b) ==> component@.contains(b)
                    || stack@.contains(b),
            forall|set: Set<usize>|
                #[trigger] closed_set(pairs@, set) && set.contains(start_pair) ==> (forall|x: usize|
                    component@.contains(x) ==> set.contains(x)) && (forall|x: usize| stack@.contains(x) ==> set.contains(x)),
        decreases n - component@.len(), stack@.len(),
    {
        proof {
            lemma_increasing_bound(component@, n as int);
        }
        let ghost stack0 = stack@;
        let ghost comp0 = component@;
        let p = match stack.pop() {
            Some(p) => p,
            None => 0,
        };
        assert(stack0 == stack@.push(p));
        assert(stack0.contains(p)) by {
            assert(stack0[stack0.len() - 1] == p);
        }
        if crate::edge::contains_index(&component, p) {
            proof {
                assert forall|a: usize, b: usize|
                    #[trigger] component@.contains(a) && #[trigger] shares(pairs@, a as int, b) implies component@.contains(b)
                        || stack@.contains(b) by {
                    if stack0.contains(b) && b != p {
                        let t = choose|t: int| 0 <= t < stack0.len() && stack0[t] == b;
                        assert(stack@[t] == b);
                    }
                }
                if stack0.contains(start_pair) && start_pair != p {
                    let t = choose|t: int| 0 <= t < stack0.len() && stack0[t] == start_pair;
                    assert(stack@[t] == start_pair);
                }
                assert forall|set: Set<usize>|
                    #[trigger] closed_set(pairs@, set) && set.contains(start_pair) implies (forall|x: usize|
                        component@.contains(x) ==> set.contains(x)) && (forall|x: usize| stack@.contains(x) ==> set.contains(x)) by {
                    assert forall|x: usize| stack@.contains(x) implies set.contains(x) by {
                        let t = choose|t: int| 0 <= t < stack@.len() && stack@[t] == x;
                        assert(stack0[t] == x);
                    }
                }
            }
            continue;
        }
        insert_sorted(&mut component, p);
        let edge = pairs[p].first_edge;
        let mut k: usize = 0;
        while k < 2
            invariant
                n == pairs@.len(),
                k <= 2,
                p < n,
                edge == pairs@[p as int].first_edge,
                stack0 == stack@.subrange(0, stack0.len() - 1).push(p),
                stack@.len() >= stack0.len() - 1,
                forall|t: int| 0 <= t < stack@.len() ==> #[trigger] stack@[t] < n,
                forall|t: int| 0 <= t < stack0.len() - 1 ==> #[trigger] stack@[t] == stack0[t],
                forall|t: int|
                    stack0.len() - 1 <= t < stack@.len() ==> exists|j: int|
                        0 <= j < k && pairs_at(pairs@, edge[j], n as int).contains(#[trigger] stack@[t]),
                forall|j: int, b: usize|
                    0 <= j < k && #[trigger] pairs_at(pairs@, edge[j], n as int).contains(b) ==> stack@.contains(b),
            decreases 2 - k,
        {
            let list = pairs_at_vertex(pairs, edge[k]);
            let mut t: usize = 0;
            let ghost s1 = stack@;
            while t < list.len()
                invariant
                    n == pairs@.len(),
                    k < 2,
                    t <= list@.len(),
                    list@ == pairs_at(pairs@, edge[k as int], n as int),
                    forall|u: int| 0 <= u < list@.len() ==> #[trigger] list@[u] < n,
                    stack@ == s1 + list@.subrange(0, t as int),
                decreases list@.len() - t,
            {
                stack.push(list[t]);
                t += 1;
                assert(stack@ =~= s1 + list@.subrange(0, t as int));
            }
            proof {
                assert(list@.subrange(0, list@.len() as int) =~= list@);
                assert forall|j: int, b: usize|
                    0 <= j < k + 1 && #[trigger] pairs_at(pairs@, edge[j], n as int).contains(b) implies stack@.contains(b) by {
                    if j < k {
                        let t2 = choose|t2: int| 0 <= t2 < s1.len() && s1[t2] == b;
                        assert(stack@[t2] == b);
                    } else {
                        let t2 = choose|t2: int| 0 <= t2 < list@.len() && list@[t2] == b;
                        assert(stack@[s1.len() + t2] == b);
                    }
                }
                assert forall|u: int|
                    stack0.len() - 1 <= u < stack@.len() implies exists|j: int|
                        0 <= j < k + 1 && pairs_at(pairs@, edge[j], n as int).contains(#[trigger] stack@[u]) by {
                    if u < s1.len() {
                        assert(stack@[u] == s1[u]);
                    } else {
                        assert(stack@[u] == list@[u - s1.len()]);
                        assert(pairs_at(pairs@, edge[k as int], n as int).contains(stack@[u]));
                    }
                }
                assert forall|u: int| 0 <= u < stack0.len() - 1 implies #[trigger] stack@[u] == stack0[u] by {
                    assert(stack@[u] == s1[u]);
                }
                assert forall|u: int| 0 <= u < stack@.len() implies #[trigger] stack@[u] < n by {
                    if u >= s1.len() {
                        assert(stack@[u] == list@[u - s1.len()]);
                    }
                }
                assert(stack@.subrange(0, stack0.len() - 1) =~= s1.subrange(0, stack0.len() - 1));
            }
            k += 1;
        }
        proof {
            assert(component@.to_set() == comp0.to_set().insert(p));
            assert forall|x: usize| component@.contains(x) <==> (comp0.contains(x) || x == p) by {
                assert(component@.contains(x) <==> component@.to_set().contains(x));
                assert(comp0.contains(x) <==> comp0.to_set().contains(x));
            }
            assert forall|a: usize, b: usize|
                #[trigger] component@.contains(a) && #[trigger] shares(pairs@, a as int, b) implies component@.contains(b)
                    || stack@.contains(b) by {
                if a == p {
                    if pairs_at(pairs@, edge[0], n as int).contains(b) {
                        assert(stack@.contains(b));
                    } else {
                        assert(pairs_at(pairs@, edge[1], n as int).contains(b));
                    }
                } else {
                    assert(comp0.contains(a));
                    if !comp0.contains(b) {
                        assert(stack0.contains(b));
                        if b != p {
                            let t = choose|t: int| 0 <= t < stack0.len() && stack0[t] == b;
                            assert(t < stack0.len() - 1);
                            assert(stack@[t] == b);
                        }
                    }
                }
            }
            if !component@.contains(start_pair) {
                let t = choose|t: int| 0 <= t < stack0.len() && stack0[t] == start_pair;
                assert(t < stack0.len() - 1);
                assert(stack@[t] == start_pair);
            }
            assert forall|t: int| 0 <= t < component@.len() implies #[trigger] component@[t] < n by {
                assert(component@.contains(component@[t]));
                if component@[t] != p {
                    assert(comp0.contains(component@[t]));
                }
            }
            lemma_increasing_bound(component@, n as int);
            assert forall|set: Set<usize>|
                #[trigger] closed_set(pairs@, set) && set.contains(start_pair) implies (forall|x: usize|
                    component@.contains(x) ==> set.contains(x)) && (forall|x: usize| stack@.contains(x) ==> set.contains(x)) by {
                assert(set.contains(p));
                assert forall|x: usize| stack@.contains(x) implies set.contains(x) by {
                    let t = choose|t: int| 0 <= t < stack@.len() && stack@[t] == x;
                    if t < stack0.len() - 1 {
                        assert(stack0[t] == x);
                    } else {
                        let j = choose|j: int| 0 <= j < 2 && pairs_at(pairs@, edge[j], n as int).contains(#[trigger] stack@[t]);
                        assert(shares(pairs@, p as int, x));
                    }
                }
            }
        }
    }
    proof {
        assert forall|a: usize, b: usize| #[trigger] component@.contains(a) && #[trigger] shares(pairs@, a as int, b) implies component@.contains(b) by {
            if stack@.contains(b) {
                assert(stack@.len() == 0);
            }
        }
    }
    component
}

/// Whether `v` is an end of the first edge of a pair of `component`.
pub open spec fn component_end(pairs: Seq<ExactStitchEdgePair>, component: Seq<usize>, v: usize) -> bool {
    exists|t: int|
        0 <= t < component.len() && (pairs[component[t] as int].first_edge[0] == v
            || pairs[component[t] as int].first_edge[1] == v)
}

/// How many times the pairs of `component` are listed at `v`.
pub open spec fn component_degree(pairs: Seq<ExactStitchEdgePair>, component: Seq<usize>, v: usize) -> nat {
    degree_in(
        pairs_at(pairs, v, pairs.len() as int),
        component,
        pairs_at(pairs, v, pairs.len() as int).len() as int,
    )
}

/// Where a walk over a component starts: its smallest end listed once in
/// the component, or else the first end of its first pair.
pub open spec fn spec_start_vertex(pairs: Seq<ExactStitchEdgePair>, component: Seq<usize>) -> usize {
    if exists|v: usize| component_end(pairs, component, v) && component_degree(pairs, component, v) == 1 {
        choose|v: usize|
            component_end(pairs, component, v) && component_degree(pairs, component, v) == 1 && forall|w: usize|
                component_end(pairs, component, w) && component_degree(pairs, component, w) == 1 ==> v <= w
    } else {
        pairs[component[0] as int].first_edge[0]
    }
}

/// Where a walk over a component starts: its smallest end listed once in
/// the component, or else the first end of its first pair.
pub fn stitch_pair_component_start_vertex(component: &Vec<usize>, pairs: &Vec<ExactStitchEdgePair>) -> (out: usize)
    requires
        component@.len() > 0,
        forall|t: int| 0 <= t < component@.len() ==> #[trigger] component@[t] < pairs@.len(),
    ensures
        out == spec_start_vertex(pairs@, component@),
{
    let mut vertices: Vec<usize> = Vec::new();
    let mut t: usize = 0;
    while t < component.len()
        invariant
            t <= component@.len(),
            forall|u: int| 0 <= u < component@.len() ==> #[trigger] component@[u] < pairs@.len(),
            increasing(vertices@),
            forall|v: usize|
                vertices@.contains(v) <==> exists|u: int|
                    0 <= u < t && (pairs@[component@[u] as int].first_edge[0] == v
                        || pairs@[component@[u] as int].first_edge[1] == v),
        decreases component@.len() - t,
    {
        let edge = pairs[component[t]].first_edge;
        let ghost before = vertices@;
        insert_sorted(&mut vertices, edge[0]);
        let ghost middle = vertices@;
        insert_sorted(&mut vertices, edge[1]);
        proof {
            assert forall|v: usize|
                vertices@.contains(v) <==> exists|u: int|
                    0 <= u < t + 1 && (pairs@[component@[u] as int].first_edge[0] == v
                        || pairs@[component@[u] as int].first_edge[1] == v) by {
                assert(vertices@.contains(v) <==> vertices@.to_set().contains(v));
                assert(middle.contains(v) <==> middle.to_set().contains(v));
                assert(before.contains(v) <==> before.to_set().contains(v));
                if exists|u: int|
                    0 <= u < t + 1 && (pairs@[component@[u] as int].first_edge[0] == v
                        || pairs@[component@[u] as int].first_edge[1] == v) {
                    let u = choose|u: int|
                        0 <= u < t + 1 && (pairs@[component@[u] as int].first_edge[0] == v
                            || pairs@[component@[u] as int].first_edge[1] == v);
                    if u < t {
                        assert(exists|u: int|
                            0 <= u < t && (pairs@[component@[u] as int].first_edge[0] == v
                                || pairs@[component@[u] as int].first_edge[1] == v));
                    }
                }
            }
        }
        t += 1;
    }
    let mut k: usize = 0;
    while k < vertices.len()
        invariant
            k <= vertices@.len(),
            increasing(vertices@),
            forall|v: usize| vertices@.contains(v) <==> component_end(pairs@, component@, v),
            forall|j: int| 0 <= j < k ==> component_degree(pairs@, component@, #[trigger] vertices@[j]) != 1,
        decreases vertices@.len() - k,
    {
        let v = vertices[k];
        if stitch_pair_degree_in_component(v, pairs, component) == 1 {
            proof {
                assert(vertices@.contains(v));
                assert forall|w: usize|
                    component_end(pairs@, component@, w) && component_degree(pairs@, component@, w) == 1 implies v <= w by {
                    assert(vertices@.contains(w));
                    let j = choose|j: int| 0 <= j < vertices@.len() && vertices@[j] == w;
                    if j < k {
                        assert(component_degree(pairs@, component@, vertices@[j]) != 1);
                    } else if j > k {
                        assert(vertices@[k as int] < vertices@[j]);
                    }
                }
                let c = choose|c: usize|
                    component_end(pairs@, component@, c) && component_degree(pairs@, component@, c) == 1 && forall|w: usize|
                        component_end(pairs@, component@, w) && component_degree(pairs@, component@, w) == 1 ==> c <= w;
                assert(c <= v && v <= c);
            }
            return v;
        }
        k += 1;
    }
    proof {
        assert forall|v: usize| !(component_end(pairs@, component@, v) && component_degree(pairs@, component@, v) == 1) by {
            if component_end(pairs@, component@, v) {
                assert(vertices@.contains(v));
                let j = choose|j: int| 0 <= j < vertices@.len() && vertices@[j] == v;
                assert(component_degree(pairs@, component@, vertices@[j]) != 1);
            }
        }
    }
    pairs[component[0]].first_edge[0]
}

/// The component of pairs reached from `start` through shared ends.
pub open spec fn spec_component(pairs: Seq<ExactStitchEdgePair>, start: usize) -> Seq<usize> {
    choose|c: Seq<usize>| component_ok(pairs, start, c)
}

/// The component found is the one `spec_component` names.
proof fn lemma_component_unique(pairs: Seq<ExactStitchEdgePair>, start: usize, c: Seq<usize>)
    requires
        component_ok(pairs, start, c),
    ensures
        spec_component(pairs, start) == c,
{
    let d = spec_component(pairs, start);
    assert(component_ok(pairs, start, d));
    assert(closed_set(pairs, c.to_set())) by {
        assert forall|a: usize, b: usize| #[trigger] c.to_set().contains(a) && a < pairs.len() && #[trigger] shares(pairs, a as int, b) implies c.to_set().contains(b) by {
            assert(c.contains(a));
        }
    }
    assert(closed_set(pairs, d.to_set())) by {
        assert forall|a: usize, b: usize| #[trigger] d.to_set().contains(a) && a < pairs.len() && #[trigger] shares(pairs, a as int, b) implies d.to_set().contains(b) by {
            assert(d.contains(a));
        }
    }
    assert(c.to_set().contains(start));
    assert(d.to_set().contains(start));
    assert forall|x: usize| c.contains(x) <==> d.contains(x) by {
        if c.contains(x) {
            assert(d.to_set().contains(x));
        }
        if d.contains(x) {
            assert(c.to_set().contains(x));
        }
    }
    lemma_increasing_same_members(c, d);
}

/// The stitch paths found from the first `s` pairs, with the pairs visited
/// so far: each pair not yet visited starts a walk over its component from
/// the component's start vertex; walks that take no pair are dropped.
pub open spec fn grouped_upto(pairs: Seq<ExactStitchEdgePair>, s: nat) -> (Seq<(Seq<usize>, bool)>, Seq<bool>)
    decreases s,
{
    if s == 0 {
        (Seq::empty(), Seq::new(pairs.len(), |i: int| false))
    } else {
        let prev = grouped_upto(pairs, (s - 1) as nat);
        let i = (s - 1) as usize;
        if i >= pairs.len() || i >= prev.1.len() || prev.1[i as int] {
            prev
        } else {
            let start = spec_start_vertex(pairs, spec_component(pairs, i));
            let walk = walk_pairs(pairs, prev.1, start, None, pairs.len() as nat);
            let path = (walk.0, walk.0.len() > 0 && walk.1 == start);
            (if walk.0.len() > 0 {
                prev.0.push(path)
            } else {
                prev.0
            }, visit_all(prev.1, walk.0))
        }
    }
}

/// The visited marks keep their length.
proof fn lemma_grouped_len(pairs: Seq<ExactStitchEdgePair>, s: nat)
    ensures
        grouped_upto(pairs, s).1.len() == pairs.len(),
    decreases s,
{
    if s > 0 {
        lemma_grouped_len(pairs, (s - 1) as nat);
    }
}

/// The stitch pairs grouped into paths through shared vertices of their
/// first edges, each path walked from an end of its component.
pub fn edge_grouped_stitch_pair_paths(pairs: &Vec<ExactStitchEdgePair>) -> (out: Vec<(Vec<usize>, bool)>)
    ensures
        out@.len() == grouped_upto(pairs@, pairs@.len() as nat).0.len(),
        forall|p: int|
            0 <= p < out@.len() ==> (#[trigger] out@[p]).0@ == grouped_upto(pairs@, pairs@.len() as nat).0[p].0
                && out@[p].1 == grouped_upto(pairs@, pairs@.len() as nat).0[p].1,
{
    let n = pairs.len();
    let mut visited: Vec<bool> = Vec::new();
    let mut k: usize = 0;
    while k < n
        invariant
            k <= n,
            visited@.len() == k,
            forall|i: int| 0 <= i < k ==> !(#[trigger] visited@[i]),
        decreases n - k,
    {
        visited.push(false);
        k += 1;
    }
    assert(visited@ =~= grouped_upto(pairs@, 0).1);
    let mut paths: Vec<(Vec<usize>, bool)> = Vec::new();
    let mut pair_index: usize = 0;
    while pair_index < n
        invariant
            n == pairs@.len(),
            pair_index <= n,
            visited@ == grouped_upto(pairs@, pair_index as nat).1,
            paths@.len() == grouped_upto(pairs@, pair_index as nat).0.len(),
            forall|p: int|
                0 <= p < paths@.len() ==> (#[trigger] paths@[p]).0@ == grouped_upto(pairs@, pair_index as nat).0[p].0
                    && paths@[p].1 == grouped_upto(pairs@, pair_index as nat).0[p].1,
        decreases n - pair_index,
    {
        proof {
            lemma_grouped_len(pairs@, pair_index as nat);
        }
        let ghost prev = grouped_upto(pairs@, pair_index as nat);
        if !visited[pair_index] {
            let component = stitch_pair_component(pair_index, pairs);
            proof {
                lemma_component_unique(pairs@, pair_index, component@);
                assert(component@.contains(pair_index));
            }
            let start_vertex = stitch_pair_component_start_vertex(&component, pairs);
            let (ordered, closed) = walk_stitch_pair_path(start_vertex, pairs, &mut visited);
            if ordered.len() > 0 {
                paths.push((ordered, closed));
            }
            proof {
                let next = grouped_upto(pairs@, pair_index as nat + 1);
                assert forall|p: int|
                    0 <= p < paths@.len() implies (#[trigger] paths@[p]).0@ == next.0[p].0 && paths@[p].1 == next.0[p].1 by {
                    if p < prev.0.len() {
                        assert(next.0[p] == prev.0[p]);
                    }
                }
            }
        }
        pair_index += 1;
    }
    paths
}

/// How many marks are set.
pub open spec fn count_marked(marks: Seq<bool>) -> nat
    decreases marks.len(),
{
    if marks.len() == 0 {
        0
    } else {
        count_marked(marks.drop_last()) + if marks.last() { 1nat } else { 0nat }
    }
}

proof fn lemma_count_marked_bound(marks: Seq<bool>)
    ensures
        count_marked(marks) <= marks.len(),
    decreases marks.len(),
{
    if marks.len() > 0 {
        lemma_count_marked_bound(marks.drop_last());
    }
}

proof fn lemma_count_mark_one(marks: Seq<bool>, i: int)
    requires
        0 <= i < marks.len(),
        !marks[i],
    ensures
        count_marked(marks.update(i, true)) == count_marked(marks) + 1,
    decreases marks.len(),
{
    let updated = marks.update(i, true);
    if i == marks.len() - 1 {
        assert(updated.drop_last() =~= marks.drop_last());
    } else {
        assert(updated.drop_last() =~= marks.drop_last().update(i, true));
        lemma_count_mark_one(marks.drop_last(), i);
    }
}

proof fn lemma_first_unvisited_fresh(list: Seq<usize>, previous: Option<usize>, visited: Seq<bool>, start: int)
    ensures
        first_unvisited(list, previous, visited, start) matches Some(p) ==> p < visited.len() && !visited[p as int],
    decreases list.len() - start,
{
    if 0 <= start < list.len() {
        lemma_first_unvisited_fresh(list, previous, visited, start + 1);
    }
}

/// A walk takes pairs that were not visited, each once.
proof fn lemma_walk_fresh(pairs: Seq<ExactStitchEdgePair>, visited: Seq<bool>, vertex: usize, previous: Option<usize>, fuel: nat)
    ensures
        walk_pairs(pairs, visited, vertex, previous, fuel).0.no_duplicates(),
        forall|t: int|
            0 <= t < walk_pairs(pairs, visited, vertex, previous, fuel).0.len() ==> #[trigger] walk_pairs(
                pairs,
                visited,
                vertex,
                previous,
                fuel,
            ).0[t] < visited.len() && !visited[walk_pairs(pairs, visited, vertex, previous, fuel).0[t] as int],
    decreases fuel,
{
    if fuel > 0 {
        let list = pairs_at(pairs, vertex, pairs.len() as int);
        lemma_first_unvisited_fresh(list, previous, visited, 0);
        match first_unvisited(list, previous, visited, 0) {
            None => {},
            Some(p) => {
                let marked = visited.update(p as int, true);
                let next = other_end(pairs[p as int].first_edge, vertex);
                lemma_walk_fresh(pairs, marked, next, Some(p), (fuel - 1) as nat);
                let rest = walk_pairs(pairs, marked, next, Some(p), (fuel - 1) as nat).0;
                let w = seq![p] + rest;
                assert(walk_pairs(pairs, visited, vertex, previous, fuel).0 == w);
                assert forall|t: int| 0 <= t < rest.len() implies rest[t] != p && !visited[rest[t] as int] by {
                    assert(!marked[rest[t] as int]);
                }
                assert forall|a: int, b: int| 0 <= a < w.len() && 0 <= b < w.len() && a != b implies w[a] != w[b] by {
                    if a > 0 && b > 0 {
                        assert(w[a] == rest[a - 1]);
                        assert(w[b] == rest[b - 1]);
                    } else if a == 0 {
                        assert(w[b] == rest[b - 1]);
                    } else {
                        assert(w[a] == rest[a - 1]);
                    }
                }
                assert forall|t: int| 0 <= t < w.len() implies #[trigger] w[t] < visited.len() && !visited[w[t] as int] by {
                    if t > 0 {
                        assert(w[t] == rest[t - 1]);
                    }
                }
            },
        }
    }
}

/// Marking fresh pairs, each once, sets one mark per pair.
proof fn lemma_visit_all_count(marks: Seq<bool>, taken: Seq<usize>)
    requires
        marks.len() <= usize::MAX,
        taken.no_duplicates(),
        forall|t: int| 0 <= t < taken.len() ==> #[trigger] taken[t] < marks.len() && !marks[taken[t] as int],
    ensures
        count_marked(visit_all(marks, taken)) == count_marked(marks) + taken.len(),
    decreases taken.len(),
{
    if taken.len() == 0 {
        assert(visit_all(marks, taken) =~= marks);
    } else {
        let front = taken.drop_last();
        let last = taken.last();
        assert forall|t: int| 0 <= t < front.len() implies #[trigger] front[t] < marks.len() && !marks[front[t] as int] by {
            assert(front[t] == taken[t]);
        }
        lemma_visit_all_count(marks, front);
        assert(taken[taken.len() - 1] == last);
        assert(!front.contains(last)) by {
            if front.contains(last) {
                let t = choose|t: int| 0 <= t < front.len() && front[t] == last;
                assert(taken[t] == taken[taken.len() - 1]);
            }
        }
        let before = visit_all(marks, front);
        assert(!before[last as int]);
        assert(visit_all(marks, taken) =~= before.update(last as int, true)) by {
            assert forall|i: int| 0 <= i < marks.len() implies visit_all(marks, taken)[i] == before.update(last as int, true)[i] by {
                assert((i as usize) as int == i);
                if taken.contains(i as usize) && i != last as int {
                    let t = choose|t: int| 0 <= t < taken.len() && taken[t] == i as usize;
                    assert(t != taken.len() - 1);
                    assert(front[t] == i as usize);
                }
                if front.contains(i as usize) {
                    let t = choose|t: int| 0 <= t < front.len() && front[t] == i as usize;
                    assert(taken[t] == i as usize);
                }
                if i == last as int {
                    assert(taken[taken.len() - 1] == i as usize);
                }
            }
        }
        lemma_count_mark_one(before, last as int);
    }
}

/// The number of pairs on the first `k` paths together.
pub open spec fn path_total(paths: Seq<(Seq<usize>, bool)>, k: int) -> nat
    decreases k,
{
    if k <= 0 {
        0
    } else {
        path_total(paths, k - 1) + paths[k - 1].0.len()
    }
}

proof fn lemma_path_total_agree(a: Seq<(Seq<usize>, bool)>, b: Seq<(Seq<usize>, bool)>, k: int)
    requires
        k <= a.len(),
        k <= b.len(),
        forall|i: int| 0 <= i < k ==> a[i] == b[i],
    ensures
        path_total(a, k) == path_total(b, k),
    decreases k,
{
    if k > 0 {
        lemma_path_total_agree(a, b, k - 1);
    }
}

/// The paths found from the first `s` pairs hold as many pairs together as
/// were visited.
proof fn lemma_grouped_total(pairs: Seq<ExactStitchEdgePair>, s: nat)
    requires
        pairs.len() <= usize::MAX,
    ensures
        path_total(grouped_upto(pairs, s).0, grouped_upto(pairs, s).0.len() as int) == count_marked(grouped_upto(pairs, s).1),
    decreases s,
{
    if s == 0 {
        assert(count_marked(Seq::new(pairs.len(), |i: int| false)) == 0) by {
            lemma_count_none(pairs.len());
        }
    } else {
        lemma_grouped_total(pairs, (s - 1) as nat);
        lemma_grouped_len(pairs, (s - 1) as nat);
        let prev = grouped_upto(pairs, (s - 1) as nat);
        let i = (s - 1) as usize;
        if !(i >= pairs.len() || i >= prev.1.len() || prev.1[i as int]) {
            let start = spec_start_vertex(pairs, spec_component(pairs, i));
            let walk = walk_pairs(pairs, prev.1, start, None, pairs.len() as nat);
            lemma_walk_fresh(pairs, prev.1, start, None, pairs.len() as nat);
            lemma_visit_all_count(prev.1, walk.0);
            if walk.0.len() > 0 {
                let path = (walk.0, walk.0.len() > 0 && walk.1 == start);
                let next = prev.0.push(path);
                lemma_path_total_agree(next, prev.0, prev.0.len() as int);
                assert(path_total(next, next.len() as int) == path_total(next, prev.0.len() as int) + walk.0.len());
            }
        }
    }
}

proof fn lemma_count_none(n: nat)
    ensures
        count_marked(Seq::new(n, |i: int| false)) == 0,
    decreases n,
{
    if n > 0 {
        assert(Seq::new(n, |i: int| false).drop_last() =~= Seq::new((n - 1) as nat, |i: int| false));
        lemma_count_none((n - 1) as nat);
    }
}

/// The edge-grouped stitch paths hold, together, at most as many pairs as
/// the plan has: each pair lies on one path at most.
pub proof fn lemma_grouped_paths_bound(pairs: Seq<ExactStitchEdgePair>)
    requires
        pairs.len() <= usize::MAX,
    ensures
        path_total(grouped_upto(pairs, pairs.len() as nat).0, grouped_upto(pairs, pairs.len() as nat).0.len() as int)
            <= pairs.len(),
{
    lemma_grouped_total(pairs, pairs.len() as nat);
    lemma_grouped_len(pairs, pairs.len() as nat);
    lemma_count_marked_bound(grouped_upto(pairs, pairs.len() as nat).1);
}


/// Every pair on the paths found so far is marked visited, in range, and on
/// one place of one path only; every visited pair is on a path.
proof fn lemma_grouped_places(pairs: Seq<ExactStitchEdgePair>, s: nat)
    ensures
        ({
            let g = grouped_upto(pairs, s);
            &&& forall|p: int, t: int|
                0 <= p < g.0.len() && 0 <= t < g.0[p].0.len() ==> (#[trigger] g.0[p].0[t]) < pairs.len() && g.1[g.0[p].0[t] as int]
            &&& forall|p1: int, t1: int, p2: int, t2: int|
                0 <= p1 < g.0.len() && 0 <= t1 < g.0[p1].0.len() && 0 <= p2 < g.0.len() && 0 <= t2 < g.0[p2].0.len()
                    && #[trigger] g.0[p1].0[t1] == #[trigger] g.0[p2].0[t2] ==> p1 == p2 && t1 == t2
        }),
    decreases s,
{
    lemma_grouped_len(pairs, s);
    if s > 0 {
        lemma_grouped_places(pairs, (s - 1) as nat);
        lemma_grouped_len(pairs, (s - 1) as nat);
        let prev = grouped_upto(pairs, (s - 1) as nat);
        let i = (s - 1) as usize;
        if !(i >= pairs.len() || i >= prev.1.len() || prev.1[i as int]) {
            let start = spec_start_vertex(pairs, spec_component(pairs, i));
            let walk = walk_pairs(pairs, prev.1, start, None, pairs.len() as nat);
            lemma_walk_fresh(pairs, prev.1, start, None, pairs.len() as nat);
            let g = grouped_upto(pairs, s);
            let marks = visit_all(prev.1, walk.0);
            assert(g.1 == marks);
            assert forall|p: int, t: int| 0 <= p < g.0.len() && 0 <= t < g.0[p].0.len() implies (#[trigger] g.0[p].0[t]) < pairs.len()
                && g.1[g.0[p].0[t] as int] by {
                if p < prev.0.len() {
                    assert(g.0[p] == prev.0[p]);
                } else {
                    assert(g.0[p].0 == walk.0);
                    assert(walk.0.contains(walk.0[t]));
                }
            }
            assert forall|p1: int, t1: int, p2: int, t2: int|
                0 <= p1 < g.0.len() && 0 <= t1 < g.0[p1].0.len() && 0 <= p2 < g.0.len() && 0 <= t2 < g.0[p2].0.len()
                    && #[trigger] g.0[p1].0[t1] == #[trigger] g.0[p2].0[t2] implies p1 == p2 && t1 == t2 by {
                if p1 < prev.0.len() && p2 < prev.0.len() {
                    assert(g.0[p1] == prev.0[p1]);
                    assert(g.0[p2] == prev.0[p2]);
                } else if p1 < prev.0.len() {
                    assert(g.0[p1] == prev.0[p1]);
                    assert(prev.1[prev.0[p1].0[t1] as int]);
                    assert(g.0[p2].0 == walk.0);
                } else if p2 < prev.0.len() {
                    assert(g.0[p2] == prev.0[p2]);
                    assert(prev.1[prev.0[p2].0[t2] as int]);
                    assert(g.0[p1].0 == walk.0);
                } else {
                    assert(g.0[p1].0 == walk.0);
                    assert(g.0[p2].0 == walk.0);
                }
            }
        }
    } else {
        assert(grouped_upto(pairs, 0).0.len() == 0);
    }
}

/// No pair lies on two of the edge-grouped stitch paths, nor twice on one:
/// each place on the paths holds a pair of the plan, and two places hold
/// the same pair only if they are the same place.
pub proof fn lemma_grouped_paths_disjoint(pairs: Seq<ExactStitchEdgePair>)
    ensures
        ({
            let paths = grouped_upto(pairs, pairs.len() as nat).0;
            &&& forall|p: int, t: int| 0 <= p < paths.len() && 0 <= t < paths[p].0.len() ==> (#[trigger] paths[p].0[t]) < pairs.len()
            &&& forall|p1: int, t1: int, p2: int, t2: int|
                0 <= p1 < paths.len() && 0 <= t1 < paths[p1].0.len() && 0 <= p2 < paths.len() && 0 <= t2 < paths[p2].0.len()
                    && #[trigger] paths[p1].0[t1] == #[trigger] paths[p2].0[t2] ==> p1 == p2 && t1 == t2
        }),
{
    lemma_grouped_places(pairs, pairs.len() as nat);
}

} // verus!
