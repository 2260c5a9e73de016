//! Face components of a mesh whose cut edges separate the faces on their two
//! sides.
use vstd::prelude::*;

use crate::edge::{
    edges_increasing, face_edges, face_has_directed, insert_sorted_edge, ordered_edge, reverse_edge,
    same_edge, spec_face_edges, spec_ordered, spec_reverse,
};

verus! {

/// Whether some edge of `cut` orders to the undirected edge `key`.
pub open spec fn cut_has(cut: Seq<[usize; 2]>, key: [usize; 2]) -> bool {
    exists|t: int| 0 <= t < cut.len() && spec_ordered(cut[t]) == key
}

/// Whether face `g` of `faces` walks the directed edge `e`.
pub open spec fn walks(faces: Seq<[usize; 3]>, g: int, e: [usize; 2]) -> bool {
    0 <= g < faces.len() && face_has_directed(faces[g], e)
}

/// Whether faces `a` and `b` walk some uncut edge in opposite directions.
pub open spec fn share_uncut_edge(
    faces: Seq<[usize; 3]>,
    cut: Seq<[usize; 2]>,
    a: int,
    b: int,
) -> bool {
    exists|e: [usize; 2]|
        #![trigger walks(faces, a, e), walks(faces, b, spec_reverse(e))]
        walks(faces, a, e) && walks(faces, b, spec_reverse(e)) && !cut_has(cut, spec_ordered(e))
}

/// Face `i` walks `e`, and no other face does.
pub open spec fn only_walker(faces: Seq<[usize; 3]>, e: [usize; 2], i: int) -> bool {
    &&& walks(faces, i, e)
    &&& forall|g: int, k: int|
        0 <= g < faces.len() && 0 <= k < 3 && #[trigger] spec_face_edges(faces[g])[k] == e ==> g == i
}

/// What the face adjacency promises: it links faces both ways, it links
/// only faces across an uncut edge walked in opposite directions, and it
/// links two faces whenever one is the only face to walk an uncut edge and
/// the other the only face to walk it the other way.
pub open spec fn adjacency_ok(
    faces: Seq<[usize; 3]>,
    cut: Seq<[usize; 2]>,
    adj: Seq<Vec<usize>>,
) -> bool {
    &&& adj.len() == faces.len()
    &&& forall|a: int, b: usize|
        0 <= a < adj.len() && #[trigger] adj[a]@.contains(b) ==> b < adj.len() && adj[b as int]@.contains(
            a as usize,
        ) && share_uncut_edge(faces, cut, a, b as int)
    &&& forall|e: [usize; 2], i: int, j: int|
        i != j && #[trigger] only_walker(faces, e, i) && #[trigger] only_walker(faces, spec_reverse(e), j)
            && !cut_has(cut, spec_ordered(e)) ==> adj[i]@.contains(j as usize)
}

/// The walks still waiting under `key`.
pub open spec fn pending_of(
    pending: Map<[usize; 2], Seq<([usize; 2], usize)>>,
    key: [usize; 2],
) -> Seq<([usize; 2], usize)> {
    if pending.contains_key(key) {
        pending[key]
    } else {
        Seq::empty()
    }
}

/// The first position of a walk of `e` in `list`, or its length when none.
pub open spec fn first_walk(list: Seq<([usize; 2], usize)>, e: [usize; 2]) -> int
    decreases list.len(),
{
    if list.len() == 0 {
        0
    } else if list[0].0 == e {
        0
    } else {
        1 + first_walk(list.drop_first(), e)
    }
}

/// Corner walk `e` of face `g` taken in turn: on a cut edge it changes
/// nothing; else it pairs with the first waiting walk of `e` the other way,
/// which leaves its list as `swap_remove` leaves it, and links both faces,
/// or it waits under its edge.
pub open spec fn pairing_step(
    cut: Seq<[usize; 2]>,
    state: (Map<[usize; 2], Seq<([usize; 2], usize)>>, Seq<Seq<usize>>),
    g: int,
    e: [usize; 2],
) -> (Map<[usize; 2], Seq<([usize; 2], usize)>>, Seq<Seq<usize>>) {
    let key = spec_ordered(e);
    if cut_has(cut, key) {
        state
    } else {
        let waiting = pending_of(state.0, key);
        let p = first_walk(waiting, spec_reverse(e));
        if p < waiting.len() {
            let h = waiting[p].1;
            let linked = state.1.update(g, state.1[g].push(h));
            (
                state.0.insert(key, waiting.update(p, waiting.last()).drop_last()),
                linked.update(h as int, linked[h as int].push(g as usize)),
            )
        } else {
            (state.0.insert(key, waiting.push((e, g as usize))), state.1)
        }
    }
}

/// The waiting walks and the links after the first `n` corners, face by
/// face and corner by corner.
pub open spec fn greedy_pairing(
    faces: Seq<[usize; 3]>,
    cut: Seq<[usize; 2]>,
    n: int,
) -> (Map<[usize; 2], Seq<([usize; 2], usize)>>, Seq<Seq<usize>>)
    decreases n,
{
    if n <= 0 {
        (Map::empty(), Seq::new(faces.len(), |i: int| Seq::<usize>::empty()))
    } else {
        let g = (n - 1) / 3;
        pairing_step(cut, greedy_pairing(faces, cut, n - 1), g, corner_edge(faces, g, (n - 1) % 3))
    }
}

/// The links of each face once every corner of every face is taken.
pub open spec fn greedy_adjacency(faces: Seq<[usize; 3]>, cut: Seq<[usize; 2]>) -> Seq<Seq<usize>> {
    greedy_pairing(faces, cut, 3 * faces.len() as int).1
}

/// The keys, lists and links hold exactly the pairing `state`.
pub open spec fn holds_pairing(
    keys: Seq<[usize; 2]>,
    lists: Seq<Vec<([usize; 2], usize)>>,
    adj: Seq<Vec<usize>>,
    state: (Map<[usize; 2], Seq<([usize; 2], usize)>>, Seq<Seq<usize>>),
) -> bool {
    &&& adj.len() == state.1.len()
    &&& forall|a: int| 0 <= a < adj.len() ==> (#[trigger] adj[a])@ == state.1[a]
    &&& forall|q: int| 0 <= q < keys.len() ==> (#[trigger] lists[q])@ == pending_of(state.0, keys[q])
    &&& forall|key: [usize; 2]| !keys.contains(key) ==> #[trigger] pending_of(state.0, key) == Seq::<([usize; 2], usize)>::empty()
}

proof fn lemma_greedy_next(faces: Seq<[usize; 3]>, cut: Seq<[usize; 2]>, f: int, k: int)
    requires
        0 <= f,
        0 <= k < 3,
    ensures
        greedy_pairing(faces, cut, 3 * f + k + 1) == pairing_step(
            cut,
            greedy_pairing(faces, cut, 3 * f + k),
            f,
            corner_edge(faces, f, k),
        ),
{
    assert((3 * f + k) / 3 == f);
    assert((3 * f + k) % 3 == k);
}

proof fn lemma_first_walk(list: Seq<([usize; 2], usize)>, e: [usize; 2], p: int)
    requires
        0 <= p <= list.len(),
        p < list.len() ==> list[p].0 == e,
        forall|t: int| 0 <= t < p ==> list[t].0 != e,
    ensures
        first_walk(list, e) == p,
    decreases list.len(),
{
    if list.len() > 0 && p > 0 {
        assert(list[0].0 != e);
        assert forall|t: int| 0 <= t < p - 1 implies list.drop_first()[t].0 != e by {
            assert(list[t + 1].0 != e);
        }
        lemma_first_walk(list.drop_first(), e, p - 1);
    }
}

/// Whether some edge of `cut` orders to `key`.
fn has_cut_key(cut: &Vec<[usize; 2]>, key: [usize; 2]) -> (found: bool)
    ensures
        found == cut_has(cut@, key),
{
    let mut t: usize = 0;
    while t < cut.len()
        invariant
            t <= cut.len(),
            forall|u: int| 0 <= u < t ==> spec_ordered(cut@[u]) != key,
        decreases cut.len() - t,
    {
        if same_edge(ordered_edge(cut[t]), key) {
            return true;
        }
        t += 1;
    }
    false
}

/// Appends `x` to the list at position `i`, leaving the other lists as they were.
fn push_at(lists: &mut Vec<Vec<usize>>, i: usize, x: usize)
    requires
        i < old(lists)@.len(),
    ensures
        final(lists)@.len() == old(lists)@.len(),
        final(lists)@[i as int]@ == old(lists)@[i as int]@.push(x),
        forall|j: int| 0 <= j < old(lists)@.len() && j != i ==> final(lists)@[j] == old(lists)@[j],
{
    let mut list: Vec<usize> = Vec::new();
    std::mem::swap(&mut list, &mut lists[i]);
    list.push(x);
    std::mem::swap(&mut list, &mut lists[i]);
}

/// The first position of a stored walk of `e`, or the length when none is stored.
fn first_walk_of(list: &Vec<([usize; 2], usize)>, e: [usize; 2]) -> (p: usize)
    ensures
        p <= list@.len(),
        p < list@.len() ==> list@[p as int].0 == e,
        forall|t: int| 0 <= t < p ==> list@[t].0 != e,
{
    let mut p: usize = 0;
    while p < list.len()
        invariant
            p <= list.len(),
            forall|t: int| 0 <= t < p ==> list@[t].0 != e,
        decreases list.len() - p,
    {
        if same_edge(list[p].0, e) {
            return p;
        }
        p += 1;
    }
    p
}

/// Removes the stored walk at position `p` of list `q` as `swap_remove`
/// does, returning its face.
fn take_walk(lists: &mut Vec<Vec<([usize; 2], usize)>>, q: usize, p: usize) -> (g: usize)
    requires
        q < old(lists)@.len(),
        p < old(lists)@[q as int]@.len(),
    ensures
        g == old(lists)@[q as int]@[p as int].1,
        final(lists)@.len() == old(lists)@.len(),
        final(lists)@[q as int]@ == old(lists)@[q as int]@.update(
            p as int,
            old(lists)@[q as int]@.last(),
        ).drop_last(),
        forall|j: int| 0 <= j < old(lists)@.len() && j != q ==> final(lists)@[j] == old(lists)@[j],
{
    let mut list: Vec<([usize; 2], usize)> = Vec::new();
    std::mem::swap(&mut list, &mut lists[q]);
    let (_, g) = list.swap_remove(p);
    std::mem::swap(&mut list, &mut lists[q]);
    g
}

/// Appends a stored walk to list `q`.
fn store_walk(lists: &mut Vec<Vec<([usize; 2], usize)>>, q: usize, walk: ([usize; 2], usize))
    requires
        q < old(lists)@.len(),
    ensures
        final(lists)@.len() == old(lists)@.len(),
        final(lists)@[q as int]@ == old(lists)@[q as int]@.push(walk),
        forall|j: int| 0 <= j < old(lists)@.len() && j != q ==> final(lists)@[j] == old(lists)@[j],
{
    let mut list: Vec<([usize; 2], usize)> = Vec::new();
    std::mem::swap(&mut list, &mut lists[q]);
    list.push(walk);
    std::mem::swap(&mut list, &mut lists[q]);
}

/// The directed edge at corner `k` of face `g`.
pub open spec fn corner_edge(faces: Seq<[usize; 3]>, g: int, k: int) -> [usize; 2] {
    spec_face_edges(faces[g])[k]
}

/// Corner `k` of face `g` comes before corner `kk` of face `f`.
pub open spec fn walk_done(g: int, k: int, f: int, kk: int) -> bool {
    0 <= g && 0 <= k < 3 && (g < f || (g == f && k < kk))
}

/// The walk `e` of face `g` waits under its key, or `g` is linked to a face
/// that walks `e` the other way.
pub open spec fn stored_or_linked(
    faces: Seq<[usize; 3]>,
    keys: Seq<[usize; 2]>,
    lists: Seq<Vec<([usize; 2], usize)>>,
    adj: Seq<Vec<usize>>,
    g: int,
    e: [usize; 2],
) -> bool {
    ||| exists|q: int|
        0 <= q < keys.len() && keys[q] == spec_ordered(e) && #[trigger] lists[q]@.contains(
            (e, g as usize),
        )
    ||| exists|h: usize| #[trigger] adj[g]@.contains(h) && walks(faces, h as int, spec_reverse(e))
}

/// The pairing state after every corner before corner `kk` of face `f`.
#[verifier::opaque]
pub open spec fn pairing_state(
    faces: Seq<[usize; 3]>,
    cut: Seq<[usize; 2]>,
    keys: Seq<[usize; 2]>,
    lists: Seq<Vec<([usize; 2], usize)>>,
    adj: Seq<Vec<usize>>,
    f: int,
    kk: int,
) -> bool {
    &&& keys.len() == lists.len()
    &&& keys.no_duplicates()
    &&& forall|q: int, p: int|
        0 <= q < lists.len() && 0 <= p < lists[q]@.len() ==> spec_ordered(#[trigger] lists[q]@[p].0)
            == keys[q] && walks(faces, lists[q]@[p].1 as int, lists[q]@[p].0)
    &&& adj.len() == faces.len()
    &&& forall|a: int, b: usize|
        0 <= a < adj.len() && #[trigger] adj[a]@.contains(b) ==> b < adj.len() && adj[b as int]@.contains(
            a as usize,
        ) && share_uncut_edge(faces, cut, a, b as int)
    &&& forall|g: int, k: int|
        walk_done(g, k, f, kk) && g < faces.len() && !cut_has(cut, spec_ordered(#[trigger] corner_edge(faces, g, k)))
            ==> stored_or_linked(faces, keys, lists, adj, g, corner_edge(faces, g, k))
    &&& forall|e: [usize; 2], i: int, j: int, ki: int, kj: int|
        #![trigger only_walker(faces, e, i), only_walker(faces, spec_reverse(e), j), corner_edge(faces, i, ki), corner_edge(faces, j, kj)]
        i != j && only_walker(faces, e, i) && only_walker(faces, spec_reverse(e), j) && !cut_has(
            cut,
            spec_ordered(e),
        ) && walk_done(i, ki, f, kk) && corner_edge(faces, i, ki) == e && walk_done(j, kj, f, kk)
            && corner_edge(faces, j, kj) == spec_reverse(e) ==> adj[i]@.contains(j as usize)
}

/// A face walks the edge at each of its corners.
proof fn lemma_corner_walk(faces: Seq<[usize; 3]>, g: int, k: int)
    requires
        0 <= g < faces.len(),
        0 <= k < 3,
    ensures
        walks(faces, g, corner_edge(faces, g, k)),
{
}

/// A walked edge sits at some corner.
proof fn lemma_walk_corner(faces: Seq<[usize; 3]>, g: int, e: [usize; 2]) -> (k: int)
    requires
        walks(faces, g, e),
    ensures
        0 <= k < 3,
        corner_edge(faces, g, k) == e,
{
    if spec_face_edges(faces[g])[0] == e {
        0
    } else if spec_face_edges(faces[g])[1] == e {
        1
    } else {
        2
    }
}

/// The state with no corner visited.
proof fn lemma_pairing_start(faces: Seq<[usize; 3]>, cut: Seq<[usize; 2]>, adj: Seq<Vec<usize>>)
    requires
        adj.len() == faces.len(),
        forall|a: int| 0 <= a < adj.len() ==> (#[trigger] adj[a])@.len() == 0,
    ensures
        pairing_state(faces, cut, Seq::empty(), Seq::empty(), adj, 0, 0),
{
    reveal(pairing_state);
    assert forall|a: int, b: usize| 0 <= a < adj.len() && #[trigger] adj[a]@.contains(b) implies false by {
        assert(adj[a]@.len() == 0);
    }
}

/// Finishing the corners of face `f` is starting face `f + 1`.
proof fn lemma_pairing_next_face(
    faces: Seq<[usize; 3]>,
    cut: Seq<[usize; 2]>,
    keys: Seq<[usize; 2]>,
    lists: Seq<Vec<([usize; 2], usize)>>,
    adj: Seq<Vec<usize>>,
    f: int,
)
    requires
        pairing_state(faces, cut, keys, lists, adj, f, 3),
    ensures
        pairing_state(faces, cut, keys, lists, adj, f + 1, 0),
{
    reveal(pairing_state);
    assert forall|g: int, k: int| walk_done(g, k, f + 1, 0) implies walk_done(g, k, f, 3) by {}
}

/// The final state gives the promised adjacency.
proof fn lemma_pairing_end(
    faces: Seq<[usize; 3]>,
    cut: Seq<[usize; 2]>,
    keys: Seq<[usize; 2]>,
    lists: Seq<Vec<([usize; 2], usize)>>,
    adj: Seq<Vec<usize>>,
)
    requires
        pairing_state(faces, cut, keys, lists, adj, faces.len() as int, 0),
    ensures
        adjacency_ok(faces, cut, adj),
{
    reveal(pairing_state);
    assert forall|e: [usize; 2], i: int, j: int|
        i != j && #[trigger] only_walker(faces, e, i) && #[trigger] only_walker(faces, spec_reverse(e), j)
            && !cut_has(cut, spec_ordered(e)) implies adj[i]@.contains(j as usize) by {
        let ki = lemma_walk_corner(faces, i, e);
        let kj = lemma_walk_corner(faces, j, spec_reverse(e));
        assert(walk_done(i, ki, faces.len() as int, 0));
        assert(walk_done(j, kj, faces.len() as int, 0));
    }
}

/// A corner on a cut edge changes nothing.
proof fn lemma_walk_cut(
    faces: Seq<[usize; 3]>,
    cut: Seq<[usize; 2]>,
    keys: Seq<[usize; 2]>,
    lists: Seq<Vec<([usize; 2], usize)>>,
    adj: Seq<Vec<usize>>,
    f: int,
    kk: int,
)
    requires
        pairing_state(faces, cut, keys, lists, adj, f, kk),
        0 <= f < faces.len(),
        0 <= kk < 3,
        cut_has(cut, spec_ordered(corner_edge(faces, f, kk))),
    ensures
        pairing_state(faces, cut, keys, lists, adj, f, kk + 1),
{
    reveal(pairing_state);
    let e0 = corner_edge(faces, f, kk);
    crate::edge::lemma_ordered_edge_laws(e0);
    assert forall|e: [usize; 2], i: int, j: int, ki: int, kj: int|
        #![trigger only_walker(faces, e, i), only_walker(faces, spec_reverse(e), j), corner_edge(faces, i, ki), corner_edge(faces, j, kj)]
        i != j && only_walker(faces, e, i) && only_walker(faces, spec_reverse(e), j) && !cut_has(
            cut,
            spec_ordered(e),
        ) && walk_done(i, ki, f, kk + 1) && corner_edge(faces, i, ki) == e && walk_done(j, kj, f, kk + 1)
            && corner_edge(faces, j, kj) == spec_reverse(e) implies adj[i]@.contains(j as usize) by {
        crate::edge::lemma_ordered_edge_laws(e);
        if i == f && ki == kk {
            assert(e0 == e);
        }
        if j == f && kj == kk {
            assert(e0 == spec_reverse(e));
        }
    }
}

/// A corner whose key has no list yet starts one.
proof fn lemma_walk_new_key(
    faces: Seq<[usize; 3]>,
    cut: Seq<[usize; 2]>,
    keys: Seq<[usize; 2]>,
    lists: Seq<Vec<([usize; 2], usize)>>,
    adj: Seq<Vec<usize>>,
    f: int,
    kk: int,
    keys2: Seq<[usize; 2]>,
    lists2: Seq<Vec<([usize; 2], usize)>>,
)
    requires
        pairing_state(faces, cut, keys, lists, adj, f, kk),
        0 <= f < faces.len(),
        faces.len() <= usize::MAX,
        0 <= kk < 3,
        !cut_has(cut, spec_ordered(corner_edge(faces, f, kk))),
        !keys.contains(spec_ordered(corner_edge(faces, f, kk))),
        keys2 == keys.push(spec_ordered(corner_edge(faces, f, kk))),
        lists2.len() == lists.len() + 1,
        forall|q: int| 0 <= q < lists.len() ==> lists2[q] == lists[q],
        lists2[lists.len() as int]@ == seq![(corner_edge(faces, f, kk), f as usize)],
    ensures
        pairing_state(faces, cut, keys2, lists2, adj, f, kk + 1),
{
    reveal(pairing_state);
    let e0 = corner_edge(faces, f, kk);
    let key = spec_ordered(e0);
    let last = lists.len() as int;
    crate::edge::lemma_ordered_edge_laws(e0);
    lemma_corner_walk(faces, f, kk);
    assert(keys2.no_duplicates()) by {
        assert forall|a: int, b: int| 0 <= a < b < keys2.len() implies keys2[a] != keys2[b] by {
            if b == keys.len() {
                assert(keys.contains(keys[a]));
            }
        }
    }
    assert forall|q: int, p: int|
        0 <= q < lists2.len() && 0 <= p < lists2[q]@.len() implies spec_ordered(#[trigger] lists2[q]@[p].0)
            == keys2[q] && walks(faces, lists2[q]@[p].1 as int, lists2[q]@[p].0) by {
        if q < last {
            assert(lists2[q]@[p] == lists[q]@[p]);
        } else {
            assert(lists2[q]@[p] == (e0, f as usize));
        }
    }
    assert(lists2[last]@.contains((e0, f as usize))) by {
        assert(lists2[last]@[0] == (e0, f as usize));
    }
    assert forall|g: int, k: int|
        walk_done(g, k, f, kk + 1) && g < faces.len() && !cut_has(cut, spec_ordered(#[trigger] corner_edge(faces, g, k)))
            implies stored_or_linked(faces, keys2, lists2, adj, g, corner_edge(faces, g, k)) by {
        if g == f && k == kk {
            assert(keys2[last] == key);
        } else {
            assert(stored_or_linked(faces, keys, lists, adj, g, corner_edge(faces, g, k)));
            let e = corner_edge(faces, g, k);
            if exists|q: int|
                0 <= q < keys.len() && keys[q] == spec_ordered(e) && #[trigger] lists[q]@.contains((e, g as usize)) {
                let q = choose|q: int|
                    0 <= q < keys.len() && keys[q] == spec_ordered(e) && #[trigger] lists[q]@.contains((e, g as usize));
                assert(lists2[q] == lists[q]);
                assert(keys2[q] == keys[q]);
            }
        }
    }
    assert forall|e: [usize; 2], i: int, j: int, ki: int, kj: int|
        #![trigger only_walker(faces, e, i), only_walker(faces, spec_reverse(e), j), corner_edge(faces, i, ki), corner_edge(faces, j, kj)]
        i != j && only_walker(faces, e, i) && only_walker(faces, spec_reverse(e), j) && !cut_has(
            cut,
            spec_ordered(e),
        ) && walk_done(i, ki, f, kk + 1) && corner_edge(faces, i, ki) == e && walk_done(j, kj, f, kk + 1)
            && corner_edge(faces, j, kj) == spec_reverse(e) implies adj[i]@.contains(j as usize) by {
        crate::edge::lemma_ordered_edge_laws(e);
        if (i == f && ki == kk) || (j == f && kj == kk) {
            let (g, kg, ef) = if i == f && ki == kk {
                (j, kj, e)
            } else {
                (i, ki, spec_reverse(e))
            };
            let eg = corner_edge(faces, g, kg);
            assert(ef == e0);
            crate::edge::lemma_ordered_edge_laws(eg);
            assert(eg == spec_reverse(e0));
            assert(walk_done(g, kg, f, kk));
            assert(stored_or_linked(faces, keys, lists, adj, g, eg));
            if exists|q: int|
                0 <= q < keys.len() && keys[q] == spec_ordered(eg) && #[trigger] lists[q]@.contains((eg, g as usize)) {
                let q = choose|q: int|
                    0 <= q < keys.len() && keys[q] == spec_ordered(eg) && #[trigger] lists[q]@.contains((eg, g as usize));
                assert(keys.contains(keys[q]));
                assert(false);
            }
            let h = choose|h: usize| #[trigger] adj[g]@.contains(h) && walks(faces, h as int, spec_reverse(eg));
            assert(spec_reverse(eg) == e0);
            let kh = lemma_walk_corner(faces, h as int, e0);
            assert(only_walker(faces, e0, f));
            assert(spec_face_edges(faces[h as int])[kh] == e0);
            assert(h == f);
            assert(adj[f]@.contains(g as usize));
        }
    }
}

/// Removing the element at `p` as `swap_remove` does keeps every element that
/// differs from it.
proof fn lemma_swap_remove_keeps<A>(s: Seq<A>, p: int, x: A)
    requires
        0 <= p < s.len(),
        s.contains(x),
        x != s[p],
    ensures
        s.update(p, s.last()).drop_last().contains(x),
{
    let t = choose|t: int| 0 <= t < s.len() && s[t] == x;
    let r = s.update(p, s.last()).drop_last();
    if t == s.len() - 1 {
        assert(r[p] == x);
    } else {
        assert(r[t] == x);
    }
}

/// Every element left after a `swap_remove` was there before.
proof fn lemma_swap_remove_from<A>(s: Seq<A>, p: int, t: int)
    requires
        0 <= p < s.len(),
        0 <= t < s.len() - 1,
    ensures
        s.update(p, s.last()).drop_last()[t] == (if t == p { s[s.len() - 1] } else { s[t] }),
{
}

/// The state of the other walk of a pair that a corner completes: where
/// `f` is the only face walking `e0` and `g` the only face walking it the
/// other way, a pair with one walk at the corner has its other walk at `g`.
proof fn lemma_pair_other(
    faces: Seq<[usize; 3]>,
    e: [usize; 2],
    i: int,
    j: int,
    ki: int,
    kj: int,
    f: int,
    kk: int,
) -> (r: (int, int))
    requires
        only_walker(faces, e, i),
        only_walker(faces, spec_reverse(e), j),
        corner_edge(faces, i, ki) == e,
        corner_edge(faces, j, kj) == spec_reverse(e),
        (i == f && ki == kk) || (j == f && kj == kk),
    ensures
        only_walker(faces, corner_edge(faces, f, kk), f),
        only_walker(faces, spec_reverse(corner_edge(faces, f, kk)), r.0),
        corner_edge(faces, r.0, r.1) == spec_reverse(corner_edge(faces, f, kk)),
        (r.0 == j && r.1 == kj) || (r.0 == i && r.1 == ki),
        (i == f && ki == kk) ==> r.0 == j && r.1 == kj,
        !(i == f && ki == kk) ==> r.0 == i && r.1 == ki,
{
    crate::edge::lemma_ordered_edge_laws(e);
    if i == f && ki == kk {
        (j, kj)
    } else {
        (i, ki)
    }
}

/// A corner that meets a stored walk the other way links the two faces and
/// drops that walk.
#[verifier::rlimit(60)]
proof fn lemma_walk_matched(
    faces: Seq<[usize; 3]>,
    cut: Seq<[usize; 2]>,
    keys: Seq<[usize; 2]>,
    lists: Seq<Vec<([usize; 2], usize)>>,
    adj: Seq<Vec<usize>>,
    f: int,
    kk: int,
    q: int,
    p: int,
    lists2: Seq<Vec<([usize; 2], usize)>>,
    adj1: Seq<Vec<usize>>,
    adj2: Seq<Vec<usize>>,
)
    requires
        pairing_state(faces, cut, keys, lists, adj, f, kk),
        0 <= f < faces.len(),
        faces.len() <= usize::MAX,
        0 <= kk < 3,
        !cut_has(cut, spec_ordered(corner_edge(faces, f, kk))),
        0 <= q < keys.len(),
        keys[q] == spec_ordered(corner_edge(faces, f, kk)),
        0 <= p < lists[q]@.len(),
        lists[q]@[p].0 == spec_reverse(corner_edge(faces, f, kk)),
        lists2.len() == lists.len(),
        lists2[q]@ == lists[q]@.update(p, lists[q]@.last()).drop_last(),
        forall|j: int| 0 <= j < lists.len() && j != q ==> lists2[j] == lists[j],
        adj1.len() == adj.len(),
        adj1[f]@ == adj[f]@.push(lists[q]@[p].1),
        forall|j: int| 0 <= j < adj.len() && j != f ==> adj1[j] == adj[j],
        adj2.len() == adj1.len(),
        adj2[lists[q]@[p].1 as int]@ == adj1[lists[q]@[p].1 as int]@.push(f as usize),
        forall|j: int| 0 <= j < adj1.len() && j != lists[q]@[p].1 ==> adj2[j] == adj1[j],
    ensures
        pairing_state(faces, cut, keys, lists2, adj2, f, kk + 1),
{
    reveal(pairing_state);
    let e0 = corner_edge(faces, f, kk);
    let g = lists[q]@[p].1 as int;
    let old_list = lists[q]@;
    crate::edge::lemma_ordered_edge_laws(e0);
    lemma_corner_walk(faces, f, kk);
    assert(walks(faces, g, spec_reverse(e0)));
    assert(adj2[f]@.contains(g as usize)) by {
        if g == f {
            assert(adj2[f]@ == adj[f]@.push(g as usize).push(f as usize));
            assert(adj2[f]@[adj[f]@.len() as int] == g as usize);
        } else {
            assert(adj2[f] == adj1[f]);
            assert(adj1[f]@[adj[f]@.len() as int] == g as usize);
        }
    }
    assert(adj2[g]@.contains(f as usize)) by {
        assert(adj2[g]@[adj1[g]@.len() as int] == f as usize);
    }
    assert forall|a: int, b: usize| 0 <= a < adj.len() && #[trigger] adj[a]@.contains(b) implies adj2[a]@.contains(b) by {
        let t = choose|t: int| 0 <= t < adj[a]@.len() && adj[a]@[t] == b;
        if a == f {
            assert(adj1[a]@[t] == b);
        }
        if a == g {
            assert(adj2[a]@[t] == adj1[a]@[t]);
        }
        if a != f && a != g {
            assert(adj2[a] == adj[a]);
        }
    }
    assert forall|a: int, b: usize| 0 <= a < adj2.len() && #[trigger] adj2[a]@.contains(b) implies
        adj[a]@.contains(b) || (a == f && b == g) || (a == g && b == f) by {
        let t = choose|t: int| 0 <= t < adj2[a]@.len() && adj2[a]@[t] == b;
        if a == g {
            if t < adj1[a]@.len() {
                assert(adj1[a]@[t] == b);
                if a == f && t < adj[a]@.len() {
                    assert(adj[a]@[t] == b);
                }
                if a != f {
                    assert(adj[a]@[t] == b);
                }
            }
        } else if a == f {
            assert(adj1[a]@[t] == b);
            if t < adj[a]@.len() {
                assert(adj[a]@[t] == b);
            }
        } else {
            assert(adj[a] == adj2[a]);
        }
    }
    assert forall|t: int| 0 <= t < lists2[q]@.len() implies #[trigger] lists2[q]@[t] == (if t == p {
        old_list[old_list.len() - 1]
    } else {
        old_list[t]
    }) by {
        lemma_swap_remove_from(old_list, p, t);
    }
    assert forall|q2: int, p2: int|
        0 <= q2 < lists2.len() && 0 <= p2 < lists2[q2]@.len() implies spec_ordered(#[trigger] lists2[q2]@[p2].0)
            == keys[q2] && walks(faces, lists2[q2]@[p2].1 as int, lists2[q2]@[p2].0) by {
        if q2 == q {
            if p2 == p {
                assert(lists2[q2]@[p2] == old_list[old_list.len() - 1]);
            } else {
                assert(lists2[q2]@[p2] == old_list[p2]);
            }
        } else {
            assert(lists2[q2] == lists[q2]);
        }
    }
    assert forall|a: int, b: usize|
        0 <= a < adj2.len() && #[trigger] adj2[a]@.contains(b) implies b < adj2.len() && adj2[b as int]@.contains(
            a as usize,
        ) && share_uncut_edge(faces, cut, a, b as int) by {
        if adj[a]@.contains(b) {
            assert(adj[b as int]@.contains(a as usize));
        } else if a == f && b == g {
            assert(walks(faces, f, e0) && walks(faces, g, spec_reverse(e0)));
        } else {
            assert(walks(faces, g, spec_reverse(e0)) && walks(faces, f, spec_reverse(spec_reverse(e0))));
        }
    }
    assert forall|g2: int, k2: int|
        walk_done(g2, k2, f, kk + 1) && g2 < faces.len() && !cut_has(cut, spec_ordered(#[trigger] corner_edge(faces, g2, k2)))
            implies stored_or_linked(faces, keys, lists2, adj2, g2, corner_edge(faces, g2, k2)) by {
        let e2 = corner_edge(faces, g2, k2);
        if g2 == f && k2 == kk {
            assert(adj2[f]@.contains(g as usize) && walks(faces, g, spec_reverse(e0)));
        } else {
            assert(stored_or_linked(faces, keys, lists, adj, g2, e2));
            if exists|h: usize| #[trigger] adj[g2]@.contains(h) && walks(faces, h as int, spec_reverse(e2)) {
                let h = choose|h: usize| #[trigger] adj[g2]@.contains(h) && walks(faces, h as int, spec_reverse(e2));
                assert(adj2[g2]@.contains(h));
            } else {
                let q2 = choose|q2: int|
                    0 <= q2 < keys.len() && keys[q2] == spec_ordered(e2) && #[trigger] lists[q2]@.contains((e2, g2 as usize));
                if q2 != q {
                    assert(lists2[q2] == lists[q2]);
                } else if (e2, g2 as usize) == old_list[p] {
                    assert(adj2[g]@.contains(f as usize));
                    assert(spec_reverse(e2) == e0);
                } else {
                    lemma_swap_remove_keeps(old_list, p, (e2, g2 as usize));
                }
            }
        }
    }
    assert forall|e: [usize; 2], i: int, j: int, ki: int, kj: int|
        #![trigger only_walker(faces, e, i), only_walker(faces, spec_reverse(e), j), corner_edge(faces, i, ki), corner_edge(faces, j, kj)]
        i != j && only_walker(faces, e, i) && only_walker(faces, spec_reverse(e), j) && !cut_has(
            cut,
            spec_ordered(e),
        ) && walk_done(i, ki, f, kk + 1) && corner_edge(faces, i, ki) == e && walk_done(j, kj, f, kk + 1)
            && corner_edge(faces, j, kj) == spec_reverse(e) implies adj2[i]@.contains(j as usize) by {
        if (i == f && ki == kk) || (j == f && kj == kk) {
            let r = lemma_pair_other(faces, e, i, j, ki, kj, f, kk);
            let kg = lemma_walk_corner(faces, g, spec_reverse(e0));
            assert(spec_face_edges(faces[g])[kg] == spec_reverse(e0));
            assert(g == r.0);
        } else {
            assert(adj[i]@.contains(j as usize));
        }
    }
}

/// A corner with no stored walk the other way is stored under its key.
#[verifier::rlimit(40)]
proof fn lemma_walk_stored(
    faces: Seq<[usize; 3]>,
    cut: Seq<[usize; 2]>,
    keys: Seq<[usize; 2]>,
    lists: Seq<Vec<([usize; 2], usize)>>,
    adj: Seq<Vec<usize>>,
    f: int,
    kk: int,
    q: int,
    lists2: Seq<Vec<([usize; 2], usize)>>,
)
    requires
        pairing_state(faces, cut, keys, lists, adj, f, kk),
        0 <= f < faces.len(),
        faces.len() <= usize::MAX,
        0 <= kk < 3,
        !cut_has(cut, spec_ordered(corner_edge(faces, f, kk))),
        0 <= q < keys.len(),
        keys[q] == spec_ordered(corner_edge(faces, f, kk)),
        forall|t: int| 0 <= t < lists[q]@.len() ==> lists[q]@[t].0 != spec_reverse(corner_edge(faces, f, kk)),
        lists2.len() == lists.len(),
        lists2[q]@ == lists[q]@.push((corner_edge(faces, f, kk), f as usize)),
        forall|j: int| 0 <= j < lists.len() && j != q ==> lists2[j] == lists[j],
    ensures
        pairing_state(faces, cut, keys, lists2, adj, f, kk + 1),
{
    reveal(pairing_state);
    let e0 = corner_edge(faces, f, kk);
    crate::edge::lemma_ordered_edge_laws(e0);
    lemma_corner_walk(faces, f, kk);
    assert forall|q2: int, p2: int|
        0 <= q2 < lists2.len() && 0 <= p2 < lists2[q2]@.len() implies spec_ordered(#[trigger] lists2[q2]@[p2].0)
            == keys[q2] && walks(faces, lists2[q2]@[p2].1 as int, lists2[q2]@[p2].0) by {
        if q2 == q {
            if p2 < lists[q]@.len() {
                assert(lists2[q2]@[p2] == lists[q]@[p2]);
            }
        } else {
            assert(lists2[q2] == lists[q2]);
        }
    }
    assert(lists2[q]@.contains((e0, f as usize))) by {
        assert(lists2[q]@[lists[q]@.len() as int] == (e0, f as usize));
    }
    assert forall|g2: int, k2: int|
        walk_done(g2, k2, f, kk + 1) && g2 < faces.len() && !cut_has(cut, spec_ordered(#[trigger] corner_edge(faces, g2, k2)))
            implies stored_or_linked(faces, keys, lists2, adj, g2, corner_edge(faces, g2, k2)) by {
        let e2 = corner_edge(faces, g2, k2);
        if g2 == f && k2 == kk {
            assert(lists2[q]@.contains((e2, g2 as usize)));
        } else {
            assert(stored_or_linked(faces, keys, lists, adj, g2, e2));
            if exists|q2: int|
                0 <= q2 < keys.len() && keys[q2] == spec_ordered(e2) && #[trigger] lists[q2]@.contains((e2, g2 as usize)) {
                let q2 = choose|q2: int|
                    0 <= q2 < keys.len() && keys[q2] == spec_ordered(e2) && #[trigger] lists[q2]@.contains((e2, g2 as usize));
                if q2 == q {
                    let t = choose|t: int| 0 <= t < lists[q]@.len() && lists[q]@[t] == (e2, g2 as usize);
                    assert(lists2[q]@[t] == (e2, g2 as usize));
                    assert(lists2[q]@.contains((e2, g2 as usize)));
                } else {
                    assert(lists2[q2] == lists[q2]);
                }
            }
        }
    }
    assert forall|e: [usize; 2], i: int, j: int, ki: int, kj: int|
        #![trigger only_walker(faces, e, i), only_walker(faces, spec_reverse(e), j), corner_edge(faces, i, ki), corner_edge(faces, j, kj)]
        i != j && only_walker(faces, e, i) && only_walker(faces, spec_reverse(e), j) && !cut_has(
            cut,
            spec_ordered(e),
        ) && walk_done(i, ki, f, kk + 1) && corner_edge(faces, i, ki) == e && walk_done(j, kj, f, kk + 1)
            && corner_edge(faces, j, kj) == spec_reverse(e) implies adj[i]@.contains(j as usize) by {
        if (i == f && ki == kk) || (j == f && kj == kk) {
            let r = lemma_pair_other(faces, e, i, j, ki, kj, f, kk);
            let g = r.0;
            let eg = corner_edge(faces, g, r.1);
            crate::edge::lemma_ordered_edge_laws(eg);
            assert(walk_done(g, r.1, f, kk));
            assert(stored_or_linked(faces, keys, lists, adj, g, eg));
            if exists|q2: int|
                0 <= q2 < keys.len() && keys[q2] == spec_ordered(eg) && #[trigger] lists[q2]@.contains((eg, g as usize)) {
                let q2 = choose|q2: int|
                    0 <= q2 < keys.len() && keys[q2] == spec_ordered(eg) && #[trigger] lists[q2]@.contains((eg, g as usize));
                assert(q2 == q);
                let t = choose|t: int| 0 <= t < lists[q]@.len() && lists[q]@[t] == (eg, g as usize);
                assert(false);
            }
            let h = choose|h: usize| #[trigger] adj[g]@.contains(h) && walks(faces, h as int, spec_reverse(eg));
            let kh = lemma_walk_corner(faces, h as int, e0);
            assert(spec_face_edges(faces[h as int])[kh] == e0);
            assert(h == f);
            assert(adj[f]@.contains(g as usize));
        } else {
            assert(adj[i]@.contains(j as usize));
        }
    }
}

/// Pairs corner `k` of face `f` with a stored walk of its edge the other way,
/// linking the two faces, or stores it; corners on cut edges are skipped.
fn record_walk(
    faces: &Vec<[usize; 3]>,
    cut: &Vec<[usize; 2]>,
    keys: &mut Vec<[usize; 2]>,
    lists: &mut Vec<Vec<([usize; 2], usize)>>,
    adj: &mut Vec<Vec<usize>>,
    f: usize,
    k: usize,
)
    requires
        f < faces@.len(),
        k < 3,
        pairing_state(faces@, cut@, old(keys)@, old(lists)@, old(adj)@, f as int, k as int),
        holds_pairing(old(keys)@, old(lists)@, old(adj)@, greedy_pairing(faces@, cut@, 3 * f + k)),
    ensures
        pairing_state(faces@, cut@, final(keys)@, final(lists)@, final(adj)@, f as int, k as int + 1),
        holds_pairing(final(keys)@, final(lists)@, final(adj)@, greedy_pairing(faces@, cut@, 3 * f + k + 1)),
{
    let ghost state = greedy_pairing(faces@, cut@, 3 * f + k);
    proof {
        lemma_greedy_next(faces@, cut@, f as int, k as int);
    }
    let n = faces.len();
    assert(faces@.len() <= usize::MAX);
    let e = face_edges(faces[f])[k];
    assert(e == corner_edge(faces@, f as int, k as int));
    let key = ordered_edge(e);
    if has_cut_key(cut, key) {
        proof {
            lemma_walk_cut(faces@, cut@, keys@, lists@, adj@, f as int, k as int);
        }
        return;
    }
    proof {
        reveal(pairing_state);
    }
    let q = crate::edge::find_edge(keys, key);
    if q == keys.len() {
        let ghost keys0 = keys@;
        let ghost lists0 = lists@;
        keys.push(key);
        let mut list: Vec<([usize; 2], usize)> = Vec::new();
        list.push((e, f));
        lists.push(list);
        proof {
            lemma_walk_new_key(faces@, cut@, keys0, lists0, adj@, f as int, k as int, keys@, lists@);
            let next = greedy_pairing(faces@, cut@, 3 * f + k + 1);
            assert(pending_of(state.0, key) == Seq::<([usize; 2], usize)>::empty());
            assert(first_walk(Seq::<([usize; 2], usize)>::empty(), spec_reverse(e)) == 0);
            assert(next.0 == state.0.insert(key, seq![(e, f)])) by {
                assert(Seq::<([usize; 2], usize)>::empty().push((e, f)) =~= seq![(e, f)]);
            }
            assert forall|j: int| 0 <= j < keys@.len() implies (#[trigger] lists@[j])@ == pending_of(next.0, keys@[j]) by {
                if j < keys0.len() {
                    assert(keys0.contains(keys0[j]));
                    assert(keys0[j] != key);
                    assert(lists@[j] == lists0[j]);
                } else {
                    assert(lists@[j]@ =~= seq![(e, f)]);
                }
            }
            assert forall|other: [usize; 2]| !keys@.contains(other) implies #[trigger] pending_of(next.0, other)
                == Seq::<([usize; 2], usize)>::empty() by {
                assert(keys@[keys0.len() as int] == key);
                if keys0.contains(other) {
                    let j = choose|j: int| 0 <= j < keys0.len() && keys0[j] == other;
                    assert(keys@[j] == other);
                }
                assert(other != key);
                assert(pending_of(state.0, other) == Seq::<([usize; 2], usize)>::empty());
                assert(next.0.contains_key(other) == state.0.contains_key(other));
            }
        }
        return;
    }
    let r = reverse_edge(e);
    let p = first_walk_of(&lists[q], r);
    if p < lists[q].len() {
        let ghost lists0 = lists@;
        let ghost adj0 = adj@;
        let g = take_walk(lists, q, p);
        assert(walks(faces@, g as int, r));
        push_at(adj, f, g);
        let ghost adj1 = adj@;
        push_at(adj, g, f);
        proof {
            lemma_walk_matched(
                faces@,
                cut@,
                keys@,
                lists0,
                adj0,
                f as int,
                k as int,
                q as int,
                p as int,
                lists@,
                adj1,
                adj@,
            );
            let next = greedy_pairing(faces@, cut@, 3 * f + k + 1);
            let waiting = pending_of(state.0, key);
            assert(lists0[q as int]@ == waiting);
            lemma_first_walk(waiting, r, p as int);
            assert forall|j: int| 0 <= j < keys@.len() implies (#[trigger] lists@[j])@ == pending_of(next.0, keys@[j]) by {
                if j != q {
                    assert(keys@[j] != key);
                }
            }
            assert forall|a: int| 0 <= a < adj@.len() implies (#[trigger] adj@[a])@ == next.1[a] by {}            assert forall|other: [usize; 2]| !keys@.contains(other) implies #[trigger] pending_of(next.0, other)
                == Seq::<([usize; 2], usize)>::empty() by {
                assert(keys@[q as int] == key);
                assert(other != key);
                assert(pending_of(state.0, other) == Seq::<([usize; 2], usize)>::empty());
                assert(next.0.contains_key(other) == state.0.contains_key(other));
            }
        }
    } else {
        let ghost lists0 = lists@;
        store_walk(lists, q, (e, f));
        proof {
            lemma_walk_stored(faces@, cut@, keys@, lists0, adj@, f as int, k as int, q as int, lists@);
            let next = greedy_pairing(faces@, cut@, 3 * f + k + 1);
            let waiting = pending_of(state.0, key);
            assert(lists0[q as int]@ == waiting);
            lemma_first_walk(waiting, r, p as int);
            assert forall|j: int| 0 <= j < keys@.len() implies (#[trigger] lists@[j])@ == pending_of(next.0, keys@[j]) by {
                if j != q {
                    assert(keys@[j] != key);
                }
            }
            assert forall|other: [usize; 2]| !keys@.contains(other) implies #[trigger] pending_of(next.0, other)
                == Seq::<([usize; 2], usize)>::empty() by {
                assert(keys@[q as int] == key);
                assert(other != key);
                assert(pending_of(state.0, other) == Seq::<([usize; 2], usize)>::empty());
                assert(next.0.contains_key(other) == state.0.contains_key(other));
            }
        }
    }
}

/// Links each face to the faces across its uncut edges: a corner is paired
/// with the first stored walk of its edge the other way, which is then
/// dropped as `swap_remove` drops it, or is stored to wait for one.
pub fn face_adjacency(faces: &Vec<[usize; 3]>, cut: &Vec<[usize; 2]>) -> (adj: Vec<Vec<usize>>)
    ensures
        adjacency_ok(faces@, cut@, adj@),
        adj@.len() == faces@.len(),
        forall|a: int| 0 <= a < faces@.len() ==> (#[trigger] adj@[a])@ == greedy_adjacency(faces@, cut@)[a],
{
    let n = faces.len();
    let mut adj: Vec<Vec<usize>> = Vec::new();
    let mut i: usize = 0;
    while i < n
        invariant
            n == faces@.len(),
            i <= n,
            adj@.len() == i,
            forall|a: int| 0 <= a < i ==> (#[trigger] adj@[a])@.len() == 0,
        decreases n - i,
    {
        adj.push(Vec::new());
        i += 1;
    }
    let mut keys: Vec<[usize; 2]> = Vec::new();
    let mut lists: Vec<Vec<([usize; 2], usize)>> = Vec::new();
    proof {
        lemma_pairing_start(faces@, cut@, adj@);
        assert(keys@ == Seq::<[usize; 2]>::empty());
        assert(lists@ == Seq::<Vec<([usize; 2], usize)>>::empty());
        assert forall|a: int| 0 <= a < adj@.len() implies (#[trigger] adj@[a])@ == greedy_pairing(faces@, cut@, 0).1[a] by {
            assert(adj@[a]@ =~= Seq::<usize>::empty());
        }
        assert(holds_pairing(keys@, lists@, adj@, greedy_pairing(faces@, cut@, 0)));
    }
    let mut f: usize = 0;
    while f < n
        invariant
            n == faces@.len(),
            f <= n,
            pairing_state(faces@, cut@, keys@, lists@, adj@, f as int, 0),
            holds_pairing(keys@, lists@, adj@, greedy_pairing(faces@, cut@, 3 * f)),
        decreases n - f,
    {
        let mut k: usize = 0;
        while k < 3
            invariant
                n == faces@.len(),
                f < n,
                k <= 3,
                pairing_state(faces@, cut@, keys@, lists@, adj@, f as int, k as int),
                holds_pairing(keys@, lists@, adj@, greedy_pairing(faces@, cut@, 3 * f + k)),
            decreases 3 - k,
        {
            record_walk(faces, cut, &mut keys, &mut lists, &mut adj, f, k);
            k += 1;
        }
        proof {
            lemma_pairing_next_face(faces@, cut@, keys@, lists@, adj@, f as int);
        }
        f += 1;
    }
    proof {
        lemma_pairing_end(faces@, cut@, keys@, lists@, adj@);
    }
    adj
}

/// The face at position `t` of `s` is linked from an earlier face of `s`.
pub open spec fn linked_from_earlier(adj: Seq<Vec<usize>>, s: Seq<usize>, t: int) -> bool {
    exists|q: int| 0 <= q < t && #[trigger] adj[s[q] as int]@.contains(s[t])
}

/// Whether face `x` lies in one of the first `upto` components.
pub open spec fn in_components(comps: Seq<Vec<usize>>, upto: int, x: usize) -> bool {
    exists|d: int| 0 <= d < upto && #[trigger] comps[d]@.contains(x)
}

/// The adjacency links faces below its length, both ways.
pub open spec fn adjacency_symmetric(adj: Seq<Vec<usize>>) -> bool {
    forall|a: int, b: usize|
        0 <= a < adj.len() && #[trigger] adj[a]@.contains(b) ==> b < adj.len() && adj[b as int]@.contains(
            a as usize,
        )
}

/// The components of the graph `adj`, in order of their smallest face: they
/// split the faces, none is empty, each is closed under the links, each face
/// after the first is linked from an earlier face of its component, and each
/// component starts at the smallest face not in an earlier one.
pub open spec fn components_ok(adj: Seq<Vec<usize>>, comps: Seq<Vec<usize>>) -> bool {
    &&& forall|c: int| 0 <= c < comps.len() ==> (#[trigger] comps[c])@.len() > 0
    &&& forall|c: int, p: int| 0 <= c < comps.len() && 0 <= p < comps[c]@.len() ==> (#[trigger] comps[c]@[p])
        < adj.len()
    &&& forall|x: usize| x < adj.len() ==> in_components(comps, comps.len() as int, x)
    &&& forall|c1: int, p1: int, c2: int, p2: int|
        0 <= c1 < comps.len() && 0 <= c2 < comps.len() && 0 <= p1 < comps[c1]@.len() && 0 <= p2
            < comps[c2]@.len() && #[trigger] comps[c1]@[p1] == #[trigger] comps[c2]@[p2] ==> c1 == c2 && p1 == p2
    &&& forall|c: int, p: int, b: usize|
        0 <= c < comps.len() && 0 <= p < comps[c]@.len() && #[trigger] adj[comps[c]@[p] as int]@.contains(b)
            ==> comps[c]@.contains(b)
    &&& forall|c: int, p: int|
        0 <= c < comps.len() && 0 < p < comps[c]@.len() ==> #[trigger] linked_from_earlier(adj, comps[c]@, p)
    &&& forall|c: int, x: usize|
        0 <= c < comps.len() && x < comps[c]@[0] ==> in_components(comps, c, x)
}

/// Everything `components_ok` asks but covering every face, with `seen`
/// marking the faces already placed.
pub open spec fn components_so_far(
    adj: Seq<Vec<usize>>,
    comps: Seq<Vec<usize>>,
    seen: Seq<bool>,
) -> bool {
    &&& seen.len() == adj.len()
    &&& forall|x: usize| x < adj.len() ==> (#[trigger] seen[x as int] <==> in_components(comps, comps.len() as int, x))
    &&& forall|c: int| 0 <= c < comps.len() ==> (#[trigger] comps[c])@.len() > 0
    &&& forall|c: int, p: int| 0 <= c < comps.len() && 0 <= p < comps[c]@.len() ==> (#[trigger] comps[c]@[p])
        < adj.len()
    &&& forall|c1: int, p1: int, c2: int, p2: int|
        0 <= c1 < comps.len() && 0 <= c2 < comps.len() && 0 <= p1 < comps[c1]@.len() && 0 <= p2
            < comps[c2]@.len() && #[trigger] comps[c1]@[p1] == #[trigger] comps[c2]@[p2] ==> c1 == c2 && p1 == p2
    &&& forall|c: int, p: int, b: usize|
        0 <= c < comps.len() && 0 <= p < comps[c]@.len() && #[trigger] adj[comps[c]@[p] as int]@.contains(b)
            ==> comps[c]@.contains(b)
    &&& forall|c: int, p: int|
        0 <= c < comps.len() && 0 < p < comps[c]@.len() ==> #[trigger] linked_from_earlier(adj, comps[c]@, p)
    &&& forall|c: int, x: usize|
        0 <= c < comps.len() && x < comps[c]@[0] ==> in_components(comps, c, x)
}

/// Face `s[t]` is first linked from position `q` of `s`, as entry `u` of
/// that face's links: no earlier face of `s` links it, and no earlier
/// entry of those links is it.
pub open spec fn first_link(adj: Seq<Vec<usize>>, s: Seq<usize>, t: int, q: int, u: int) -> bool {
    &&& 0 <= q < t < s.len()
    &&& 0 <= u < adj[s[q] as int]@.len()
    &&& adj[s[q] as int]@[u] == s[t]
    &&& forall|q2: int| 0 <= q2 < q ==> !(#[trigger] adj[s[q2] as int]@.contains(s[t]))
    &&& forall|u2: int| 0 <= u2 < u ==> #[trigger] adj[s[q] as int]@[u2] != s[t]
}

/// Face `s[t]` is first linked from somewhere before it in `s`.
pub open spec fn first_linked(adj: Seq<Vec<usize>>, s: Seq<usize>, t: int) -> bool {
    exists|q: int, u: int| #[trigger] first_link(adj, s, t, q, u)
}

/// `s` is in breadth-first order over `adj`: each face after the first is
/// first linked from an earlier one, and the faces come in the order of
/// where they are first linked from, the link's place among that face's
/// links breaking ties.
pub open spec fn bfs_order(adj: Seq<Vec<usize>>, s: Seq<usize>) -> bool {
    &&& forall|t: int| 0 < t < s.len() ==> #[trigger] first_linked(adj, s, t)
    &&& forall|t1: int, q1: int, u1: int, t2: int, q2: int, u2: int|
        t1 < t2 && #[trigger] first_link(adj, s, t1, q1, u1) && #[trigger] first_link(adj, s, t2, q2, u2) ==> q1 < q2 || (q1
            == q2 && u1 < u2)
}

/// The walk has taken the links of the faces before position `head` and the
/// first `k` links of the face at `head`.
pub open spec fn bfs_progress(adj: Seq<Vec<usize>>, s: Seq<usize>, head: int, k: int) -> bool {
    &&& bfs_order(adj, s)
    &&& forall|t: int, q: int, u: int| #[trigger] first_link(adj, s, t, q, u) ==> q < head || (q == head && u < k)
}

proof fn lemma_first_link_push(adj: Seq<Vec<usize>>, s: Seq<usize>, b: usize, t: int, q: int, u: int)
    requires
        t < s.len(),
    ensures
        first_link(adj, s.push(b), t, q, u) == first_link(adj, s, t, q, u),
{
    let s2 = s.push(b);
    if 0 <= q < t && t < s.len() {
        assert(s2[t] == s[t]);
        assert(s2[q] == s[q]);
        assert forall|q2: int| 0 <= q2 < q implies s2[q2] == s[q2] by {}
    }
}

proof fn lemma_bfs_push(adj: Seq<Vec<usize>>, s: Seq<usize>, head: int, k: int, b: usize, seen: Seq<bool>)
    requires
        0 <= head < s.len(),
        0 <= k < adj[s[head] as int]@.len(),
        adj[s[head] as int]@[k] == b,
        !seen[b as int],
        forall|t: int, c: usize| 0 <= t < head && #[trigger] adj[s[t] as int]@.contains(c) ==> seen[c as int],
        forall|u: int| 0 <= u < k ==> #[trigger] seen[adj[s[head] as int]@[u] as int],
        bfs_progress(adj, s, head, k),
    ensures
        bfs_progress(adj, s.push(b), head, k + 1),
{
    let s2 = s.push(b);
    let l = s.len() as int;
    assert(s2[l] == b);
    assert(s2[head] == s[head]);
    assert forall|t: int, q: int, u: int| #[trigger] first_link(adj, s2, t, q, u) implies (t < l && first_link(adj, s, t, q, u)) || (t
        == l && q == head && u == k) by {
        if t < l {
            lemma_first_link_push(adj, s, b, t, q, u);
        } else {
            assert(s2[q] == s[q]);
            if q < head {
                assert(adj[s[q] as int]@.contains(b));
            } else if q > head {
                assert(adj[s2[head] as int]@.contains(b));
            } else if u < k {
                assert(seen[adj[s[head] as int]@[u] as int]);
            } else if u > k {
                assert(adj[s2[q] as int]@[k] != s2[t]);
            }
        }
    }
    assert(first_link(adj, s2, l, head, k)) by {
        assert forall|q2: int| 0 <= q2 < head implies !(#[trigger] adj[s2[q2] as int]@.contains(s2[l])) by {
            assert(s2[q2] == s[q2]);
            if adj[s[q2] as int]@.contains(b) {
                assert(seen[b as int]);
            }
        }
        assert forall|u2: int| 0 <= u2 < k implies #[trigger] adj[s2[head] as int]@[u2] != s2[l] by {
            assert(seen[adj[s[head] as int]@[u2] as int]);
        }
    }
    assert forall|t: int| 0 < t < s2.len() implies #[trigger] first_linked(adj, s2, t) by {
        if t < l {
            assert(first_linked(adj, s, t));
            let (q, u) = choose|q: int, u: int| #[trigger] first_link(adj, s, t, q, u);
            lemma_first_link_push(adj, s, b, t, q, u);
        }
    }
}

/// The faces reached from `start` by a breadth-first walk over `adj`, in the
/// order the walk reaches them, never entering a face already `seen`; marks
/// them seen.
fn grow_component(
    adj: &Vec<Vec<usize>>,
    seen: &mut Vec<bool>,
    start: usize,
    Ghost(comps): Ghost<Seq<Vec<usize>>>,
) -> (queue: Vec<usize>)
    requires
        adjacency_symmetric(adj@),
        components_so_far(adj@, comps, old(seen)@),
        start < adj@.len(),
        !old(seen)@[start as int],
    ensures
        queue@.len() > 0,
        queue@[0] == start,
        queue@.no_duplicates(),
        forall|t: int| 0 <= t < queue@.len() ==> #[trigger] queue@[t] < adj@.len() && !old(seen)@[queue@[t] as int],
        forall|t: int, b: usize|
            0 <= t < queue@.len() && #[trigger] adj@[queue@[t] as int]@.contains(b) ==> queue@.contains(b),
        forall|t: int| 0 < t < queue@.len() ==> #[trigger] linked_from_earlier(adj@, queue@, t),
        bfs_order(adj@, queue@),
        final(seen)@.len() == old(seen)@.len(),
        forall|x: usize| x < adj@.len() ==> (#[trigger] final(seen)@[x as int] <==> (old(seen)@[x as int] || queue@.contains(x))),
{
    let n = adj.len();
    let ghost seen0 = seen@;
    let mut queue: Vec<usize> = Vec::new();
    queue.push(start);
    seen.set(start, true);
    let mut head: usize = 0;
    assert(queue@[0] == start);
    while head < queue.len()
        invariant
            n == adj@.len(),
            adjacency_symmetric(adj@),
            seen@.len() == n,
            seen0.len() == n,
            queue@.len() > 0,
            queue@[0] == start,
            head <= queue@.len(),
            queue@.len() <= n,
            queue@.no_duplicates(),
            forall|t: int| 0 <= t < queue@.len() ==> #[trigger] queue@[t] < n && !seen0[queue@[t] as int],
            forall|x: usize| x < n ==> (#[trigger] seen@[x as int] <==> (seen0[x as int] || queue@.contains(x))),
            forall|t: int, b: usize| 0 <= t < head && #[trigger] adj@[queue@[t] as int]@.contains(b) ==> seen@[b as int],
            forall|t: int| 0 < t < queue@.len() ==> #[trigger] linked_from_earlier(adj@, queue@, t),
            bfs_progress(adj@, queue@, head as int, 0),
        decreases n - queue@.len(), queue@.len() - head,
    {
        let face = queue[head];
        let list = &adj[face];
        let ghost len0 = queue@.len();
        let mut k: usize = 0;
        while k < list.len()
            invariant
                queue@.len() >= len0,
                n == adj@.len(),
                adjacency_symmetric(adj@),
                list == &adj@[face as int],
                face == queue@[head as int],
                head < queue@.len(),
                seen@.len() == n,
                seen0.len() == n,
                queue@.len() > 0,
                queue@[0] == start,
                queue@.len() <= n,
                queue@.no_duplicates(),
                k <= list@.len(),
                forall|t: int| 0 <= t < queue@.len() ==> #[trigger] queue@[t] < n && !seen0[queue@[t] as int],
                forall|x: usize| x < n ==> (#[trigger] seen@[x as int] <==> (seen0[x as int] || queue@.contains(x))),
                forall|t: int, b: usize| 0 <= t < head && #[trigger] adj@[queue@[t] as int]@.contains(b) ==> seen@[b as int],
                forall|u: int| 0 <= u < k ==> #[trigger] seen@[list@[u] as int],
                forall|t: int| 0 < t < queue@.len() ==> #[trigger] linked_from_earlier(adj@, queue@, t),
                bfs_progress(adj@, queue@, head as int, k as int),
            decreases list.len() - k,
        {
            let b = list[k];
            assert(adj@[face as int]@.contains(b)) by {
                assert(list@[k as int] == b);
            }
            if !seen[b] {
                proof {
                    assert forall|t: int| 0 <= t < queue@.len() implies #[trigger] queue@[t] < n && queue@[t] != b by {
                        assert(seen@[queue@[t] as int]);
                    }
                    crate::exact_classify::orientation_flip::lemma_queue_bound(queue@, n as int, b);
                }
                let ghost q0 = queue@;
                let ghost s0 = seen@;
                proof {
                    lemma_bfs_push(adj@, q0, head as int, k as int, b, s0);
                }
                seen.set(b, true);
                queue.push(b);
                proof {
                    assert(queue@.no_duplicates()) by {
                        assert forall|x: int, y: int| 0 <= x < y < queue@.len() implies queue@[x] != queue@[y] by {
                            if y == q0.len() {
                                assert(s0[q0[x] as int]);
                            }
                        }
                    }
                    assert forall|x: usize| x < n implies (#[trigger] seen@[x as int] <==> (seen0[x as int]
                        || queue@.contains(x))) by {
                        if x == b {
                            assert(queue@[q0.len() as int] == b);
                        } else {
                            if q0.contains(x) {
                                let t = choose|t: int| 0 <= t < q0.len() && q0[t] == x;
                                assert(queue@[t] == x);
                            }
                            if queue@.contains(x) {
                                let t = choose|t: int| 0 <= t < queue@.len() && queue@[t] == x;
                                assert(q0[t] == x);
                            }
                        }
                    }
                    assert forall|t: int| 0 < t < queue@.len() implies #[trigger] linked_from_earlier(adj@, queue@, t) by {
                        if t == q0.len() {
                            assert(queue@[head as int] == face);
                            assert(adj@[queue@[head as int] as int]@.contains(queue@[t]));
                        } else {
                            assert(linked_from_earlier(adj@, q0, t));
                            let q = choose|q: int| 0 <= q < t && #[trigger] adj@[q0[q] as int]@.contains(q0[t]);
                            assert(queue@[q] == q0[q]);
                            assert(queue@[t] == q0[t]);
                            assert(adj@[queue@[q] as int]@.contains(queue@[t]));
                        }
                    }
                    assert forall|t: int| 0 <= t < queue@.len() implies #[trigger] queue@[t] < n && !seen0[queue@[t] as int] by {
                        if t < q0.len() {
                            assert(queue@[t] == q0[t]);
                        }
                    }
                    assert forall|t: int, c: usize| 0 <= t < head && #[trigger] adj@[queue@[t] as int]@.contains(c) implies seen@[c as int] by {
                        assert(queue@[t] == q0[t]);
                        assert(s0[c as int]);
                    }
                    assert forall|u: int| 0 <= u < k + 1 implies #[trigger] seen@[list@[u] as int] by {
                        if u < k {
                            assert(s0[list@[u] as int]);
                            assert(adj@[face as int]@.contains(list@[u]));
                        }
                    }
                }
            }
            k += 1;
        }
        proof {
            assert forall|t: int, c: usize| 0 <= t < head + 1 && #[trigger] adj@[queue@[t] as int]@.contains(c) implies seen@[c as int] by {
                if t == head {
                    let u = choose|u: int| 0 <= u < list@.len() && list@[u] == c;
                }
            }
        }
        head += 1;
    }
    proof {
        assert forall|t: int, b: usize|
            0 <= t < queue@.len() && #[trigger] adj@[queue@[t] as int]@.contains(b) implies queue@.contains(b) by {
            assert(seen@[b as int]);
            if !queue@.contains(b) {
                assert(seen0[b as int]);
                assert(in_components(comps, comps.len() as int, b));
                let d = choose|d: int| 0 <= d < comps.len() && #[trigger] comps[d]@.contains(b);
                let pb = choose|pb: int| 0 <= pb < comps[d]@.len() && comps[d]@[pb] == b;
                assert(adj@[b as int]@.contains(queue@[t]));
                assert(adj@[comps[d]@[pb] as int]@.contains(queue@[t]));
                assert(comps[d]@.contains(queue@[t]));
                assert(in_components(comps, comps.len() as int, queue@[t]));
                assert(seen0[queue@[t] as int]);
            }
        }
    }
    queue
}

/// Adding the faces reached from the smallest unplaced face as the next
/// component keeps the components in order.
proof fn lemma_add_component(
    adj: Seq<Vec<usize>>,
    comps: Seq<Vec<usize>>,
    seen: Seq<bool>,
    seen2: Seq<bool>,
    queue: Vec<usize>,
    start: usize,
)
    requires
        components_so_far(adj, comps, seen),
        start < adj.len(),
        !seen[start as int],
        forall|x: usize| x < start ==> #[trigger] seen[x as int],
        queue@.len() > 0,
        queue@[0] == start,
        queue@.no_duplicates(),
        forall|t: int| 0 <= t < queue@.len() ==> #[trigger] queue@[t] < adj.len() && !seen[queue@[t] as int],
        forall|t: int, b: usize| 0 <= t < queue@.len() && #[trigger] adj[queue@[t] as int]@.contains(b) ==> queue@.contains(b),
        forall|t: int| 0 < t < queue@.len() ==> #[trigger] linked_from_earlier(adj, queue@, t),
        seen2.len() == seen.len(),
        forall|x: usize| x < adj.len() ==> (#[trigger] seen2[x as int] <==> (seen[x as int] || queue@.contains(x))),
    ensures
        components_so_far(adj, comps.push(queue), seen2),
        forall|x: usize| x <= start ==> #[trigger] seen2[x as int],
{
    let c2 = comps.push(queue);
    let last = comps.len() as int;
    assert(c2[last] == queue);
    assert forall|x: usize| x < adj.len() implies (#[trigger] seen2[x as int] <==> in_components(
        c2,
        c2.len() as int,
        x,
    )) by {
        if seen[x as int] {
            let d = choose|d: int| 0 <= d < comps.len() && #[trigger] comps[d]@.contains(x);
            assert(c2[d] == comps[d]);
        }
        if queue@.contains(x) {
            assert(c2[last]@.contains(x));
        }
        if in_components(c2, c2.len() as int, x) {
            let d = choose|d: int| 0 <= d < c2.len() && #[trigger] c2[d]@.contains(x);
            if d < last {
                assert(comps[d]@.contains(x));
                assert(in_components(comps, comps.len() as int, x));
            }
        }
    }
    assert forall|c: int, p: int| 0 <= c < c2.len() && 0 <= p < c2[c]@.len() implies (#[trigger] c2[c]@[p])
        < adj.len() by {
        if c < last {
            assert(c2[c] == comps[c]);
        }
    }
    assert forall|c1: int, p1: int, c2i: int, p2: int|
        0 <= c1 < c2.len() && 0 <= c2i < c2.len() && 0 <= p1 < c2[c1]@.len() && 0 <= p2 < c2[c2i]@.len()
            && #[trigger] c2[c1]@[p1] == #[trigger] c2[c2i]@[p2] implies c1 == c2i && p1 == p2 by {
        if c1 < last && c2i < last {
            assert(c2[c1] == comps[c1]);
            assert(c2[c2i] == comps[c2i]);
            assert(comps[c1]@[p1] == comps[c2i]@[p2]);
        } else if c1 == last && c2i == last {
        } else if c1 == last {
            assert(c2[c2i] == comps[c2i]);
            assert(comps[c2i]@.contains(comps[c2i]@[p2]));
            assert(in_components(comps, comps.len() as int, queue@[p1]));
            assert(!seen[queue@[p1] as int]);
        } else {
            assert(c2[c1] == comps[c1]);
            assert(comps[c1]@.contains(comps[c1]@[p1]));
            assert(in_components(comps, comps.len() as int, queue@[p2]));
            assert(!seen[queue@[p2] as int]);
        }
    }
    assert forall|c: int, p: int, b: usize|
        0 <= c < c2.len() && 0 <= p < c2[c]@.len() && #[trigger] adj[c2[c]@[p] as int]@.contains(b)
            implies c2[c]@.contains(b) by {
        if c < last {
            assert(c2[c] == comps[c]);
        }
    }
    assert forall|c: int, p: int| 0 <= c < c2.len() && 0 < p < c2[c]@.len() implies #[trigger] linked_from_earlier(
        adj,
        c2[c]@,
        p,
    ) by {
        if c < last {
            assert(c2[c] == comps[c]);
        }
    }
    assert forall|c: int, x: usize| 0 <= c < c2.len() && x < c2[c]@[0] implies in_components(c2, c, x) by {
        if c < last {
            assert(c2[c] == comps[c]);
            assert(in_components(comps, c, x));
            let d = choose|d: int| 0 <= d < c && #[trigger] comps[d]@.contains(x);
            assert(c2[d] == comps[d]);
        } else {
            assert(seen[x as int]);
            let d = choose|d: int| 0 <= d < comps.len() && #[trigger] comps[d]@.contains(x);
            assert(c2[d] == comps[d]);
        }
    }
    assert forall|c: int| 0 <= c < c2.len() implies (#[trigger] c2[c])@.len() > 0 by {
        if c < last {
            assert(c2[c] == comps[c]);
        }
    }
    assert forall|x: usize| x <= start implies #[trigger] seen2[x as int] by {
        if x == start {
            assert(queue@[0] == x);
        }
    }
}

/// The components of the graph `adj`, each listed in the order a
/// breadth-first walk from its smallest face reaches it.
pub fn components_of_adjacency(adj: &Vec<Vec<usize>>) -> (comps: Vec<Vec<usize>>)
    requires
        adjacency_symmetric(adj@),
    ensures
        components_ok(adj@, comps@),
        forall|c: int| 0 <= c < comps@.len() ==> bfs_order(adj@, #[trigger] comps@[c]@),
{
    let n = adj.len();
    let mut seen: Vec<bool> = Vec::new();
    let mut i: usize = 0;
    while i < n
        invariant
            i <= n,
            seen@.len() == i,
            forall|x: int| 0 <= x < i ==> !(#[trigger] seen@[x]),
        decreases n - i,
    {
        seen.push(false);
        i += 1;
    }
    let mut comps: Vec<Vec<usize>> = Vec::new();
    let mut start: usize = 0;
    while start < n
        invariant
            n == adj@.len(),
            adjacency_symmetric(adj@),
            start <= n,
            components_so_far(adj@, comps@, seen@),
            forall|x: usize| x < start ==> #[trigger] seen@[x as int],
            forall|c: int| 0 <= c < comps@.len() ==> bfs_order(adj@, #[trigger] comps@[c]@),
        decreases n - start,
    {
        if !seen[start] {
            let ghost seen0 = seen@;
            let queue = grow_component(adj, &mut seen, start, Ghost(comps@));
            proof {
                lemma_add_component(adj@, comps@, seen0, seen@, queue, start);
            }
            comps.push(queue);
        }
        start += 1;
    }
    proof {
        assert forall|x: usize| x < adj@.len() implies in_components(comps@, comps@.len() as int, x) by {
            assert(seen@[x as int]);
        }
    }
    comps
}

/// The faces of `faces` split into components across the edges that are not
/// cut: faces are linked by the greedy pairing of `face_adjacency`, and the
/// components are those of `components_of_adjacency`, each in breadth-first
/// order from its smallest face.
pub fn connected_components_excluding_cut_edges(
    faces: &Vec<[usize; 3]>,
    cut_edges: &Vec<[usize; 2]>,
) -> (comps: Vec<Vec<usize>>)
    ensures
        exists|adj: Seq<Vec<usize>>|
            #![trigger components_ok(adj, comps@)]
            {
                &&& adj.len() == faces@.len()
                &&& forall|a: int| 0 <= a < faces@.len() ==> (#[trigger] adj[a])@ == greedy_adjacency(faces@, cut_edges@)[a]
                &&& adjacency_ok(faces@, cut_edges@, adj)
                &&& components_ok(adj, comps@)
                &&& forall|c: int| 0 <= c < comps@.len() ==> bfs_order(adj, #[trigger] comps@[c]@)
            },
        faces@.len() == 0 ==> comps@.len() == 0,
{
    if faces.len() == 0 {
        let comps: Vec<Vec<usize>> = Vec::new();
        proof {
            let adj = Seq::<Vec<usize>>::empty();
            assert(adjacency_ok(faces@, cut_edges@, adj));
            assert(components_ok(adj, comps@));
        }
        return comps;
    }
    let adj = face_adjacency(faces, cut_edges);
    let comps = components_of_adjacency(&adj);
    comps
}

/// The undirected edges of all cut paths, each once, in ascending order.
pub fn cut_path_edges(cut_edge_paths: &Vec<Vec<[usize; 2]>>) -> (out: Vec<[usize; 2]>)
    ensures
        edges_increasing(out@),
        forall|key: [usize; 2]|
            out@.contains(key) <==> exists|i: int, j: int|
                0 <= i < cut_edge_paths@.len() && 0 <= j < cut_edge_paths@[i]@.len() && spec_ordered(
                    #[trigger] cut_edge_paths@[i]@[j],
                ) == key,
{
    let mut out: Vec<[usize; 2]> = Vec::new();
    let mut i: usize = 0;
    while i < cut_edge_paths.len()
        invariant
            i <= cut_edge_paths@.len(),
            edges_increasing(out@),
            forall|key: [usize; 2]|
                out@.contains(key) <==> exists|a: int, b: int|
                    0 <= a < i && 0 <= b < cut_edge_paths@[a]@.len() && spec_ordered(
                        #[trigger] cut_edge_paths@[a]@[b],
                    ) == key,
        decreases cut_edge_paths@.len() - i,
    {
        let path = &cut_edge_paths[i];
        let mut j: usize = 0;
        while j < path.len()
            invariant
                i < cut_edge_paths@.len(),
                path == &cut_edge_paths@[i as int],
                j <= path@.len(),
                edges_increasing(out@),
                forall|key: [usize; 2]|
                    out@.contains(key) <==> (exists|a: int, b: int|
                        0 <= a < i && 0 <= b < cut_edge_paths@[a]@.len() && spec_ordered(
                            #[trigger] cut_edge_paths@[a]@[b],
                        ) == key) || (exists|b: int| 0 <= b < j && spec_ordered(#[trigger] path@[b]) == key),
            decreases path@.len() - j,
        {
            let ghost before = out@;
            let key = ordered_edge(path[j]);
            insert_sorted_edge(&mut out, key);
            proof {
                assert forall|k2: [usize; 2]|
                    out@.contains(k2) <==> (exists|a: int, b: int|
                        0 <= a < i && 0 <= b < cut_edge_paths@[a]@.len() && spec_ordered(
                            #[trigger] cut_edge_paths@[a]@[b],
                        ) == k2) || (exists|b: int| 0 <= b < j + 1 && spec_ordered(#[trigger] path@[b]) == k2) by {
                    assert(out@.contains(k2) <==> out@.to_set().contains(k2));
                    assert(before.contains(k2) <==> before.to_set().contains(k2));
                    if exists|b: int| 0 <= b < j + 1 && spec_ordered(#[trigger] path@[b]) == k2 {
                        let b = choose|b: int| 0 <= b < j + 1 && spec_ordered(#[trigger] path@[b]) == k2;
                        if b < j {
                            assert(exists|b: int| 0 <= b < j && spec_ordered(#[trigger] path@[b]) == k2);
                        }
                    }
                    if exists|b: int| 0 <= b < j && spec_ordered(#[trigger] path@[b]) == k2 {
                        let b = choose|b: int| 0 <= b < j && spec_ordered(#[trigger] path@[b]) == k2;
                        assert(exists|b: int| 0 <= b < j + 1 && spec_ordered(#[trigger] path@[b]) == k2);
                    }
                    if k2 == key {
                        assert(spec_ordered(path@[j as int]) == k2);
                    }
                }
            }
            j += 1;
        }
        proof {
            assert forall|key: [usize; 2]|
                out@.contains(key) <==> exists|a: int, b: int|
                    0 <= a < i + 1 && 0 <= b < cut_edge_paths@[a]@.len() && spec_ordered(
                        #[trigger] cut_edge_paths@[a]@[b],
                    ) == key by {
                if exists|a: int, b: int|
                    0 <= a < i + 1 && 0 <= b < cut_edge_paths@[a]@.len() && spec_ordered(
                        #[trigger] cut_edge_paths@[a]@[b],
                    ) == key {
                    let (a, b) = choose|a: int, b: int|
                        0 <= a < i + 1 && 0 <= b < cut_edge_paths@[a]@.len() && spec_ordered(
                            #[trigger] cut_edge_paths@[a]@[b],
                        ) == key;
                    if a == i {
                        assert(spec_ordered(path@[b]) == key);
                    } else {
                        assert(exists|a: int, b: int|
                            0 <= a < i && 0 <= b < cut_edge_paths@[a]@.len() && spec_ordered(
                                #[trigger] cut_edge_paths@[a]@[b],
                            ) == key);
                    }
                }
                if exists|b: int| 0 <= b < path@.len() && spec_ordered(#[trigger] path@[b]) == key {
                    let b = choose|b: int| 0 <= b < path@.len() && spec_ordered(#[trigger] path@[b]) == key;
                    assert(spec_ordered(cut_edge_paths@[i as int]@[b]) == key);
                }
                if exists|a: int, b: int|
                    0 <= a < i && 0 <= b < cut_edge_paths@[a]@.len() && spec_ordered(
                        #[trigger] cut_edge_paths@[a]@[b],
                    ) == key {
                    let (a, b) = choose|a: int, b: int|
                        0 <= a < i && 0 <= b < cut_edge_paths@[a]@.len() && spec_ordered(
                            #[trigger] cut_edge_paths@[a]@[b],
                        ) == key;
                    assert(spec_ordered(cut_edge_paths@[a]@[b]) == key);
                }
            }
        }
        i += 1;
    }
    out
}

/// Whether some edge of `edges` orders to `key`.
pub open spec fn orders_to(edges: Seq<[usize; 2]>, key: [usize; 2]) -> bool {
    exists|j: int| 0 <= j < edges.len() && spec_ordered(#[trigger] edges[j]) == key
}

/// Adds the undirected key of every edge of `edges` to the ascending set `out`.
fn extend_ordered(out: &mut Vec<[usize; 2]>, edges: &Vec<[usize; 2]>)
    requires
        edges_increasing(old(out)@),
    ensures
        edges_increasing(final(out)@),
        forall|key: [usize; 2]|
            #![trigger final(out)@.contains(key)]
            final(out)@.contains(key) <==> (old(out)@.contains(key) || orders_to(edges@, key)),
{
    let mut j: usize = 0;
    while j < edges.len()
        invariant
            j <= edges@.len(),
            edges_increasing(out@),
            forall|key: [usize; 2]|
                out@.contains(key) <==> (old(out)@.contains(key) || exists|b: int|
                    0 <= b < j && spec_ordered(#[trigger] edges@[b]) == key),
        decreases edges@.len() - j,
    {
        let ghost before = out@;
        let key = ordered_edge(edges[j]);
        insert_sorted_edge(out, key);
        proof {
            assert forall|k2: [usize; 2]|
                out@.contains(k2) <==> (old(out)@.contains(k2) || exists|b: int|
                    0 <= b < j + 1 && spec_ordered(#[trigger] edges@[b]) == k2) by {
                assert(out@.contains(k2) <==> out@.to_set().contains(k2));
                assert(before.contains(k2) <==> before.to_set().contains(k2));
                if exists|b: int| 0 <= b < j + 1 && spec_ordered(#[trigger] edges@[b]) == k2 {
                    let b = choose|b: int| 0 <= b < j + 1 && spec_ordered(#[trigger] edges@[b]) == k2;
                    if b < j {
                        assert(exists|b: int| 0 <= b < j && spec_ordered(#[trigger] edges@[b]) == k2);
                    }
                }
                if exists|b: int| 0 <= b < j && spec_ordered(#[trigger] edges@[b]) == k2 {
                    let b = choose|b: int| 0 <= b < j && spec_ordered(#[trigger] edges@[b]) == k2;
                    assert(exists|b: int| 0 <= b < j + 1 && spec_ordered(#[trigger] edges@[b]) == k2);
                }
                if k2 == key {
                    assert(spec_ordered(edges@[j as int]) == k2);
                }
            }
        }
        j += 1;
    }
}

/// The undirected keys of the base and barrier edges, each once, ascending.
pub fn component_cut_edges(
    base_edges: &Vec<[usize; 2]>,
    extra_barrier_edges: &Vec<[usize; 2]>,
) -> (out: Vec<[usize; 2]>)
    ensures
        edges_increasing(out@),
        forall|key: [usize; 2]|
            out@.contains(key) <==> (orders_to(base_edges@, key) || orders_to(extra_barrier_edges@, key)),
{
    let mut out: Vec<[usize; 2]> = Vec::new();
    extend_ordered(&mut out, base_edges);
    extend_ordered(&mut out, extra_barrier_edges);
    out
}

} // verus!
