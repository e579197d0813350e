//! Cycles in a directed graph of named nodes, found by a depth-first search.
//!
//! The search starts from every node with an edge, in the order of their names. It
//! follows the edges of a node from the last neighbour to the first, and notes a
//! cycle where an edge leads back to a node that it came through. Of several
//! cycles through the same nodes it keeps the first.

use crate::order::{lemma_sorted_texts, sort_texts, sorted_texts};
use crate::text::{add_text, contains_text, distinct_texts, lemma_distinct_texts, same, texts};
use vstd::prelude::*;

verus! {

// ── Graphs ──────────────────────────────────────────────────────────────────

/// The edges of a graph.
pub open spec fn edge_views(v: Seq<(String, String)>) -> Seq<(Seq<char>, Seq<char>)> {
    v.map_values(|e: (String, String)| (e.0@, e.1@))
}

/// Lists of names.
pub open spec fn lists(v: Seq<Vec<String>>) -> Seq<Seq<Seq<char>>> {
    v.map_values(|l: Vec<String>| texts(l@))
}

/// The nodes from which edges lead, edge by edge.
pub open spec fn sources(edges: Seq<(Seq<char>, Seq<char>)>) -> Seq<Seq<char>> {
    edges.map_values(|e: (Seq<char>, Seq<char>)| e.0)
}

/// The nodes to which edges lead, edge by edge.
pub open spec fn targets(edges: Seq<(Seq<char>, Seq<char>)>) -> Seq<Seq<char>> {
    edges.map_values(|e: (Seq<char>, Seq<char>)| e.1)
}

/// The target of an edge, if it leads from `node`.
pub open spec fn edge_from(node: Seq<char>) -> spec_fn((Seq<char>, Seq<char>)) -> Seq<Seq<char>> {
    |e: (Seq<char>, Seq<char>)|
        if e.0 == node {
            seq![e.1]
        } else {
            seq![]
        }
}

/// The neighbours of a node, each once, in the order of their names.
pub open spec fn neighbors(edges: Seq<(Seq<char>, Seq<char>)>, node: Seq<char>) -> Seq<Seq<char>> {
    sorted_texts(distinct_texts(edges.flat_map(edge_from(node))))
}

/// The nodes with an edge, each once, in the order of their names.
pub open spec fn starting_nodes(edges: Seq<(Seq<char>, Seq<char>)>) -> Seq<Seq<char>> {
    sorted_texts(distinct_texts(sources(edges)))
}

/// Whether an edge leads from place `i` of a path to the next.
pub open spec fn linked(
    edges: Seq<(Seq<char>, Seq<char>)>,
    path: Seq<Seq<char>>,
    i: int,
) -> bool {
    edges.contains((path[i], path[i + 1]))
}

/// Whether `c` is a cycle: a path along edges that ends where it began.
pub open spec fn is_cycle(edges: Seq<(Seq<char>, Seq<char>)>, c: Seq<Seq<char>>) -> bool {
    &&& c.len() >= 2
    &&& c.first() == c.last()
    &&& forall|i: int| 0 <= i < c.len() - 1 ==> #[trigger] linked(edges, c, i)
}

// ── The search ──────────────────────────────────────────────────────────────

/// Where a search stands.
pub struct Search {
    /// The nodes that are still to start from.
    pub starts: Seq<Seq<char>>,
    /// The nodes that were reached, in that order.
    pub visited: Seq<Seq<char>>,
    /// The path from the present start to the present node.
    pub stack: Seq<Seq<char>>,
    /// For each node of the path, the neighbours that are still to be followed.
    pub frames: Seq<Seq<Seq<char>>>,
    /// The cycles found so far.
    pub cycles: Seq<Seq<Seq<char>>>,
}

/// The search before its first step.
pub open spec fn start(edges: Seq<(Seq<char>, Seq<char>)>) -> Search {
    Search {
        starts: starting_nodes(edges),
        visited: seq![],
        stack: seq![],
        frames: seq![],
        cycles: seq![],
    }
}

/// Whether a search has come to its end.
pub open spec fn is_over(st: Search) -> bool {
    st.starts.len() == 0 && st.frames.len() == 0
}

/// The first place of `x` in `s`.
pub open spec fn place_of(s: Seq<Seq<char>>, x: Seq<char>) -> int
    decreases s.len(),
{
    if s.len() == 0 || s[0] == x {
        0
    } else {
        1 + place_of(s.skip(1), x)
    }
}

/// Going on to a node that was not reached before.
pub open spec fn entered(
    edges: Seq<(Seq<char>, Seq<char>)>,
    st: Search,
    node: Seq<char>,
) -> Search {
    Search {
        visited: st.visited.push(node),
        stack: st.stack.push(node),
        frames: st.frames.push(neighbors(edges, node)),
        ..st
    }
}

/// Whether a cycle through the same nodes was found before.
pub open spec fn is_known(cycles: Seq<Seq<Seq<char>>>, c: Seq<Seq<char>>) -> bool {
    exists|i: int| 0 <= i < cycles.len() && (#[trigger] cycles[i]).to_set() == c.to_set()
}

/// The cycle that an edge back to `node` closes.
pub open spec fn closed_by(stack: Seq<Seq<char>>, node: Seq<char>) -> Seq<Seq<char>> {
    stack.skip(place_of(stack, node)).push(node)
}

/// Following the edge to `node`.
pub open spec fn followed(
    edges: Seq<(Seq<char>, Seq<char>)>,
    st: Search,
    node: Seq<char>,
) -> Search {
    if st.stack.contains(node) {
        let c = closed_by(st.stack, node);
        if is_known(st.cycles, c) {
            st
        } else {
            Search { cycles: st.cycles.push(c), ..st }
        }
    } else if st.visited.contains(node) {
        st
    } else {
        entered(edges, st, node)
    }
}

/// One step of a search.
pub open spec fn step(edges: Seq<(Seq<char>, Seq<char>)>, st: Search) -> Search {
    if st.frames.len() > 0 {
        let frame = st.frames.last();
        if frame.len() == 0 {
            Search { stack: st.stack.drop_last(), frames: st.frames.drop_last(), ..st }
        } else {
            followed(
                edges,
                Search { frames: st.frames.drop_last().push(frame.drop_last()), ..st },
                frame.last(),
            )
        }
    } else if st.starts.len() > 0 {
        let rest = Search { starts: st.starts.skip(1), ..st };
        if st.visited.contains(st.starts.first()) {
            rest
        } else {
            entered(edges, rest, st.starts.first())
        }
    } else {
        st
    }
}

/// A search after `n` steps.
pub open spec fn after(edges: Seq<(Seq<char>, Seq<char>)>, n: nat) -> Search
    decreases n,
{
    if n == 0 {
        start(edges)
    } else {
        step(edges, after(edges, (n - 1) as nat))
    }
}

/// The cycles that the search finds.
pub open spec fn cycles_in(edges: Seq<(Seq<char>, Seq<char>)>) -> Seq<Seq<Seq<char>>> {
    after(edges, choose|n: nat| is_over(#[trigger] after(edges, n))).cycles
}

// ── What every step keeps ───────────────────────────────────────────────────

/// Whether a node was reached and left again.
spec fn is_left(st: Search, node: Seq<char>) -> bool {
    st.visited.contains(node) && !st.stack.contains(node)
}

/// Whether all nodes of a list were reached and left again.
spec fn all_left(st: Search, c: Seq<Seq<char>>) -> bool {
    forall|i: int| 0 <= i < c.len() ==> is_left(st, #[trigger] c[i])
}

/// Whether the edge from place `k` of the path to `t` is accounted for: it is still to
/// be followed, it is the path's own, or it led to a node that was left again.
spec fn is_accounted(st: Search, k: int, t: Seq<char>) -> bool {
    ||| st.frames[k].contains(t)
    ||| k + 1 < st.stack.len() && st.stack[k + 1] == t
    ||| is_left(st, t)
}

/// Whether a cycle passes through each of its nodes once.
pub open spec fn is_simple(c: Seq<Seq<char>>) -> bool {
    c.len() > 0 && c.drop_last().no_duplicates()
}

spec fn path_ok(edges: Seq<(Seq<char>, Seq<char>)>, st: Search) -> bool {
    &&& st.stack.len() == st.frames.len()
    &&& st.stack.no_duplicates()
    &&& st.visited.no_duplicates()
    &&& forall|x: Seq<char>| st.stack.contains(x) ==> #[trigger] st.visited.contains(x)
    &&& forall|k: int| 0 <= k < st.stack.len() - 1 ==> #[trigger] linked(edges, st.stack, k)
    &&& forall|k: int, t: Seq<char>|
        0 <= k < st.frames.len() && #[trigger] st.frames[k].contains(t) ==> edges.contains(
            (st.stack[k], t),
        )
}

spec fn nodes_ok(edges: Seq<(Seq<char>, Seq<char>)>, st: Search) -> bool {
    &&& forall|x: Seq<char>| #[trigger] st.starts.contains(x) ==> sources(edges).contains(x)
    &&& forall|x: Seq<char>| #[trigger]
        st.visited.contains(x) ==> (sources(edges) + targets(edges)).contains(x)
    &&& forall|x: Seq<char>| #[trigger]
        sources(edges).contains(x) ==> st.starts.contains(x) || st.visited.contains(x)
}

spec fn cycles_ok(edges: Seq<(Seq<char>, Seq<char>)>, st: Search) -> bool {
    &&& forall|i: int|
        0 <= i < st.cycles.len() ==> is_cycle(edges, #[trigger] st.cycles[i]) && is_simple(
            st.cycles[i],
        )
    &&& forall|i: int, j: int|
        0 <= i < j < st.cycles.len() ==> (#[trigger] st.cycles[i]).to_set() != (
        #[trigger] st.cycles[j]).to_set()
}

/// Whether one of the cycles that were found passes through a node.
spec fn is_touched(cycles: Seq<Seq<Seq<char>>>, node: Seq<char>) -> bool {
    exists|i: int| 0 <= i < cycles.len() && (#[trigger] cycles[i]).contains(node)
}

/// Whether no cycle that was found passes through any of several nodes.
spec fn none_touched(cycles: Seq<Seq<Seq<char>>>, c: Seq<Seq<char>>) -> bool {
    forall|i: int| 0 <= i < c.len() ==> !is_touched(cycles, #[trigger] c[i])
}

/// Through the nodes that were left there are no cycles but those that share a node with
/// one that was found.
spec fn complete(edges: Seq<(Seq<char>, Seq<char>)>, st: Search) -> bool {
    &&& forall|v: Seq<char>, t: Seq<char>|
        is_left(st, v) && !is_touched(st.cycles, v) && #[trigger] edges.contains((v, t))
            ==> is_left(st, t)
    &&& forall|c: Seq<Seq<char>>| #[trigger]
        is_cycle(edges, c) && none_touched(st.cycles, c) ==> !all_left(st, c)
    &&& forall|k: int, t: Seq<char>|
        0 <= k < st.stack.len() && edges.contains((st.stack[k], t)) && !is_touched(
            st.cycles,
            st.stack[k],
        ) ==> #[trigger] is_accounted(st, k, t)
}

spec fn sound(edges: Seq<(Seq<char>, Seq<char>)>, st: Search) -> bool {
    &&& path_ok(edges, st)
    &&& nodes_ok(edges, st)
    &&& cycles_ok(edges, st)
    &&& complete(edges, st)
}

proof fn lemma_place_of(s: Seq<Seq<char>>, x: Seq<char>)
    requires
        s.contains(x),
    ensures
        0 <= place_of(s, x) < s.len(),
        s[place_of(s, x)] == x,
        forall|i: int| 0 <= i < place_of(s, x) ==> s[i] != x,
    decreases s.len(),
{
    if s[0] != x {
        let i = s.index_of(x);
        assert(s.skip(1)[i - 1] == x);
        lemma_place_of(s.skip(1), x);
        assert forall|k: int| 0 <= k < place_of(s, x) implies s[k] != x by {
            if k > 0 {
                assert(s.skip(1)[k - 1] == s[k]);
            }
        }
    }
}

proof fn lemma_edges_from(edges: Seq<(Seq<char>, Seq<char>)>, node: Seq<char>, t: Seq<char>)
    ensures
        edges.flat_map(edge_from(node)).contains(t) <==> edges.contains((node, t)),
    decreases edges.len(),
{
    let f = edge_from(node);
    if edges.len() > 0 {
        let rest = edges.drop_last();
        let e = edges.last();
        lemma_edges_from(rest, node, t);
        rest.lemma_flat_map_push(f, e);
        assert(edges =~= rest.push(e));
        assert(edges.flat_map(f) == rest.flat_map(f) + f(e));
        assert(edges.contains((node, t)) <==> rest.contains((node, t)) || e == (node, t)) by {
            broadcast use vstd::seq_lib::lemma_seq_contains_after_push;

            assert(rest.push(e).contains((node, t)) <==> rest.contains((node, t)) || e == (node, t));
        }
        assert((rest.flat_map(f) + f(e)).contains(t) <==> rest.flat_map(f).contains(t) || f(
            e,
        ).contains(t)) by {
            broadcast use vstd::seq_lib::lemma_seq_concat_contains_all_elements;

        }
        if e.0 == node {
            assert(f(e) =~= seq![e.1]);
            assert(f(e)[0] == e.1);
            assert(f(e).contains(t) <==> e.1 == t);
        } else {
            assert(f(e) =~= seq![]);
        }
    } else {
        assert(edges.flat_map(f) =~= seq![]);
    }
}

proof fn lemma_neighbors(edges: Seq<(Seq<char>, Seq<char>)>, node: Seq<char>)
    ensures
        forall|t: Seq<char>| #[trigger]
            neighbors(edges, node).contains(t) <==> edges.contains((node, t)),
{
    let all = edges.flat_map(edge_from(node));
    lemma_distinct_texts(all);
    lemma_sorted_texts(distinct_texts(all));
    assert forall|t: Seq<char>| #[trigger]
        neighbors(edges, node).contains(t) <==> edges.contains((node, t)) by {
        lemma_edges_from(edges, node, t);
    }
}

proof fn lemma_edge_ends(edges: Seq<(Seq<char>, Seq<char>)>, v: Seq<char>, t: Seq<char>)
    requires
        edges.contains((v, t)),
    ensures
        sources(edges).contains(v),
        targets(edges).contains(t),
        (sources(edges) + targets(edges)).contains(v),
        (sources(edges) + targets(edges)).contains(t),
{
    let i = edges.index_of((v, t));
    assert(sources(edges)[i] == v);
    assert(targets(edges)[i] == t);
    assert((sources(edges) + targets(edges))[i] == v);
    assert((sources(edges) + targets(edges))[edges.len() + i] == t);
}

proof fn lemma_start(edges: Seq<(Seq<char>, Seq<char>)>)
    ensures
        sound(edges, start(edges)),
{
    let st = start(edges);
    lemma_distinct_texts(sources(edges));
    lemma_sorted_texts(distinct_texts(sources(edges)));
    assert forall|c: Seq<Seq<char>>| #[trigger] is_cycle(edges, c) implies !all_left(st, c) by {
        assert(!is_left(st, c[0]));
    }
}

/// `complete`, but for one edge from the end of the path, which is being followed.
spec fn complete_but(
    edges: Seq<(Seq<char>, Seq<char>)>,
    st: Search,
    node: Seq<char>,
) -> bool {
    &&& forall|v: Seq<char>, t: Seq<char>|
        is_left(st, v) && !is_touched(st.cycles, v) && #[trigger] edges.contains((v, t))
            ==> is_left(st, t)
    &&& forall|c: Seq<Seq<char>>| #[trigger]
        is_cycle(edges, c) && none_touched(st.cycles, c) ==> !all_left(st, c)
    &&& forall|k: int, t: Seq<char>|
        0 <= k < st.stack.len() && edges.contains((st.stack[k], t)) && !is_touched(
            st.cycles,
            st.stack[k],
        ) && !(k == st.stack.len() - 1 && t == node) ==> #[trigger] is_accounted(st, k, t)
}

/// `nodes_ok`, but for a node that is being entered.
spec fn nodes_but(edges: Seq<(Seq<char>, Seq<char>)>, st: Search, node: Seq<char>) -> bool {
    &&& forall|x: Seq<char>| #[trigger] st.starts.contains(x) ==> sources(edges).contains(x)
    &&& forall|x: Seq<char>| #[trigger]
        st.visited.contains(x) ==> (sources(edges) + targets(edges)).contains(x)
    &&& forall|x: Seq<char>| #[trigger]
        sources(edges).contains(x) ==> st.starts.contains(x) || st.visited.contains(x) || x == node
}

proof fn lemma_push_contains(s: Seq<Seq<char>>, x: Seq<char>)
    ensures
        forall|y: Seq<char>| #[trigger] s.push(x).contains(y) <==> s.contains(y) || y == x,
{
    broadcast use vstd::seq_lib::lemma_seq_contains_after_push;

}

proof fn lemma_entered(edges: Seq<(Seq<char>, Seq<char>)>, st: Search, node: Seq<char>)
    requires
        path_ok(edges, st),
        nodes_but(edges, st, node),
        cycles_ok(edges, st),
        complete_but(edges, st, node),
        !st.visited.contains(node),
        (sources(edges) + targets(edges)).contains(node),
        st.stack.len() > 0 ==> edges.contains((st.stack.last(), node)),
    ensures
        sound(edges, entered(edges, st, node)),
{
    let next = entered(edges, st, node);
    lemma_neighbors(edges, node);
    lemma_push_contains(st.visited, node);
    lemma_push_contains(st.stack, node);
    let n = st.stack.len() as int;
    assert(next.stack.no_duplicates()) by {
        assert(!st.stack.contains(node));
    }
    assert forall|k: int| 0 <= k < next.stack.len() - 1 implies #[trigger] linked(
        edges,
        next.stack,
        k,
    ) by {
        if k < n - 1 {
            assert(linked(edges, st.stack, k));
        }
    }
    assert forall|k: int, t: Seq<char>|
        0 <= k < next.frames.len() && #[trigger] next.frames[k].contains(t) implies edges.contains(
        (next.stack[k], t),
    ) by {
        if k < n {
            assert(st.frames[k].contains(t));
        } else {
            assert(neighbors(edges, node).contains(t));
        }
    }
    assert forall|v: Seq<char>| is_left(next, v) <==> is_left(st, v) by {}
    assert forall|c: Seq<Seq<char>>| #[trigger]
        is_cycle(edges, c) && none_touched(next.cycles, c) implies !all_left(next, c) by {
        if all_left(next, c) {
            assert forall|i: int| 0 <= i < c.len() implies is_left(st, #[trigger] c[i]) by {
                assert(is_left(next, c[i]));
            }
            assert(all_left(st, c));
        }
    }
    assert forall|k: int, t: Seq<char>|
        0 <= k < next.stack.len() && edges.contains((next.stack[k], t)) && !is_touched(
            next.cycles,
            next.stack[k],
        ) implies #[trigger] is_accounted(next, k, t) by {
        if k == n {
            assert(neighbors(edges, node).contains(t));
        } else if k == n - 1 && t == node {
            assert(next.stack[k + 1] == node);
        } else {
            assert(is_accounted(st, k, t));
        }
    }
}

proof fn lemma_closed(edges: Seq<(Seq<char>, Seq<char>)>, st: Search, node: Seq<char>)
    requires
        path_ok(edges, st),
        st.stack.contains(node),
        edges.contains((st.stack.last(), node)),
    ensures
        is_cycle(edges, closed_by(st.stack, node)),
        is_simple(closed_by(st.stack, node)),
{
    let p = place_of(st.stack, node);
    let tail = st.stack.skip(p);
    let c = closed_by(st.stack, node);
    lemma_place_of(st.stack, node);
    assert forall|i: int| 0 <= i < c.len() - 1 implies #[trigger] linked(edges, c, i) by {
        if i < tail.len() - 1 {
            assert(linked(edges, st.stack, p + i));
            assert(c[i] == st.stack[p + i]);
            assert(c[i + 1] == st.stack[p + i + 1]);
        } else {
            assert(c[i] == st.stack.last());
        }
    }
    assert(c.first() == st.stack[p]);
    assert(c.drop_last() =~= tail);
    assert(tail.no_duplicates()) by {
        assert forall|i: int, j: int| 0 <= i < tail.len() && 0 <= j < tail.len() && i != j implies tail[i]
            != tail[j] by {
            assert(tail[i] == st.stack[p + i]);
            assert(tail[j] == st.stack[p + j]);
        }
    }
}

/// The cycle that an edge closes passes through the end of the path, be it new or known.
proof fn lemma_closing_completes(edges: Seq<(Seq<char>, Seq<char>)>, st: Search, node: Seq<char>)
    requires
        st.stack.len() > 0,
        st.stack.contains(node),
        complete_but(edges, st, node),
    ensures
        complete(edges, followed(edges, st, node)),
{
    let next = followed(edges, st, node);
    let c = closed_by(st.stack, node);
    let top = st.stack.len() - 1;
    let end = st.stack[top];
    lemma_place_of(st.stack, node);
    let p = place_of(st.stack, node);
    assert(c[top - p] == end);
    assert(c.contains(end));
    assert forall|v: Seq<char>| is_touched(st.cycles, v) implies #[trigger] is_touched(
        next.cycles,
        v,
    ) by {
        let i = choose|i: int| 0 <= i < st.cycles.len() && (#[trigger] st.cycles[i]).contains(v);
        assert(next.cycles[i] == st.cycles[i]);
    }
    assert(is_touched(next.cycles, end)) by {
        if is_known(st.cycles, c) {
            let i = choose|i: int|
                0 <= i < st.cycles.len() && (#[trigger] st.cycles[i]).to_set() == c.to_set();
            assert(c.to_set().contains(end));
            assert(st.cycles[i].to_set().contains(end));
            assert(st.cycles[i].contains(end));
        } else {
            assert(next.cycles[st.cycles.len() as int] == c);
        }
    }
    assert forall|v: Seq<char>| is_left(next, v) <==> is_left(st, v) by {}
    assert forall|d: Seq<Seq<char>>| #[trigger]
        is_cycle(edges, d) && none_touched(next.cycles, d) implies !all_left(next, d) by {
        assert forall|i: int| 0 <= i < d.len() implies !is_touched(st.cycles, #[trigger] d[i]) by {
            assert(!is_touched(next.cycles, d[i]));
        }
        assert(none_touched(st.cycles, d));
        if all_left(next, d) {
            assert forall|i: int| 0 <= i < d.len() implies is_left(st, #[trigger] d[i]) by {
                assert(is_left(next, d[i]));
            }
            assert(all_left(st, d));
        }
    }
    assert forall|k: int, t: Seq<char>|
        0 <= k < next.stack.len() && edges.contains((next.stack[k], t)) && !is_touched(
            next.cycles,
            next.stack[k],
        ) implies #[trigger] is_accounted(next, k, t) by {
        assert(!is_touched(st.cycles, st.stack[k]));
        assert(is_accounted(st, k, t));
    }
}

proof fn lemma_followed(edges: Seq<(Seq<char>, Seq<char>)>, st: Search)
    requires
        sound(edges, st),
        st.frames.len() > 0,
        st.frames.last().len() > 0,
    ensures
        sound(edges, step(edges, st)),
{
    let frame = st.frames.last();
    let node = frame.last();
    let rest = frame.drop_last();
    let mid = Search { frames: st.frames.drop_last().push(rest), ..st };
    let top = st.stack.len() - 1;
    assert(st.frames[top].contains(node)) by {
        assert(frame[frame.len() - 1] == node);
    }
    assert(edges.contains((st.stack[top], node)));
    lemma_edge_ends(edges, st.stack[top], node);
    assert forall|t: Seq<char>| frame.contains(t) implies rest.contains(t) || t == node by {
        let i = frame.index_of(t);
        if i < frame.len() - 1 {
            assert(rest[i] == t);
        }
    }
    assert forall|k: int, t: Seq<char>|
        0 <= k < mid.frames.len() && #[trigger] mid.frames[k].contains(t) implies edges.contains(
        (mid.stack[k], t),
    ) by {
        if k == top {
            let i = rest.index_of(t);
            assert(frame[i] == t);
            assert(st.frames[top].contains(t));
        } else {
            assert(st.frames[k].contains(t));
        }
    }
    assert(path_ok(edges, mid));
    assert forall|v: Seq<char>| is_left(mid, v) <==> is_left(st, v) by {}
    assert forall|c: Seq<Seq<char>>| #[trigger]
        is_cycle(edges, c) && none_touched(mid.cycles, c) implies !all_left(mid, c) by {
        if all_left(mid, c) {
            assert forall|i: int| 0 <= i < c.len() implies is_left(st, #[trigger] c[i]) by {
                assert(is_left(mid, c[i]));
            }
            assert(all_left(st, c));
        }
    }
    assert forall|k: int, t: Seq<char>|
        0 <= k < mid.stack.len() && edges.contains((mid.stack[k], t)) && !is_touched(
            mid.cycles,
            mid.stack[k],
        ) && !(k == top && t == node) implies #[trigger] is_accounted(mid, k, t) by {
        assert(is_accounted(st, k, t));
    }
    assert(complete_but(edges, mid, node));
    let next = followed(edges, mid, node);
    if mid.stack.contains(node) {
        lemma_closed(edges, mid, node);
        let c = closed_by(mid.stack, node);
        if !is_known(mid.cycles, c) {
            assert forall|i: int, j: int| 0 <= i < j < next.cycles.len() implies (
            #[trigger] next.cycles[i]).to_set() != (#[trigger] next.cycles[j]).to_set() by {
                if j == mid.cycles.len() {
                    assert(mid.cycles[i].to_set() != c.to_set());
                }
            }
        }
        lemma_closing_completes(edges, mid, node);
    } else if mid.visited.contains(node) {
        assert forall|k: int, t: Seq<char>|
            0 <= k < mid.stack.len() && edges.contains((mid.stack[k], t)) && !is_touched(
                mid.cycles,
                mid.stack[k],
            ) implies #[trigger] is_accounted(mid, k, t) by {
            if k == top && t == node {
                assert(is_left(mid, node));
            }
        }
    } else {
        lemma_entered(edges, mid, node);
    }
}

/// Where all edges of a node lead to nodes that were left, no cycle passes through it
/// and nodes that were left.
proof fn lemma_no_new_cycle(
    edges: Seq<(Seq<char>, Seq<char>)>,
    st: Search,
    next: Search,
    node: Seq<char>,
    c: Seq<Seq<char>>,
)
    requires
        !is_left(st, node),
        forall|v: Seq<char>| #[trigger] is_left(next, v) ==> is_left(st, v) || v == node,
        forall|v: Seq<char>, t: Seq<char>|
            is_left(st, v) && !is_touched(st.cycles, v) && #[trigger] edges.contains((v, t))
                ==> is_left(st, t),
        !is_touched(st.cycles, node) ==> forall|t: Seq<char>| #[trigger]
            edges.contains((node, t)) ==> is_left(st, t),
        is_cycle(edges, c),
        none_touched(st.cycles, c),
        !all_left(st, c),
    ensures
        !all_left(next, c),
{
    if all_left(next, c) {
        let i = choose|i: int| 0 <= i < c.len() && !is_left(st, #[trigger] c[i]);
        assert(is_left(next, c[i]));
        assert(c[i] == node);
        let k: int = if i == c.len() - 1 {
            0
        } else {
            i
        };
        assert(c[k] == node);
        assert(!is_touched(st.cycles, c[k]));
        assert(linked(edges, c, k));
        assert(is_left(st, c[k + 1]));
        lemma_stays_left(edges, st, c, k + 1, c.len() - 1);
        assert(is_left(st, c[0]));
        lemma_stays_left(edges, st, c, 0, k);
    }
}

proof fn lemma_stays_left(
    edges: Seq<(Seq<char>, Seq<char>)>,
    st: Search,
    c: Seq<Seq<char>>,
    from: int,
    to: int,
)
    requires
        forall|v: Seq<char>, t: Seq<char>|
            is_left(st, v) && !is_touched(st.cycles, v) && #[trigger] edges.contains((v, t))
                ==> is_left(st, t),
        is_cycle(edges, c),
        none_touched(st.cycles, c),
        0 <= from <= to < c.len(),
        is_left(st, c[from]),
    ensures
        is_left(st, c[to]),
    decreases to - from,
{
    if from < to {
        assert(!is_touched(st.cycles, c[from]));
        assert(linked(edges, c, from));
        lemma_stays_left(edges, st, c, from + 1, to);
    }
}

proof fn lemma_left(edges: Seq<(Seq<char>, Seq<char>)>, st: Search)
    requires
        sound(edges, st),
        st.frames.len() > 0,
        st.frames.last().len() == 0,
    ensures
        sound(edges, step(edges, st)),
{
    let next = step(edges, st);
    let top = st.stack.len() - 1;
    let node = st.stack[top];
    assert forall|x: Seq<char>| st.stack.contains(x) <==> next.stack.contains(x) || x == node by {
        if next.stack.contains(x) {
            let i = next.stack.index_of(x);
            assert(st.stack[i] == x);
        }
        if st.stack.contains(x) && x != node {
            let i = st.stack.index_of(x);
            assert(next.stack[i] == x);
        }
    }
    assert(!next.stack.contains(node)) by {
        if next.stack.contains(node) {
            let i = next.stack.index_of(node);
            assert(st.stack[i] == node);
        }
    }
    assert(st.visited.contains(node)) by {
        assert(st.stack.contains(node));
    }
    assert forall|k: int| 0 <= k < next.stack.len() - 1 implies #[trigger] linked(
        edges,
        next.stack,
        k,
    ) by {
        assert(linked(edges, st.stack, k));
    }
    assert forall|k: int, t: Seq<char>|
        0 <= k < next.frames.len() && #[trigger] next.frames[k].contains(t) implies edges.contains(
        (next.stack[k], t),
    ) by {
        assert(st.frames[k].contains(t));
    }
    assert(path_ok(edges, next));
    assert forall|v: Seq<char>| #[trigger] is_left(next, v) <==> is_left(st, v) || v == node by {}
    assert forall|t: Seq<char>|
        !is_touched(st.cycles, node) && #[trigger] edges.contains((node, t)) implies is_left(
        st,
        t,
    ) by {
        assert(is_accounted(st, top, t));
    }
    assert forall|c: Seq<Seq<char>>| #[trigger]
        is_cycle(edges, c) && none_touched(next.cycles, c) implies !all_left(next, c) by {
        lemma_no_new_cycle(edges, st, next, node, c);
    }
    assert forall|k: int, t: Seq<char>|
        0 <= k < next.stack.len() && edges.contains((next.stack[k], t)) && !is_touched(
            next.cycles,
            next.stack[k],
        ) implies #[trigger] is_accounted(next, k, t) by {
        assert(is_accounted(st, k, t));
    }
}

proof fn lemma_begun(edges: Seq<(Seq<char>, Seq<char>)>, st: Search)
    requires
        sound(edges, st),
        st.frames.len() == 0,
        st.starts.len() > 0,
    ensures
        sound(edges, step(edges, st)),
{
    let first = st.starts.first();
    let rest = Search { starts: st.starts.skip(1), ..st };
    assert(st.starts.contains(first)) by {
        assert(st.starts[0] == first);
    }
    assert(sources(edges).contains(first));
    assert((sources(edges) + targets(edges)).contains(first)) by {
        let i = sources(edges).index_of(first);
        assert((sources(edges) + targets(edges))[i] == first);
    }
    assert forall|x: Seq<char>| #[trigger] rest.starts.contains(x) implies sources(edges).contains(
        x,
    ) by {
        let i = rest.starts.index_of(x);
        assert(st.starts[i + 1] == x);
        assert(st.starts.contains(x));
    }
    assert forall|x: Seq<char>| #[trigger] sources(edges).contains(x) && x
        != first implies rest.starts.contains(x) || st.visited.contains(x) by {
        if st.starts.contains(x) {
            let i = st.starts.index_of(x);
            assert(rest.starts[i - 1] == x);
        }
    }
    assert forall|v: Seq<char>| is_left(rest, v) <==> is_left(st, v) by {}
    assert forall|c: Seq<Seq<char>>| #[trigger]
        is_cycle(edges, c) && none_touched(rest.cycles, c) implies !all_left(rest, c) by {
        if all_left(rest, c) {
            assert forall|i: int| 0 <= i < c.len() implies is_left(st, #[trigger] c[i]) by {
                assert(is_left(rest, c[i]));
            }
            assert(all_left(st, c));
        }
    }
    if !st.visited.contains(first) {
        lemma_entered(edges, rest, first);
    }
}

proof fn lemma_step(edges: Seq<(Seq<char>, Seq<char>)>, st: Search)
    requires
        sound(edges, st),
    ensures
        sound(edges, step(edges, st)),
{
    if st.frames.len() > 0 {
        if st.frames.last().len() == 0 {
            lemma_left(edges, st);
        } else {
            lemma_followed(edges, st);
        }
    } else if st.starts.len() > 0 {
        lemma_begun(edges, st);
    }
}

proof fn lemma_after(edges: Seq<(Seq<char>, Seq<char>)>, n: nat)
    ensures
        sound(edges, after(edges, n)),
    decreases n,
{
    if n == 0 {
        lemma_start(edges);
    } else {
        lemma_after(edges, (n - 1) as nat);
        lemma_step(edges, after(edges, (n - 1) as nat));
    }
}

proof fn lemma_stays_over(edges: Seq<(Seq<char>, Seq<char>)>, m: nat, n: nat)
    requires
        is_over(after(edges, m)),
        m <= n,
    ensures
        after(edges, n) == after(edges, m),
    decreases n,
{
    if m < n {
        lemma_stays_over(edges, m, (n - 1) as nat);
    }
}

/// A search that has come to its end has found the graph's cycles.
proof fn lemma_found(edges: Seq<(Seq<char>, Seq<char>)>, n: nat)
    requires
        is_over(after(edges, n)),
    ensures
        after(edges, n).cycles == cycles_in(edges),
{
    let m = choose|m: nat| is_over(#[trigger] after(edges, m));
    if m <= n {
        lemma_stays_over(edges, m, n);
    } else {
        lemma_stays_over(edges, n, m);
    }
}

// ── The end of the search ───────────────────────────────────────────────────

/// How many neighbours are still to be followed.
spec fn pending(frames: Seq<Seq<Seq<char>>>) -> nat
    decreases frames.len(),
{
    if frames.len() == 0 {
        0
    } else {
        pending(frames.drop_last()) + frames.last().len()
    }
}

/// How many nodes there are at most, beyond those that were reached.
spec fn room(edges: Seq<(Seq<char>, Seq<char>)>, st: Search) -> int {
    2 * edges.len() - st.visited.len()
}

spec fn remaining(st: Search) -> nat {
    st.starts.len() + st.frames.len() + pending(st.frames)
}

proof fn lemma_progress(edges: Seq<(Seq<char>, Seq<char>)>, st: Search)
    requires
        sound(edges, st),
        !is_over(st),
    ensures
        0 <= room(edges, step(edges, st)) <= room(edges, st),
        room(edges, step(edges, st)) == room(edges, st) ==> remaining(step(edges, st))
            < remaining(st),
{
    let next = step(edges, st);
    lemma_step(edges, st);
    let all = sources(edges) + targets(edges);
    assert(all.len() == 2 * edges.len());
    assert(next.visited.to_set().subset_of(all.to_set())) by {
        assert forall|x: Seq<char>| next.visited.to_set().contains(
            x,
        ) implies all.to_set().contains(x) by {
            assert(next.visited.contains(x));
        }
    }
    next.visited.unique_seq_to_set();
    all.lemma_cardinality_of_set();
    vstd::set_lib::lemma_len_subset(next.visited.to_set(), all.to_set());
    if st.frames.len() > 0 {
        let frame = st.frames.last();
        if frame.len() > 0 {
            let shorter = st.frames.drop_last().push(frame.drop_last());
            assert(shorter.drop_last() =~= st.frames.drop_last());
            assert(pending(shorter) == pending(st.frames) - 1);
        }
    }
}

/// The search of every graph comes to its end.
pub proof fn law_search_ends(edges: Seq<(Seq<char>, Seq<char>)>)
    ensures
        exists|n: nat| is_over(#[trigger] after(edges, n)),
{
    lemma_after(edges, 0);
    lemma_ends_from(edges, 0);
}

proof fn lemma_ends_from(edges: Seq<(Seq<char>, Seq<char>)>, n: nat)
    requires
        sound(edges, after(edges, n)),
    ensures
        exists|m: nat| is_over(#[trigger] after(edges, m)),
    decreases room(edges, after(edges, n)), remaining(after(edges, n)),
{
    if !is_over(after(edges, n)) {
        lemma_progress(edges, after(edges, n));
        lemma_after(edges, n + 1);
        lemma_ends_from(edges, n + 1);
    }
}

// ── What is found ───────────────────────────────────────────────────────────

/// What the search finds are cycles of the graph, each of which passes through each of
/// its nodes once.
pub proof fn law_found_cycles_are_cycles(edges: Seq<(Seq<char>, Seq<char>)>, i: int)
    requires
        0 <= i < cycles_in(edges).len(),
    ensures
        is_cycle(edges, cycles_in(edges)[i]),
        is_simple(cycles_in(edges)[i]),
{
    law_search_ends(edges);
    lemma_after(edges, choose|n: nat| is_over(#[trigger] after(edges, n)));
}

/// No two cycles that the search finds pass through the same nodes.
pub proof fn law_found_cycles_differ(edges: Seq<(Seq<char>, Seq<char>)>, i: int, j: int)
    requires
        0 <= i < j < cycles_in(edges).len(),
    ensures
        cycles_in(edges)[i].to_set() != cycles_in(edges)[j].to_set(),
{
    law_search_ends(edges);
    lemma_after(edges, choose|n: nat| is_over(#[trigger] after(edges, n)));
}

/// Of each cycle of the graph the search finds at least a part: it finds a cycle that
/// passes through one of its nodes.
pub proof fn law_cycles_are_found(edges: Seq<(Seq<char>, Seq<char>)>, c: Seq<Seq<char>>)
    requires
        is_cycle(edges, c),
    ensures
        cycles_in(edges).len() > 0,
        exists|i: int, j: int|
            0 <= i < cycles_in(edges).len() && 0 <= j < c.len() && (#[trigger] cycles_in(
                edges,
            )[i]).contains(#[trigger] c[j]),
{
    law_search_ends(edges);
    let n = choose|n: nat| is_over(#[trigger] after(edges, n));
    let st = after(edges, n);
    lemma_after(edges, n);
    assert forall|i: int| 0 <= i < c.len() implies is_left(st, #[trigger] c[i]) by {
        let k: int = if i == c.len() - 1 {
            0
        } else {
            i
        };
        assert(linked(edges, c, k));
        lemma_edge_ends(edges, c[k], c[k + 1]);
        assert(st.visited.contains(c[k]));
    }
    assert(all_left(st, c));
    assert(!none_touched(st.cycles, c));
    let j = choose|j: int| 0 <= j < c.len() && is_touched(st.cycles, #[trigger] c[j]);
    let i = choose|i: int| 0 <= i < st.cycles.len() && (#[trigger] st.cycles[i]).contains(c[j]);
    assert(cycles_in(edges)[i].contains(c[j]));
}

/// A graph without edges has no cycles.
pub proof fn law_no_edges_no_cycles()
    ensures
        cycles_in(Seq::<(Seq<char>, Seq<char>)>::empty()) == Seq::<Seq<Seq<char>>>::empty(),
{
    let edges = Seq::<(Seq<char>, Seq<char>)>::empty();
    assert(sources(edges) =~= seq![]);
    assert(is_over(after(edges, 0)));
    lemma_found(edges, 0);
}

// ── Searching ───────────────────────────────────────────────────────────────

/// The neighbours of a node, each once, in the order of their names.
fn neighbors_of(edges: &Vec<(String, String)>, node: &str) -> (r: Vec<String>)
    ensures
        texts(r@) == neighbors(edge_views(edges@), node@),
{
    let ghost all = edge_views(edges@);
    let ghost f = edge_from(node@);
    let mut out: Vec<String> = Vec::new();
    let mut i: usize = 0;
    assert(texts(out@) =~= distinct_texts(all.take(0).flat_map(f)));
    while i < edges.len()
        invariant
            i <= edges@.len(),
            all == edge_views(edges@),
            f == edge_from(node@),
            texts(out@) == distinct_texts(all.take(i as int).flat_map(f)),
        decreases edges@.len() - i,
    {
        let e = &edges[i];
        let ghost before = all.take(i as int).flat_map(f);
        proof {
            all.lemma_flat_map_take_append(f, i as int);
            assert(all[i as int] == (e.0@, e.1@));
        }
        if same(e.0.as_str(), node) {
            add_text(&mut out, e.1.as_str());
            proof {
                assert(f(all[i as int]) =~= seq![e.1@]);
                assert(before + seq![e.1@] =~= before.push(e.1@));
                assert(before.push(e.1@).drop_last() =~= before);
            }
        } else {
            assert(f(all[i as int]) =~= seq![]);
            assert(before + seq![] =~= before);
        }
        i += 1;
    }
    assert(all.take(i as int) =~= all);
    sort_texts(&out)
}

/// The nodes with an edge, each once, in the order of their names.
fn starts_of(edges: &Vec<(String, String)>) -> (r: Vec<String>)
    ensures
        texts(r@) == starting_nodes(edge_views(edges@)),
{
    let ghost all = sources(edge_views(edges@));
    let mut out: Vec<String> = Vec::new();
    let mut i: usize = 0;
    assert(texts(out@) =~= distinct_texts(all.take(0)));
    while i < edges.len()
        invariant
            i <= edges@.len(),
            all == sources(edge_views(edges@)),
            texts(out@) == distinct_texts(all.take(i as int)),
        decreases edges@.len() - i,
    {
        proof {
            assert(all.take(i + 1).drop_last() =~= all.take(i as int));
            assert(all.take(i + 1).last() == edges@[i as int].0@);
        }
        add_text(&mut out, edges[i].0.as_str());
        i += 1;
    }
    assert(all.take(i as int) =~= all);
    sort_texts(&out)
}

/// Where a search stands.
struct Searcher {
    starts: Vec<String>,
    next: usize,
    visited: Vec<String>,
    stack: Vec<String>,
    frames: Vec<Vec<String>>,
    cycles: Vec<Vec<String>>,
}

/// Whether all names of `a` stand in `b`.
fn all_within(a: &Vec<String>, b: &Vec<String>) -> (r: bool)
    ensures
        r == texts(a@).to_set().subset_of(texts(b@).to_set()),
{
    let mut i: usize = 0;
    while i < a.len()
        invariant
            i <= a@.len(),
            forall|k: int| 0 <= k < i ==> texts(b@).contains(#[trigger] texts(a@)[k]),
        decreases a@.len() - i,
    {
        if !contains_text(b, a[i].as_str()) {
            proof {
                let x = texts(a@)[i as int];
                assert(texts(a@).to_set().contains(x));
                assert(!texts(b@).to_set().contains(x));
            }
            return false;
        }
        assert(texts(a@)[i as int] == a@[i as int]@);
        i += 1;
    }
    assert forall|x: Seq<char>| texts(a@).to_set().contains(x) implies texts(
        b@,
    ).to_set().contains(x) by {
        let k = texts(a@).index_of(x);
        assert(texts(b@).contains(texts(a@)[k]));
    }
    true
}

/// Whether a cycle through the same nodes was found before.
fn known(cycles: &Vec<Vec<String>>, c: &Vec<String>) -> (r: bool)
    ensures
        r == is_known(lists(cycles@), texts(c@)),
{
    let ghost all = lists(cycles@);
    let mut i: usize = 0;
    while i < cycles.len()
        invariant
            i <= cycles@.len(),
            all == lists(cycles@),
            forall|k: int| 0 <= k < i ==> (#[trigger] all[k]).to_set() != texts(c@).to_set(),
        decreases cycles@.len() - i,
    {
        let one = &cycles[i];
        assert(all[i as int] == texts(one@));
        if all_within(one, c) && all_within(c, one) {
            assert(all[i as int].to_set() =~= texts(c@).to_set());
            return true;
        }
        i += 1;
    }
    false
}

/// The cycle that an edge back to `node` closes.
fn cycle_closed_by(stack: &Vec<String>, node: &str) -> (r: Vec<String>)
    requires
        texts(stack@).contains(node@),
    ensures
        texts(r@) == closed_by(texts(stack@), node@),
{
    let ghost all = texts(stack@);
    proof {
        lemma_place_of(all, node@);
    }
    let count: usize = stack.len();
    let mut p: usize = 0;
    while !same(stack[p].as_str(), node)
        invariant
            all == texts(stack@),
            count == all.len(),
            0 <= p <= place_of(all, node@) < all.len(),
            all[place_of(all, node@)] == node@,
            forall|i: int| 0 <= i < place_of(all, node@) ==> all[i] != node@,
        decreases all.len() - p,
    {
        assert(all[p as int] == stack@[p as int]@);
        p += 1;
    }
    assert(all[p as int] == stack@[p as int]@);
    assert(p == place_of(all, node@));
    let mut out: Vec<String> = Vec::new();
    let mut i: usize = p;
    while i < stack.len()
        invariant
            p <= i <= stack@.len(),
            all == texts(stack@),
            texts(out@) == all.subrange(p as int, i as int),
        decreases stack@.len() - i,
    {
        let ghost before = texts(out@);
        out.push(stack[i].clone());
        assert(texts(out@) =~= before.push(all[i as int]));
        assert(all.subrange(p as int, i + 1) =~= before.push(all[i as int]));
        i += 1;
    }
    assert(all.subrange(p as int, i as int) =~= all.skip(p as int));
    let ghost before = texts(out@);
    out.push(node.to_owned());
    assert(texts(out@) =~= before.push(node@));
    out
}

impl Searcher {
    spec fn view(self) -> Search {
        Search {
            starts: texts(self.starts@).skip(self.next as int),
            visited: texts(self.visited@),
            stack: texts(self.stack@),
            frames: lists(self.frames@),
            cycles: lists(self.cycles@),
        }
    }

    spec fn fits(self) -> bool {
        &&& self.next <= self.starts@.len()
        &&& self.stack@.len() == self.frames@.len()
    }

    /// Going on to a node that was not reached before.
    fn enter(&mut self, edges: &Vec<(String, String)>, node: String)
        requires
            old(self).fits(),
        ensures
            final(self).fits(),
            final(self)@ == entered(edge_views(edges@), old(self)@, node@),
    {
        let frame = neighbors_of(edges, node.as_str());
        self.visited.push(node.clone());
        self.stack.push(node);
        self.frames.push(frame);
        assert(self@.visited =~= old(self)@.visited.push(node@));
        assert(self@.stack =~= old(self)@.stack.push(node@));
        assert(self@.frames =~= old(self)@.frames.push(texts(frame@)));
    }

    /// Following the edge to `node`.
    fn follow(&mut self, edges: &Vec<(String, String)>, node: String)
        requires
            old(self).fits(),
        ensures
            final(self).fits(),
            final(self)@ == followed(edge_views(edges@), old(self)@, node@),
    {
        if contains_text(&self.stack, node.as_str()) {
            let c = cycle_closed_by(&self.stack, node.as_str());
            if !known(&self.cycles, &c) {
                self.cycles.push(c);
                assert(self@.cycles =~= old(self)@.cycles.push(texts(c@)));
            }
        } else if !contains_text(&self.visited, node.as_str()) {
            self.enter(edges, node);
        }
    }

    /// One step of the search.
    fn advance(&mut self, edges: &Vec<(String, String)>)
        requires
            old(self).fits(),
        ensures
            final(self).fits(),
            final(self)@ == step(edge_views(edges@), old(self)@),
    {
        let ghost before = self@;
        match self.frames.pop() {
            Some(frame) => {
                let mut frame = frame;
                let ghost whole = texts(frame@);
                assert(before.frames.last() == whole);
                assert(lists(self.frames@) =~= before.frames.drop_last());
                match frame.pop() {
                    Some(node) => {
                        assert(whole.last() == node@);
                        assert(texts(frame@) =~= whole.drop_last());
                        self.frames.push(frame);
                        assert(lists(self.frames@) =~= before.frames.drop_last().push(
                            whole.drop_last(),
                        ));
                        self.follow(edges, node);
                    },
                    None => {
                        let _left = self.stack.pop();
                        assert(texts(self.stack@) =~= before.stack.drop_last());
                    },
                }
            },
            None => {
                assert(lists(self.frames@) =~= before.frames);
                if self.next < self.starts.len() {
                    let first = self.starts[self.next].clone();
                    assert(before.starts.first() == first@);
                    self.next = self.next + 1;
                    assert(self@.starts =~= before.starts.skip(1));
                    if !contains_text(&self.visited, first.as_str()) {
                        self.enter(edges, first);
                    }
                }
            },
        }
    }
}

/// The cycles of a graph: each as the names along it, the first name again at its end.
pub fn find_cycles(edges: &Vec<(String, String)>) -> (r: Vec<Vec<String>>)
    ensures
        lists(r@) == cycles_in(edge_views(edges@)),
{
    let ghost all = edge_views(edges@);
    let mut search = Searcher {
        starts: starts_of(edges),
        next: 0,
        visited: Vec::new(),
        stack: Vec::new(),
        frames: Vec::new(),
        cycles: Vec::new(),
    };
    let ghost mut n: nat = 0;
    proof {
        lemma_start(all);
        assert(search@.starts =~= start(all).starts);
        assert(search@.visited =~= start(all).visited);
        assert(search@.stack =~= start(all).stack);
        assert(search@.frames =~= start(all).frames);
        assert(search@.cycles =~= start(all).cycles);
    }
    while search.frames.len() > 0 || search.next < search.starts.len()
        invariant
            all == edge_views(edges@),
            search.fits(),
            search@ == after(all, n),
            sound(all, search@),
        decreases room(all, search@), remaining(search@),
    {
        proof {
            lemma_progress(all, search@);
            lemma_step(all, search@);
            n = n + 1;
        }
        search.advance(edges);
    }
    proof {
        lemma_found(all, n);
    }
    search.cycles
}

} // verus!
