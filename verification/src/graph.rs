//! Directed graphs over nodes `0..n` with a verified topological sort:
//! the sort returns an order that places every edge's source before its
//! target, succeeds exactly on the acyclic graphs, and reports a cycle
//! otherwise.

use vstd::prelude::*;
use vstd::pervasive::VecAdditionalExecFns;
use vstd::seq_lib::*;
use vstd::set_lib::{lemma_int_range, lemma_len_subset, set_int_range};

verus! {

/// Every edge's endpoints lie below `n`.
pub open spec fn edges_ok(edges: Seq<(usize, usize)>, n: nat) -> bool {
    forall|k: int| 0 <= k < edges.len() ==> (#[trigger] edges[k]).0 < n && edges[k].1 < n
}

/// There is an edge from `u` to `v`.
pub open spec fn has_edge(edges: Seq<(usize, usize)>, u: int, v: int) -> bool {
    exists|k: int| 0 <= k < edges.len() && (#[trigger] edges[k]).0 == u && edges[k].1 == v
}

/// `path` is a closed walk of at least one edge: consecutive nodes are
/// joined by edges and the first node equals the last.
pub open spec fn is_cycle(edges: Seq<(usize, usize)>, path: Seq<int>) -> bool {
    &&& path.len() >= 2
    &&& path[0] == path[path.len() - 1]
    &&& forall|t: int| 0 <= t < path.len() - 1 ==> has_edge(edges, path[t], #[trigger] path[t + 1])
}

/// The graph holds at least one cycle.
pub open spec fn has_cycle(edges: Seq<(usize, usize)>) -> bool {
    exists|path: Seq<int>| is_cycle(edges, path)
}

/// `order` lists each node of `0..n` exactly once.
pub open spec fn is_permutation(order: Seq<usize>, n: nat) -> bool {
    &&& order.len() == n
    &&& forall|i: int| 0 <= i < order.len() ==> (#[trigger] order[i]) < n
    &&& order.no_duplicates()
}

/// Wherever an edge's endpoints stand in `order`, the source stands
/// strictly before the target.
pub open spec fn respects_edges(order: Seq<usize>, edges: Seq<(usize, usize)>) -> bool {
    forall|k: int, i: int, j: int|
        #![trigger edges[k], order[i], order[j]]
        0 <= k < edges.len() && 0 <= i < order.len() && 0 <= j < order.len()
            && order[i] == edges[k].0 && order[j] == edges[k].1 ==> i < j
}

/// Every node below `n` that is not yet emitted still waits on an
/// unemitted predecessor: no further progress is possible.
pub open spec fn stuck_state(edges: Seq<(usize, usize)>, emitted: Seq<bool>) -> bool {
    forall|c: int| 0 <= c < emitted.len() && !emitted[c] ==> exists|k: int|
        0 <= k < edges.len() && (#[trigger] edges[k]).1 == c && !emitted[edges[k].0 as int]
}

/// A sequence of more than `n` values drawn from `0..n` repeats one.
proof fn lemma_pigeonhole(w: Seq<int>, n: int)
    requires
        forall|t: int| 0 <= t < w.len() ==> 0 <= #[trigger] w[t] < n,
        w.len() > n,
        n >= 0,
    ensures
        exists|a: int, b: int| 0 <= a < b < w.len() && w[a] == w[b],
{
    if w.no_duplicates() {
        w.unique_seq_to_set();
        assert(w.to_set().subset_of(set_int_range(0, n))) by {
            assert(forall|x: int| w.to_set().contains(x) ==> set_int_range(0, n).contains(x))
                by {
                assert(forall|x: int| w.to_set().contains(x) ==> exists|t: int|
                    0 <= t < w.len() && w[t] == x);
            }
        }
        lemma_int_range(0, n);
        lemma_len_subset(w.to_set(), set_int_range(0, n));
        assert(false);
    } else {
        let (a, b) = choose|a: int, b: int| a != b && 0 <= a < w.len() && 0 <= b < w.len()
            && w[a] == w[b];
        if a < b {
            assert(0 <= a < b < w.len() && w[a] == w[b]);
        } else {
            assert(0 <= b < a < w.len() && w[b] == w[a]);
        }
    }
}

/// In a stuck state, walk backwards from an unemitted node through
/// unemitted predecessors for `len` steps; the walk starts at `v` and each
/// node has an edge to the one before it in the walk.
proof fn build_backward_walk(
    edges: Seq<(usize, usize)>,
    emitted: Seq<bool>,
    v: int,
    len: nat,
) -> (w: Seq<int>)
    requires
        edges_ok(edges, emitted.len() as nat),
        stuck_state(edges, emitted),
        0 <= v < emitted.len(),
        !emitted[v],
    ensures
        w.len() == len + 1,
        w[0] == v,
        forall|t: int| 0 <= t < w.len() ==> 0 <= #[trigger] w[t] < emitted.len()
            && !emitted[w[t]],
        forall|t: int| 0 <= t < w.len() - 1 ==> has_edge(edges, #[trigger] w[t + 1], w[t]),
    decreases len,
{
    if len == 0 {
        seq![v]
    } else {
        let k = choose|k: int| 0 <= k < edges.len() && (#[trigger] edges[k]).1 == v
            && !emitted[edges[k].0 as int];
        let u = edges[k].0 as int;
        let rest = build_backward_walk(edges, emitted, u, (len - 1) as nat);
        let w = seq![v] + rest;
        assert(w[0] == v);
        assert(forall|t: int| 0 <= t < rest.len() ==> w[t + 1] == rest[t]);
        assert(has_edge(edges, w[1], w[0]));
        assert(forall|t: int| 1 <= t < w.len() - 1 ==> has_edge(edges, #[trigger] w[t + 1], w[t]))
            by {
            assert(forall|t: int| 0 <= t < rest.len() - 1 ==> has_edge(
                edges,
                #[trigger] rest[t + 1],
                rest[t],
            ));
        }
        w
    }
}

/// A stuck state with an unemitted node means the graph has a cycle.
#[verifier::rlimit(50)]
proof fn lemma_stuck_implies_cycle(edges: Seq<(usize, usize)>, emitted: Seq<bool>, v: int)
    requires
        edges_ok(edges, emitted.len() as nat),
        stuck_state(edges, emitted),
        0 <= v < emitted.len(),
        !emitted[v],
    ensures
        has_cycle(edges),
{
    let n = emitted.len() as int;
    let w = build_backward_walk(edges, emitted, v, (n + 1) as nat);
    lemma_pigeonhole(w, n);
    let (a, b) = choose|a: int, b: int| 0 <= a < b < w.len() && w[a] == w[b];
    let path = Seq::new((b - a + 1) as nat, |i: int| w[b - i]);
    assert(path.len() >= 2);
    assert(path[0] == w[b]);
    assert(path[path.len() - 1] == w[a]);
    assert forall|t: int| 0 <= t < path.len() - 1 implies has_edge(
        edges,
        path[t],
        #[trigger] path[t + 1],
    ) by {
        let u = b - t - 1;
        assert(path[t] == w[u + 1]);
        assert(path[t + 1] == w[u]);
        assert(has_edge(edges, w[u + 1], w[u]));
    }
    assert(is_cycle(edges, path));
}

/// The index at which `v` stands in `order`.
pub open spec fn idx_of(order: Seq<usize>, v: int) -> int {
    choose|i: int| 0 <= i < order.len() && order[i] == v as usize
}

/// A permutation of `0..n` contains every node below `n`.
pub proof fn lemma_permutation_onto(order: Seq<usize>, n: nat, v: int)
    requires
        is_permutation(order, n),
        n <= usize::MAX,
        0 <= v < n,
    ensures
        0 <= idx_of(order, v) < order.len(),
        order[idx_of(order, v)] == v as usize,
{
    let w = order.map_values(|x: usize| x as int);
    assert(forall|t: int| 0 <= t < w.len() ==> 0 <= #[trigger] w[t] < n);
    assert(w.no_duplicates()) by {
        assert(forall|i: int, j: int| 0 <= i < w.len() && 0 <= j < w.len() && i != j
            ==> #[trigger] w[i] != #[trigger] w[j]) by {
            assert(forall|i: int, j: int| 0 <= i < order.len() && 0 <= j < order.len() && i != j
                ==> #[trigger] order[i] != #[trigger] order[j]);
        }
    }
    if !w.contains(v) {
        w.unique_seq_to_set();
        assert(w.to_set().subset_of(set_int_range(0, n as int).remove(v))) by {
            assert(forall|x: int| w.to_set().contains(x) ==> exists|t: int|
                0 <= t < w.len() && w[t] == x);
        }
        lemma_int_range(0, n as int);
        lemma_len_subset(w.to_set(), set_int_range(0, n as int).remove(v));
        assert(set_int_range(0, n as int).remove(v).len() == n - 1);
        assert(false);
    }
    let t = choose|t: int| 0 <= t < w.len() && w[t] == v;
    assert(w[t] == order[t] as int);
    assert(order[t] == v as usize);
}

/// An order that respects every edge leaves no room for a cycle: positions
/// would have to rise strictly around the cycle and return to themselves.
#[verifier::rlimit(50)]
proof fn lemma_walk_positions_rise(
    order: Seq<usize>,
    edges: Seq<(usize, usize)>,
    n: nat,
    path: Seq<int>,
    t: int,
)
    requires
        is_permutation(order, n),
        respects_edges(order, edges),
        edges_ok(edges, n),
        n <= usize::MAX,
        0 <= t < path.len(),
        forall|u: int| 0 <= u < path.len() - 1 ==> has_edge(edges, path[u], #[trigger] path[u + 1]),
    ensures
        idx_of(order, path[t]) >= idx_of(order, path[0]) + t,
    decreases t,
{
    if t > 0 {
        lemma_walk_positions_rise(order, edges, n, path, t - 1);
        let u = path[t - 1];
        let v = path[t];
        assert(has_edge(edges, u, v)) by {
            assert(has_edge(edges, path[(t - 1) + 1 - 1], path[(t - 1) + 1]));
        }
        let k = choose|k: int| 0 <= k < edges.len() && (#[trigger] edges[k]).0 == u
            && edges[k].1 == v;
        assert(0 <= u < n && 0 <= v < n);
        lemma_permutation_onto(order, n, u);
        lemma_permutation_onto(order, n, v);
        assert(idx_of(order, u) < idx_of(order, v));
    }
}

/// A permutation that respects every edge exists only for acyclic graphs.
#[verifier::rlimit(50)]
proof fn lemma_order_implies_acyclic(order: Seq<usize>, edges: Seq<(usize, usize)>, n: nat)
    requires
        is_permutation(order, n),
        respects_edges(order, edges),
        edges_ok(edges, n),
        n <= usize::MAX,
    ensures
        !has_cycle(edges),
{
    if has_cycle(edges) {
        let path = choose|path: Seq<int>| is_cycle(edges, path);
        let m = path.len() - 1;
        assert(has_edge(edges, path[0], path[0int + 1]));
        let k = choose|k: int| 0 <= k < edges.len() && (#[trigger] edges[k]).0 == path[0]
            && edges[k].1 == path[1];
        assert(0 <= path[0] < n);
        lemma_walk_positions_rise(order, edges, n, path, m);
        assert(idx_of(order, path[m]) >= idx_of(order, path[0]) + m);
        assert(path[m] == path[0]);
        assert(false);
    }
}

/// Whether node `c` is ready: every edge into `c` comes from an emitted node.
fn node_ready(edges: &Vec<(usize, usize)>, emitted: &Vec<bool>, c: usize) -> (r: bool)
    requires
        edges_ok(edges@, emitted@.len() as nat),
        c < emitted@.len(),
    ensures
        r == forall|k: int|
            0 <= k < edges@.len() && (#[trigger] edges@[k]).1 == c
                ==> emitted@[edges@[k].0 as int],
{
    let m: usize = edges.len();
    let mut k: usize = 0;
    while k < m
        invariant
            edges_ok(edges@, emitted@.len() as nat),
            c < emitted@.len(),
            m == edges@.len(),
            k <= m,
            forall|t: int| 0 <= t < k && (#[trigger] edges@[t]).1 == c
                ==> emitted@[edges@[t].0 as int],
        decreases m - k,
    {
        let (u, v) = edges[k];
        if v == c && !emitted[u] {
            return false;
        }
        k += 1;
    }
    true
}

/// Find the lowest-numbered node that is not yet emitted and whose every
/// incoming edge comes from an emitted node.
fn find_ready(edges: &Vec<(usize, usize)>, emitted: &Vec<bool>) -> (r: Option<usize>)
    requires
        edges_ok(edges@, emitted@.len() as nat),
    ensures
        match r {
            Some(c) => c < emitted@.len() && !emitted@[c as int] && forall|k: int|
                0 <= k < edges@.len() && (#[trigger] edges@[k]).1 == c
                    ==> emitted@[edges@[k].0 as int],
            None => stuck_state(edges@, emitted@),
        },
{
    let n: usize = emitted.len();
    let mut c: usize = 0;
    while c < n
        invariant
            edges_ok(edges@, emitted@.len() as nat),
            n == emitted@.len(),
            c <= n,
            forall|v: int| 0 <= v < c && !emitted@[v] ==> exists|k: int|
                0 <= k < edges@.len() && (#[trigger] edges@[k]).1 == v
                    && !emitted@[edges@[k].0 as int],
        decreases n - c,
    {
        if !emitted[c] && node_ready(edges, emitted, c) {
            return Some(c);
        }
        c += 1;
    }
    None
}

/// Compute a topological order of the nodes `0..n` under the given edges,
/// scanning candidates in node order so that the result is deterministic
/// for a fixed input. Succeeds exactly on the acyclic graphs; on the
/// others, reports that a cycle exists.
pub fn topo_sort(n: usize, edges: &Vec<(usize, usize)>) -> (r: Option<Vec<usize>>)
    requires
        edges_ok(edges@, n as nat),
    ensures
        match r {
            Some(order) => is_permutation(order@, n as nat) && respects_edges(order@, edges@)
                && !has_cycle(edges@),
            None => has_cycle(edges@),
        },
{
    let mut emitted: Vec<bool> = Vec::new();
    let mut z: usize = 0;
    while z < n
        invariant
            z <= n,
            emitted@.len() == z,
            forall|v: int| 0 <= v < z ==> !emitted@[v],
        decreases n - z,
    {
        emitted.push(false);
        z += 1;
    }
    let mut order: Vec<usize> = Vec::new();
    while order.len() < n
        invariant
            emitted@.len() == n,
            edges_ok(edges@, n as nat),
            order@.len() <= n,
            forall|i: int| 0 <= i < order@.len() ==> (#[trigger] order@[i]) < n,
            order@.no_duplicates(),
            forall|v: int| 0 <= v < n ==> (emitted@[v] <==> order@.contains(v as usize)),
            forall|k: int, j: int|
                0 <= k < edges@.len() && 0 <= j < order@.len()
                    && #[trigger] order@[j] == (#[trigger] edges@[k]).1 ==> exists|i: int|
                    0 <= i < j && order@[i] == edges@[k].0,
        decreases n - order.len(),
    {
        let candidate: usize = match find_ready(edges, &emitted) {
            Some(c) => c,
            None => {
                proof {
                    lemma_some_node_unemitted(order@, n as nat);
                    let v = choose|v: usize| v < n && !order@.contains(v);
                    lemma_stuck_implies_cycle(edges@, emitted@, v as int);
                }
                return None;
            },
        };
        let ghost old_order = order@;
        let ghost old_em = emitted@;
        order.push(candidate);
        emitted.set(candidate, true);
        proof {
            assert(!old_order.contains(candidate));
            assert(order@.drop_last() =~= old_order);
            assert(forall|i: int| 0 <= i < old_order.len() ==> order@[i] == old_order[i]);
            assert(order@.no_duplicates());
            assert(forall|v: int| 0 <= v < n && v != candidate ==> (emitted@[v]
                <==> order@.contains(v as usize))) by {
                assert forall|u: usize| u < n && u != candidate && #[trigger] old_order.contains(
                    u,
                ) implies order@.contains(u) by {
                    let i = choose|i: int| 0 <= i < old_order.len() && old_order[i] == u;
                    assert(order@[i] == u);
                }
                assert forall|u: usize| u < n && u != candidate && #[trigger] order@.contains(u)
                    implies old_order.contains(u) by {
                    let i = choose|i: int| 0 <= i < order@.len() && order@[i] == u;
                    assert(i < old_order.len());
                    assert(old_order[i] == u);
                }
            }
            assert(order@.contains(candidate)) by {
                assert(order@[order@.len() - 1] == candidate);
            }
            let j0 = order@.len() - 1;
            assert forall|k: int, j: int|
                0 <= k < edges@.len() && 0 <= j < order@.len() && #[trigger] order@[j]
                    == (#[trigger] edges@[k]).1 implies exists|i: int|
                0 <= i < j && order@[i] == edges@[k].0 by {
                if j < j0 {
                    assert(old_order[j] == edges@[k].1);
                    let i = choose|i: int| 0 <= i < j && old_order[i] == edges@[k].0;
                    assert(order@[i] == edges@[k].0);
                } else {
                    assert(order@[j] == candidate);
                    assert(old_em[edges@[k].0 as int]);
                    assert(edges@[k].0 != candidate);
                    assert(old_order.contains(edges@[k].0));
                    let i = choose|i: int| 0 <= i < old_order.len() && old_order[i]
                        == edges@[k].0;
                    assert(order@[i] == edges@[k].0);
                }
            }
        }
    }
    proof {
        assert(is_permutation(order@, n as nat));
        assert(respects_edges(order@, edges@)) by {
            assert forall|k: int, i: int, j: int|
                #![trigger edges@[k], order@[i], order@[j]]
                0 <= k < edges@.len() && 0 <= i < order@.len() && 0 <= j < order@.len()
                    && order@[i] == edges@[k].0 && order@[j] == edges@[k].1 implies i < j by {
                let wi = choose|w: int| 0 <= w < j && order@[w] == edges@[k].0;
                assert(order@[wi] == order@[i]);
                if wi != i {
                    assert(order@[wi] != order@[i]);
                }
                assert(wi == i);
            }
        }
        lemma_order_implies_acyclic(order@, edges@, n as nat);
    }
    Some(order)
}

/// Where fewer than `n` distinct nodes below `n` stand in `order`, some
/// node below `n` is missing from it.
proof fn lemma_some_node_unemitted(order: Seq<usize>, n: nat)
    requires
        order.len() < n,
        n <= usize::MAX,
        order.no_duplicates(),
        forall|i: int| 0 <= i < order.len() ==> (#[trigger] order[i]) < n,
    ensures
        exists|v: usize| v < n && !order.contains(v),
{
    let w = order.map_values(|x: usize| x as int);
    assert(w.no_duplicates()) by {
        assert(forall|i: int, j: int| 0 <= i < order.len() && 0 <= j < order.len() && i != j
            ==> #[trigger] order[i] != #[trigger] order[j]);
        assert(forall|i: int, j: int| 0 <= i < w.len() && 0 <= j < w.len() && i != j
            ==> #[trigger] w[i] != #[trigger] w[j]) by {
            assert(forall|i: int| 0 <= i < w.len() ==> #[trigger] w[i] == order[i] as int);
        }
    }
    w.unique_seq_to_set();
    lemma_int_range(0, n as int);
    if forall|v: usize| v < n ==> #[trigger] order.contains(v) {
        assert(set_int_range(0, n as int).subset_of(w.to_set())) by {
            assert forall|x: int| set_int_range(0, n as int).contains(x) implies w.to_set()
                .contains(x) by {
                assert(0 <= x < n);
                assert((x as usize) < n);
                assert(order.contains(x as usize));
                let i = choose|i: int| 0 <= i < order.len() && order[i] == x as usize;
                assert(w[i] == order[i] as int);
                assert(w[i] == x);
                assert(w.contains(x));
            }
        }
        lemma_len_subset(set_int_range(0, n as int), w.to_set());
        assert(false);
    }
}

} // verus!
