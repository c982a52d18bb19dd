//! Graph structure of a sankey diagram: node and edge identification and the
//! assignment of nodes to layers by Kahn's topological sort.

use vstd::prelude::*;
use crate::grouping::{
    distinct_in_order, group_first_seen, group_pairs_first_seen, index_in, lemma_distinct_in_order, lemma_index_in_unique,
    texts,
};

verus! {

/// Why a sankey graph cannot be built.
#[derive(Debug, Clone, Copy, PartialEq, Eq, Structural)]
pub enum SankeyGraphError {
    /// The flows form a cycle; a sankey diagram needs a DAG.
    Cycle,
    /// There are no flows.
    Empty,
}

impl SankeyGraphError {
    /// The message the error reads as.
    pub fn message(&self) -> (s: String)
        ensures
            s@ == match self {
                SankeyGraphError::Cycle => "graph has a cycle (sankey requires a DAG)"@,
                SankeyGraphError::Empty => "no edges supplied"@,
            },
    {
        match self {
            SankeyGraphError::Cycle => "graph has a cycle (sankey requires a DAG)".to_string(),
            SankeyGraphError::Empty => "no edges supplied".to_string(),
        }
    }
}

/// Every edge joins two of the `n` nodes.
pub open spec fn edges_within(n: nat, edges: Seq<(usize, usize)>) -> bool {
    forall|k: int| 0 <= k < edges.len() ==> (#[trigger] edges[k]).0 < n && edges[k].1 < n
}

/// Number of edges among the first `hi` that enter `v` from a node not yet
/// marked in `vis`.
pub open spec fn in_count(edges: Seq<(usize, usize)>, v: int, vis: Seq<bool>, hi: int) -> nat
    decreases hi,
{
    if hi <= 0 {
        0
    } else {
        in_count(edges, v, vis, hi - 1) + if edges[hi - 1].1 == v && !vis[edges[hi - 1].0 as int] {
            1nat
        } else {
            0nat
        }
    }
}

/// Number of edges with index in `[lo, hi)` that go from `u` to `v`.
pub open spec fn pair_count(edges: Seq<(usize, usize)>, u: int, v: int, lo: int, hi: int) -> nat
    decreases hi - lo,
{
    if lo >= hi {
        0
    } else {
        (if edges[lo].0 == u && edges[lo].1 == v { 1nat } else { 0nat }) + pair_count(edges, u, v, lo + 1, hi)
    }
}

/// `s` is a non-empty set of nodes each of which has an incoming edge from a
/// node of `s`: following those edges backwards never ends, so the graph has
/// a cycle.
#[verifier::opaque]
pub open spec fn cycle_witness(n: nat, edges: Seq<(usize, usize)>, s: Set<int>) -> bool {
    &&& exists|v: int| s.contains(v)
    &&& forall|v: int| #[trigger] s.contains(v) ==> 0 <= v < n && exists|k: int|
        0 <= k < edges.len() && edges[k].1 == v && s.contains(#[trigger] edges[k].0 as int)
}

proof fn witness_member(n: nat, edges: Seq<(usize, usize)>, s: Set<int>) -> (v: int)
    requires
        cycle_witness(n, edges, s),
    ensures
        s.contains(v),
{
    reveal(cycle_witness);
    choose|v: int| s.contains(v)
}

proof fn witness_edge(n: nat, edges: Seq<(usize, usize)>, s: Set<int>, v: int) -> (k: int)
    requires
        cycle_witness(n, edges, s),
        s.contains(v),
    ensures
        0 <= k < edges.len(),
        edges[k].1 == v,
        s.contains(edges[k].0 as int),
{
    reveal(cycle_witness);
    choose|k: int| 0 <= k < edges.len() && edges[k].1 == v && s.contains(#[trigger] edges[k].0 as int)
}

/// The graph on `n` nodes has a cycle.
pub open spec fn has_cycle(n: nat, edges: Seq<(usize, usize)>) -> bool {
    exists|s: Set<int>| cycle_witness(n, edges, s)
}

/// `layer` places every edge's target strictly below its source, and each
/// node with incoming edges exactly one layer below its deepest predecessor;
/// nodes without incoming edges sit in layer 0.
pub open spec fn longest_path_layers(edges: Seq<(usize, usize)>, layer: Seq<usize>) -> bool {
    &&& forall|k: int| 0 <= k < edges.len() ==> layer[(#[trigger] edges[k]).1 as int] >= layer[edges[k].0 as int] + 1
    &&& forall|v: int| 0 <= v < layer.len() ==> #[trigger] layer[v] == 0 || exists|k: int|
        0 <= k < edges.len() && (#[trigger] edges[k]).1 == v && layer[v] == layer[edges[k].0 as int] + 1
}

/// A layering that places each edge's target below its source rules out
/// cycles.
pub proof fn layered_graph_has_no_cycle(n: nat, edges: Seq<(usize, usize)>, layer: Seq<usize>)
    requires
        layer.len() == n,
        edges_within(n, edges),
        forall|k: int| 0 <= k < edges.len() ==> layer[(#[trigger] edges[k]).1 as int] >= layer[edges[k].0 as int] + 1,
    ensures
        !has_cycle(n, edges),
{
    if has_cycle(n, edges) {
        let s = choose|s: Set<int>| cycle_witness(n, edges, s);
        let v = witness_member(n, edges, s);
        lemma_no_member_below(n, edges, layer, s, layer[v] as nat);
    }
}

#[verifier::spinoff_prover]
proof fn lemma_no_member_below(n: nat, edges: Seq<(usize, usize)>, layer: Seq<usize>, s: Set<int>, d: nat)
    requires
        layer.len() == n,
        edges_within(n, edges),
        forall|k: int| 0 <= k < edges.len() ==> layer[(#[trigger] edges[k]).1 as int] >= layer[edges[k].0 as int] + 1,
        cycle_witness(n, edges, s),
    ensures
        forall|v: int| s.contains(v) ==> layer[v] > d,
    decreases d,
{
    assert forall|v: int| s.contains(v) implies layer[v] > d by {
        let k = witness_edge(n, edges, s, v);
        let u = edges[k].0 as int;
        if d > 0 {
            lemma_no_member_below(n, edges, layer, s, (d - 1) as nat);
        }
    }
}

proof fn lemma_pair_count_split(edges: Seq<(usize, usize)>, u: int, v: int, lo: int, mid: int, hi: int)
    requires
        lo <= mid <= hi,
    ensures
        pair_count(edges, u, v, lo, hi) == pair_count(edges, u, v, lo, mid) + pair_count(edges, u, v, mid, hi),
    decreases mid - lo,
{
    if lo < mid {
        lemma_pair_count_split(edges, u, v, lo + 1, mid, hi);
    }
}

/// Marking `u` visited removes exactly the edges from `u` from the count of
/// pending incoming edges.
proof fn lemma_in_count_mark(edges: Seq<(usize, usize)>, v: int, vis: Seq<bool>, u: int, hi: int)
    requires
        0 <= u < vis.len(),
        !vis[u],
        edges_within(vis.len(), edges),
        0 <= hi <= edges.len(),
    ensures
        in_count(edges, v, vis, hi) == in_count(edges, v, vis.update(u, true), hi) + pair_count(edges, u, v, 0, hi),
    decreases hi,
{
    if hi > 0 {
        lemma_in_count_mark(edges, v, vis, u, hi - 1);
        lemma_pair_count_split(edges, u, v, 0, hi - 1, hi);
        let s = edges[hi - 1].0 as int;
        assert(0 <= s < vis.len());
        assert(pair_count(edges, u, v, hi - 1, hi)
            == (if edges[hi - 1].0 == u && edges[hi - 1].1 == v { 1nat } else { 0nat }) + pair_count(edges, u, v, hi, hi));
        assert(vis.update(u, true)[s] == (s == u || vis[s]));
    }
}

proof fn lemma_in_count_positive(edges: Seq<(usize, usize)>, v: int, vis: Seq<bool>, hi: int)
    requires
        in_count(edges, v, vis, hi) > 0,
        hi <= edges.len(),
    ensures
        exists|k: int| 0 <= k < hi && (#[trigger] edges[k]).1 == v && !vis[edges[k].0 as int],
    decreases hi,
{
    if hi > 0 {
        if in_count(edges, v, vis, hi - 1) > 0 {
            lemma_in_count_positive(edges, v, vis, hi - 1);
        } else {
            assert(edges[hi - 1].1 == v && !vis[edges[hi - 1].0 as int]);
        }
    }
}

/// The work queue of the sort: `q[..head]` are the visited nodes, `q[head..]`
/// the enqueued ones still to visit, each node at most once; `inq` marks the
/// nodes ever enqueued.
spec fn queue_ok(q: Seq<usize>, head: int, vis: Seq<bool>, inq: Seq<bool>, n: nat) -> bool {
    &&& 0 <= head <= q.len()
    &&& vis.len() == n
    &&& inq.len() == n
    &&& forall|i: int, j: int| 0 <= i < j < q.len() ==> q[i] != q[j]
    &&& forall|i: int| 0 <= i < q.len() ==> (#[trigger] q[i]) < n && inq[q[i] as int] && (vis[q[i] as int] <==> i < head)
    &&& forall|x: int| 0 <= x < n && #[trigger] inq[x] ==> exists|i: int| 0 <= i < q.len() && q[i] == x
    &&& forall|x: int| 0 <= x < n && #[trigger] vis[x] ==> inq[x]
}

proof fn lemma_queue_push(q: Seq<usize>, head: int, vis: Seq<bool>, inq: Seq<bool>, n: nat, t: usize)
    requires
        queue_ok(q, head, vis, inq, n),
        t < n,
        !inq[t as int],
    ensures
        queue_ok(q.push(t), head, vis, inq.update(t as int, true), n),
{
    let q2 = q.push(t);
    let inq2 = inq.update(t as int, true);
    assert forall|i: int, j: int| 0 <= i < j < q2.len() implies q2[i] != q2[j] by {
        if j == q.len() {
            assert(inq[q[i] as int]);
        }
    }
    assert forall|i: int| 0 <= i < q2.len() implies (#[trigger] q2[i]) < n && inq2[q2[i] as int] && (vis[q2[i] as int] <==> i < head) by {
        if i < q.len() {
            assert(q2[i] == q[i]);
        } else {
            assert(!vis[t as int]);
        }
    }
    assert forall|x: int| 0 <= x < n && #[trigger] inq2[x] implies exists|i: int| 0 <= i < q2.len() && q2[i] == x by {
        if x == t as int {
            assert(q2[q.len() as int] == t);
        } else {
            let i = choose|i: int| 0 <= i < q.len() && q[i] == x;
            assert(q2[i] == q[i]);
        }
    }
}

proof fn lemma_queue_pop(q: Seq<usize>, head: int, vis: Seq<bool>, inq: Seq<bool>, n: nat)
    requires
        queue_ok(q, head, vis, inq, n),
        head < q.len(),
    ensures
        q[head] < n,
        !vis[q[head] as int],
        q.len() <= n,
        queue_ok(q, head + 1, vis.update(q[head] as int, true), inq, n),
{
    let u = q[head];
    let vis2 = vis.update(u as int, true);
    assert(q[head] < n);
    assert forall|i: int| 0 <= i < q.len() implies (#[trigger] q[i]) < n && inq[q[i] as int] && (vis2[q[i] as int] <==> i < head + 1) by {
        if i != head {
            assert(q[i] != u);
        }
    }
    lemma_queue_bounded(q, n);
}

proof fn lemma_queue_bounded(q: Seq<usize>, n: nat)
    requires
        forall|i: int, j: int| 0 <= i < j < q.len() ==> q[i] != q[j],
        forall|i: int| 0 <= i < q.len() ==> (#[trigger] q[i]) < n,
    ensures
        q.len() <= n,
{
    let m = q.map_values(|x: usize| x as int);
    assert(m.no_duplicates()) by {
        assert forall|i: int, j: int| 0 <= i < m.len() && 0 <= j < m.len() && i != j implies m[i] != m[j] by {
            if i < j {
                assert(q[i] != q[j]);
            } else {
                assert(q[j] != q[i]);
            }
        }
    }
    m.unique_seq_to_set();
    vstd::set_lib::lemma_int_range(0, n as int);
    let r = vstd::set_lib::set_int_range(0, n as int);
    assert(m.to_set().subset_of(r)) by {
        assert forall|x: int| m.to_set().contains(x) implies r.contains(x) by {
            let i = choose|i: int| 0 <= i < m.len() && m[i] == x;
            assert(q[i] < n);
        }
    }
    vstd::set_lib::lemma_len_subset(m.to_set(), r);
}

/// Edge `e` has been relaxed: its source was visited before `u`, or it is
/// one of `u`'s edges before index `k`. With `u == -1` this is "its source is
/// visited".
spec fn edge_done(edges: Seq<(usize, usize)>, vis: Seq<bool>, u: int, k: int, e: int) -> bool {
    (vis[edges[e].0 as int] && edges[e].0 != u) || (edges[e].0 == u && e < k)
}

/// The layering facts that hold for the relaxed edges.
spec fn layering_upto(edges: Seq<(usize, usize)>, layer: Seq<usize>, vis: Seq<bool>, u: int, k: int) -> bool {
    &&& forall|e: int| 0 <= e < edges.len() && #[trigger] edge_done(edges, vis, u, k, e)
        ==> layer[edges[e].1 as int] >= layer[edges[e].0 as int] + 1
    &&& forall|x: int| 0 <= x < layer.len() ==> #[trigger] layer[x] == 0 || exists|e: int|
        0 <= e < edges.len() && #[trigger] edge_done(edges, vis, u, k, e) && edges[e].1 == x
            && layer[x] == layer[edges[e].0 as int] + 1
}

proof fn lemma_layering_pop(edges: Seq<(usize, usize)>, layer: Seq<usize>, vis: Seq<bool>, u: int)
    requires
        layering_upto(edges, layer, vis, -1, 0),
        0 <= u < vis.len(),
        !vis[u],
        edges_within(vis.len(), edges),
    ensures
        layering_upto(edges, layer, vis.update(u, true), u, 0),
{
    let vis2 = vis.update(u, true);
    assert forall|e: int| 0 <= e < edges.len() && #[trigger] edge_done(edges, vis2, u, 0, e)
        implies layer[edges[e].1 as int] >= layer[edges[e].0 as int] + 1 by {
        assert(edge_done(edges, vis, -1, 0, e));
    }
    assert forall|x: int| 0 <= x < layer.len() implies #[trigger] layer[x] == 0 || exists|e: int|
        0 <= e < edges.len() && #[trigger] edge_done(edges, vis2, u, 0, e) && edges[e].1 == x
            && layer[x] == layer[edges[e].0 as int] + 1 by {
        if layer[x] != 0 {
            let e = choose|e: int| 0 <= e < edges.len() && #[trigger] edge_done(edges, vis, -1, 0, e) && edges[e].1 == x
                && layer[x] == layer[edges[e].0 as int] + 1;
            assert(edge_done(edges, vis2, u, 0, e));
        }
    }
}

proof fn lemma_layering_finish(edges: Seq<(usize, usize)>, layer: Seq<usize>, vis: Seq<bool>, u: int)
    requires
        layering_upto(edges, layer, vis, u, edges.len() as int),
        0 <= u < vis.len(),
        vis[u],
    ensures
        layering_upto(edges, layer, vis, -1, 0),
{
    assert forall|e: int| 0 <= e < edges.len() && #[trigger] edge_done(edges, vis, -1, 0, e)
        implies layer[edges[e].1 as int] >= layer[edges[e].0 as int] + 1 by {
        assert(edge_done(edges, vis, u, edges.len() as int, e));
    }
    assert forall|x: int| 0 <= x < layer.len() implies #[trigger] layer[x] == 0 || exists|e: int|
        0 <= e < edges.len() && #[trigger] edge_done(edges, vis, -1, 0, e) && edges[e].1 == x
            && layer[x] == layer[edges[e].0 as int] + 1 by {
        if layer[x] != 0 {
            let e = choose|e: int| 0 <= e < edges.len() && #[trigger] edge_done(edges, vis, u, edges.len() as int, e) && edges[e].1 == x
                && layer[x] == layer[edges[e].0 as int] + 1;
            assert(edge_done(edges, vis, -1, 0, e));
        }
    }
}

proof fn lemma_layering_relax(
    edges: Seq<(usize, usize)>,
    layer: Seq<usize>,
    layer2: Seq<usize>,
    vis: Seq<bool>,
    u: int,
    k: int,
    t: int,
)
    requires
        layering_upto(edges, layer, vis, u, k),
        edges_within(vis.len(), edges),
        layer.len() == vis.len(),
        0 <= k < edges.len(),
        edges[k].0 == u,
        edges[k].1 == t,
        0 <= u < vis.len(),
        vis[u],
        !vis[t],
        layer[u] < usize::MAX,
        layer2 == (if layer[u] + 1 > layer[t] { layer.update(t, (layer[u] + 1) as usize) } else { layer }),
    ensures
        layering_upto(edges, layer2, vis, u, k + 1),
{
    assert(t != u);
    assert forall|e: int| 0 <= e < edges.len() && #[trigger] edge_done(edges, vis, u, k + 1, e)
        implies layer2[edges[e].1 as int] >= layer2[edges[e].0 as int] + 1 by {
        if e != k {
            assert(edge_done(edges, vis, u, k, e));
            assert(edges[e].0 != t);
            assert(layer2[edges[e].0 as int] == layer[edges[e].0 as int]);
            assert(layer2[edges[e].1 as int] >= layer[edges[e].1 as int]);
        } else {
            assert(layer2[u] == layer[u]);
            assert(layer2[t] >= layer[u] + 1);
        }
    }
    assert forall|x: int| 0 <= x < layer2.len() implies #[trigger] layer2[x] == 0 || exists|e: int|
        0 <= e < edges.len() && #[trigger] edge_done(edges, vis, u, k + 1, e) && edges[e].1 == x
            && layer2[x] == layer2[edges[e].0 as int] + 1 by {
        if x == t && layer[u] + 1 > layer[t] {
            assert(edge_done(edges, vis, u, k + 1, k));
        } else if layer2[x] != 0 {
            assert(layer2[x] == layer[x]);
            let e = choose|e: int| 0 <= e < edges.len() && #[trigger] edge_done(edges, vis, u, k, e) && edges[e].1 == x
                && layer[x] == layer[edges[e].0 as int] + 1;
            assert(edges[e].0 != t);
            assert(edge_done(edges, vis, u, k + 1, e));
        }
    }
}

proof fn lemma_layering_skip(edges: Seq<(usize, usize)>, layer: Seq<usize>, vis: Seq<bool>, u: int, k: int)
    requires
        layering_upto(edges, layer, vis, u, k),
        0 <= k < edges.len(),
        edges[k].0 != u,
    ensures
        layering_upto(edges, layer, vis, u, k + 1),
{
    assert forall|e: int| 0 <= e < edges.len() && #[trigger] edge_done(edges, vis, u, k + 1, e)
        implies layer[edges[e].1 as int] >= layer[edges[e].0 as int] + 1 by {
        assert(edge_done(edges, vis, u, k, e));
    }
    assert forall|x: int| 0 <= x < layer.len() implies #[trigger] layer[x] == 0 || exists|e: int|
        0 <= e < edges.len() && #[trigger] edge_done(edges, vis, u, k + 1, e) && edges[e].1 == x
            && layer[x] == layer[edges[e].0 as int] + 1 by {
        if layer[x] != 0 {
            let e = choose|e: int| 0 <= e < edges.len() && #[trigger] edge_done(edges, vis, u, k, e) && edges[e].1 == x
                && layer[x] == layer[edges[e].0 as int] + 1;
            assert(edge_done(edges, vis, u, k + 1, e));
        }
    }
}

/// When the queue runs dry with node `w` unvisited, the unvisited nodes all
/// have pending incoming edges from unvisited nodes: a cycle.
proof fn lemma_cycle_from_leftovers(
    n: nat,
    edges: Seq<(usize, usize)>,
    q: Seq<usize>,
    vis: Seq<bool>,
    inq: Seq<bool>,
    indeg: Seq<usize>,
    w: int,
)
    requires
        queue_ok(q, q.len() as int, vis, inq, n),
        edges_within(n, edges),
        indeg.len() == n,
        forall|x: int| 0 <= x < n ==> #[trigger] indeg[x] == in_count(edges, x, vis, edges.len() as int),
        forall|x: int| 0 <= x < n ==> (#[trigger] inq[x] <==> indeg[x] == 0),
        0 <= w < n,
        !vis[w],
    ensures
        has_cycle(n, edges),
{
    let s = Set::new(|x: int| 0 <= x < n && !vis[x]);
    assert(s.contains(w));
    assert forall|x: int| #[trigger] s.contains(x) implies 0 <= x < n && exists|k: int|
        0 <= k < edges.len() && edges[k].1 == x && s.contains(#[trigger] edges[k].0 as int) by {
        if inq[x] {
            let i = choose|i: int| 0 <= i < q.len() && q[i] == x;
            assert(vis[q[i] as int]);
        }
        assert(indeg[x] > 0);
        lemma_in_count_positive(edges, x, vis, edges.len() as int);
        let k = choose|k: int| 0 <= k < edges.len() && (#[trigger] edges[k]).1 == x && !vis[edges[k].0 as int];
        assert(s.contains(edges[k].0 as int));
    }
    reveal(cycle_witness);
    assert(cycle_witness(n, edges, s));
}

/// How many edges enter each node.
fn count_in_edges(n: usize, edges: &Vec<(usize, usize)>, vis: &Vec<bool>) -> (indeg: Vec<usize>)
    requires
        edges_within(n as nat, edges@),
        vis@.len() == n,
        forall|x: int| 0 <= x < n ==> !(#[trigger] vis@[x]),
    ensures
        indeg@.len() == n,
        forall|x: int| 0 <= x < n ==> #[trigger] indeg@[x] == in_count(edges@, x, vis@, edges@.len() as int),
{
    let ne = edges.len();
    let mut indeg: Vec<usize> = Vec::new();
    let mut i: usize = 0;
    while i < n
        invariant
            i <= n,
            indeg@.len() == i,
            forall|x: int| 0 <= x < i ==> indeg@[x] == 0,
        decreases n - i,
    {
        indeg.push(0);
        i = i + 1;
    }
    let mut k: usize = 0;
    while k < ne
        invariant
            ne == edges@.len(),
            edges_within(n as nat, edges@),
            k <= ne,
            indeg@.len() == n,
            vis@.len() == n,
            forall|x: int| 0 <= x < n ==> !(#[trigger] vis@[x]),
            forall|x: int| 0 <= x < n ==> #[trigger] indeg@[x] == in_count(edges@, x, vis@, k as int),
            forall|x: int| 0 <= x < n ==> #[trigger] indeg@[x] <= k,
        decreases ne - k,
    {
        let t = edges[k].1;
        assert(edges@[k as int].1 < n && edges@[k as int].0 < n);
        assert(!vis@[edges@[k as int].0 as int]);
        let cur = indeg[t];
        indeg.set(t, cur + 1);
        assert forall|x: int| 0 <= x < n implies #[trigger] indeg@[x] == in_count(edges@, x, vis@, k + 1) by {}
        k = k + 1;
    }
    indeg
}

/// The nodes without incoming edges, in node order, as the starting queue.
fn initial_queue(indeg: &Vec<usize>, vis: &Vec<bool>) -> (r: (Vec<usize>, Vec<bool>))
    requires
        vis@.len() == indeg@.len(),
        forall|x: int| 0 <= x < vis@.len() ==> !(#[trigger] vis@[x]),
    ensures
        queue_ok(r.0@, 0, vis@, r.1@, indeg@.len()),
        forall|x: int| 0 <= x < indeg@.len() ==> (#[trigger] r.1@[x] <==> indeg@[x] == 0),
{
    let n = indeg.len();
    let mut inq: Vec<bool> = Vec::new();
    let mut i: usize = 0;
    while i < n
        invariant
            i <= n,
            n == indeg@.len(),
            inq@.len() == i,
            forall|x: int| 0 <= x < i ==> !inq@[x],
        decreases n - i,
    {
        inq.push(false);
        i = i + 1;
    }
    let mut queue: Vec<usize> = Vec::new();
    let mut v: usize = 0;
    while v < n
        invariant
            v <= n,
            n == indeg@.len(),
            queue_ok(queue@, 0, vis@, inq@, n as nat),
            forall|x: int| 0 <= x < n ==> (#[trigger] inq@[x] <==> (x < v && indeg@[x] == 0)),
        decreases n - v,
    {
        if indeg[v] == 0 {
            proof {
                lemma_queue_push(queue@, 0, vis@, inq@, n as nat, v);
            }
            queue.push(v);
            inq.set(v, true);
        }
        v = v + 1;
    }
    (queue, inq)
}

/// Relaxes the edges out of the node `u` just visited: each target goes at
/// least one layer below `u`, loses one pending incoming edge, and joins the
/// queue when it has none left.
#[verifier::spinoff_prover]
fn relax_out_edges(
    u: usize,
    head: usize,
    edges: &Vec<(usize, usize)>,
    vis: &Vec<bool>,
    indeg: &mut Vec<usize>,
    layer: &mut Vec<usize>,
    inq: &mut Vec<bool>,
    queue: &mut Vec<usize>,
)
    requires
        edges_within(vis@.len(), edges@),
        old(indeg)@.len() == vis@.len(),
        old(layer)@.len() == vis@.len(),
        u < vis@.len(),
        vis@[u as int],
        queue_ok(old(queue)@, head as int, vis@, old(inq)@, vis@.len()),
        forall|x: int| 0 <= x < vis@.len() ==> #[trigger] old(indeg)@[x] == in_count(edges@, x, vis@, edges@.len() as int)
            + pair_count(edges@, u as int, x, 0, edges@.len() as int),
        forall|x: int| 0 <= x < vis@.len() ==> (#[trigger] old(inq)@[x] <==> old(indeg)@[x] == 0),
        layering_upto(edges@, old(layer)@, vis@, u as int, 0),
        forall|x: int| 0 <= x < vis@.len() ==> #[trigger] old(layer)@[x] <= head,
        old(layer)@[u as int] < head,
    ensures
        final(indeg)@.len() == vis@.len(),
        final(layer)@.len() == vis@.len(),
        queue_ok(final(queue)@, head as int, vis@, final(inq)@, vis@.len()),
        forall|x: int| 0 <= x < vis@.len() ==> #[trigger] final(indeg)@[x] == in_count(edges@, x, vis@, edges@.len() as int),
        forall|x: int| 0 <= x < vis@.len() ==> (#[trigger] final(inq)@[x] <==> final(indeg)@[x] == 0),
        layering_upto(edges@, final(layer)@, vis@, -1, 0),
        forall|x: int| 0 <= x < vis@.len() ==> #[trigger] final(layer)@[x] <= head,
        forall|x: int| 0 <= x < vis@.len() && vis@[x] ==> #[trigger] final(layer)@[x] == old(layer)@[x],
{
    let ghost n = vis@.len();
    let ghost layer0 = layer@;
    let ne = edges.len();
    let lu = layer[u];
    let mut k: usize = 0;
    while k < ne
        invariant
            ne == edges@.len(),
            edges_within(n, edges@),
            n == vis@.len(),
            indeg@.len() == n,
            layer@.len() == n,
            u < n,
            vis@[u as int],
            k <= ne,
            queue_ok(queue@, head as int, vis@, inq@, n),
            forall|x: int| 0 <= x < n ==> #[trigger] indeg@[x] == in_count(edges@, x, vis@, ne as int)
                + pair_count(edges@, u as int, x, k as int, ne as int),
            forall|x: int| 0 <= x < n ==> (#[trigger] inq@[x] <==> indeg@[x] == 0),
            layering_upto(edges@, layer@, vis@, u as int, k as int),
            forall|x: int| 0 <= x < n ==> #[trigger] layer@[x] <= head,
            forall|x: int| 0 <= x < n && vis@[x] ==> #[trigger] layer@[x] == layer0[x],
            lu == layer@[u as int],
            lu < head,
        decreases ne - k,
    {
        let (s, t) = edges[k];
        assert(s < n && t < n);
        if s == u {
            proof {
                assert(pair_count(edges@, u as int, t as int, k as int, ne as int)
                    == 1 + pair_count(edges@, u as int, t as int, k + 1, ne as int));
                assert(indeg@[t as int] >= 1);
                assert(!inq@[t as int]);
                assert(!vis@[t as int]);
            }
            let ghost old_layer = layer@;
            if lu + 1 > layer[t] {
                layer.set(t, lu + 1);
            }
            proof {
                lemma_layering_relax(edges@, old_layer, layer@, vis@, u as int, k as int, t as int);
            }
            let d = indeg[t] - 1;
            indeg.set(t, d);
            if d == 0 {
                proof {
                    lemma_queue_push(queue@, head as int, vis@, inq@, n, t);
                }
                queue.push(t);
                inq.set(t, true);
            }
            assert forall|x: int| 0 <= x < n implies #[trigger] indeg@[x] == in_count(edges@, x, vis@, ne as int)
                + pair_count(edges@, u as int, x, k + 1, ne as int) by {
                if x != t {
                    assert(pair_count(edges@, u as int, x, k as int, ne as int)
                        == pair_count(edges@, u as int, x, k + 1, ne as int));
                }
            }
        } else {
            proof {
                lemma_layering_skip(edges@, layer@, vis@, u as int, k as int);
            }
            assert forall|x: int| 0 <= x < n implies #[trigger] indeg@[x] == in_count(edges@, x, vis@, ne as int)
                + pair_count(edges@, u as int, x, k + 1, ne as int) by {
                assert(pair_count(edges@, u as int, x, k as int, ne as int)
                    == pair_count(edges@, u as int, x, k + 1, ne as int));
            }
        }
        k = k + 1;
    }
    proof {
        lemma_layering_finish(edges@, layer@, vis@, u as int);
        assert forall|x: int| 0 <= x < n implies #[trigger] indeg@[x] == in_count(edges@, x, vis@, ne as int) by {}
    }
}

/// Assigns each of the `n` nodes a layer by Kahn's topological sort, each node
/// one layer below its deepest predecessor; fails exactly when the edges form
/// a cycle.
pub fn assign_layers(n: usize, edges: &Vec<(usize, usize)>) -> (r: Result<Vec<usize>, SankeyGraphError>)
    requires
        edges_within(n as nat, edges@),
    ensures
        r is Ok <==> !has_cycle(n as nat, edges@),
        r matches Ok(layer) ==> layer@.len() == n && longest_path_layers(edges@, layer@),
        r matches Ok(layer) ==> forall|v: int| 0 <= v < n ==> #[trigger] layer@[v] < n,
        r matches Err(e) ==> e == SankeyGraphError::Cycle,
{
    let ne = edges.len();
    let mut layer: Vec<usize> = Vec::new();
    let mut vis: Vec<bool> = Vec::new();
    let mut i: usize = 0;
    while i < n
        invariant
            i <= n,
            layer@.len() == i,
            vis@.len() == i,
            forall|x: int| 0 <= x < i ==> layer@[x] == 0 && !vis@[x],
        decreases n - i,
    {
        layer.push(0);
        vis.push(false);
        i = i + 1;
    }
    let mut indeg = count_in_edges(n, edges, &vis);
    let (mut queue, mut inq) = initial_queue(&indeg, &vis);
    let mut head: usize = 0;
    while head < queue.len()
        invariant
            ne == edges@.len(),
            edges_within(n as nat, edges@),
            vis@.len() == n,
            indeg@.len() == n,
            layer@.len() == n,
            queue_ok(queue@, head as int, vis@, inq@, n as nat),
            forall|x: int| 0 <= x < n ==> #[trigger] indeg@[x] == in_count(edges@, x, vis@, ne as int),
            forall|x: int| 0 <= x < n ==> (#[trigger] inq@[x] <==> indeg@[x] == 0),
            layering_upto(edges@, layer@, vis@, -1, 0),
            forall|x: int| 0 <= x < n ==> #[trigger] layer@[x] <= head,
            forall|x: int| 0 <= x < n && vis@[x] ==> #[trigger] layer@[x] < head,
        decreases n - head,
    {
        let u = queue[head];
        proof {
            lemma_queue_pop(queue@, head as int, vis@, inq@, n as nat);
            lemma_layering_pop(edges@, layer@, vis@, u as int);
            assert forall|x: int| 0 <= x < n implies #[trigger] indeg@[x] == in_count(edges@, x, vis@.update(u as int, true), ne as int)
                + pair_count(edges@, u as int, x, 0, ne as int) by {
                lemma_in_count_mark(edges@, x, vis@, u as int, ne as int);
            }
        }
        vis.set(u, true);
        head = head + 1;
        let ghost before = layer@;
        relax_out_edges(u, head, edges, &vis, &mut indeg, &mut layer, &mut inq, &mut queue);
        assert forall|x: int| 0 <= x < n && vis@[x] implies #[trigger] layer@[x] < head by {
            assert(layer@[x] == before[x]);
        }
    }
    proof {
        lemma_queue_bounded(queue@, n as nat);
    }
    let mut w: usize = 0;
    while w < n
        invariant
            w <= n,
            head == queue@.len(),
            head <= n,
            vis@.len() == n,
            ne == edges@.len(),
            edges_within(n as nat, edges@),
            indeg@.len() == n,
            layer@.len() == n,
            queue_ok(queue@, queue@.len() as int, vis@, inq@, n as nat),
            forall|x: int| 0 <= x < n ==> #[trigger] indeg@[x] == in_count(edges@, x, vis@, ne as int),
            forall|x: int| 0 <= x < n ==> (#[trigger] inq@[x] <==> indeg@[x] == 0),
            layering_upto(edges@, layer@, vis@, -1, 0),
            forall|x: int| 0 <= x < n && vis@[x] ==> #[trigger] layer@[x] < head,
            forall|x: int| 0 <= x < w ==> #[trigger] vis@[x],
        decreases n - w,
    {
        if !vis[w] {
            proof {
                lemma_cycle_from_leftovers(n as nat, edges@, queue@, vis@, inq@, indeg@, w as int);
            }
            return Err(SankeyGraphError::Cycle);
        }
        w = w + 1;
    }
    proof {
        assert forall|e: int| 0 <= e < ne implies layer@[(#[trigger] edges@[e]).1 as int] >= layer@[edges@[e].0 as int] + 1 by {
            assert(edge_done(edges@, vis@, -1, 0, e));
        }
        assert forall|x: int| 0 <= x < layer@.len() implies #[trigger] layer@[x] == 0 || exists|e: int|
            0 <= e < edges@.len() && (#[trigger] edges@[e]).1 == x && layer@[x] == layer@[edges@[e].0 as int] + 1 by {
            if layer@[x] != 0 {
                let e = choose|e: int| 0 <= e < edges@.len() && #[trigger] edge_done(edges@, vis@, -1, 0, e) && edges@[e].1 == x
                    && layer@[x] == layer@[edges@[e].0 as int] + 1;
                assert(edges@[e].1 == x);
            }
        }
        assert forall|v: int| 0 <= v < n implies #[trigger] layer@[v] < n by {
            assert(vis@[v]);
        }
        layered_graph_has_no_cycle(n as nat, edges@, layer@);
    }
    Ok(layer)
}

/// Nodes and edges of a sankey diagram as identified from its flows, each
/// flow given by the names of its source and target.
pub struct SankeyStructure {
    /// Node names, each once, in the order they first occur as a source or
    /// target.
    pub names: Vec<String>,
    /// The distinct (source, target) node pairs, in the order they first occur.
    pub edges: Vec<(usize, usize)>,
    /// For each flow, the edge it adds to.
    pub flow_edge: Vec<usize>,
    /// The layer of each node.
    pub layer: Vec<usize>,
    /// For each layer from 0 to the deepest, its nodes in node order.
    pub layers: Vec<Vec<usize>>,
}

/// The names the flows mention, source then target, flow by flow.
pub open spec fn endpoint_texts(flows: Seq<(String, String)>) -> Seq<Seq<char>> {
    Seq::new(2 * flows.len(), |i: int| if i % 2 == 0 { flows[i / 2].0@ } else { flows[i / 2].1@ })
}

/// The node names: each name once, in first-seen order.
pub open spec fn spec_node_names(flows: Seq<(String, String)>) -> Seq<Seq<char>> {
    distinct_in_order(endpoint_texts(flows))
}

/// Each flow as a pair of node numbers.
pub open spec fn flow_pairs(flows: Seq<(String, String)>) -> Seq<(usize, usize)> {
    Seq::new(flows.len(), |k: int| (
        index_in(spec_node_names(flows), flows[k].0@) as usize,
        index_in(spec_node_names(flows), flows[k].1@) as usize,
    ))
}

/// The edges: each node pair once, in first-seen order.
pub open spec fn spec_edges(flows: Seq<(String, String)>) -> Seq<(usize, usize)> {
    distinct_in_order(flow_pairs(flows))
}

/// The nodes below `hi` that sit in layer `l`, in increasing order.
pub open spec fn nodes_in_layer(layer: Seq<usize>, l: int, hi: int) -> Seq<usize>
    decreases hi,
{
    if hi <= 0 {
        Seq::empty()
    } else if layer[hi - 1] == l {
        nodes_in_layer(layer, l, hi - 1).push((hi - 1) as usize)
    } else {
        nodes_in_layer(layer, l, hi - 1)
    }
}

proof fn lemma_layer_member(layer: Seq<usize>, l: int, v: int, hi: int)
    requires
        0 <= v < hi,
        layer[v] == l,
    ensures
        nodes_in_layer(layer, l, hi).len() > 0,
    decreases hi,
{
    if v < hi - 1 {
        lemma_layer_member(layer, l, v, hi - 1);
    }
}

/// The nodes of layer `l`, in node order.
fn collect_layer(layer: &Vec<usize>, l: usize) -> (r: Vec<usize>)
    ensures
        r@ == nodes_in_layer(layer@, l as int, layer@.len() as int),
{
    let mut out: Vec<usize> = Vec::new();
    let mut i: usize = 0;
    while i < layer.len()
        invariant
            i <= layer@.len(),
            out@ == nodes_in_layer(layer@, l as int, i as int),
        decreases layer@.len() - i,
    {
        if layer[i] == l {
            out.push(i);
        }
        i = i + 1;
    }
    out
}

/// Identifies the nodes and edges of a sankey diagram and places the nodes in
/// layers: node names in first-seen order, duplicate (source, target) pairs
/// merged into one edge, each node one layer below its deepest predecessor,
/// and the nodes of each layer in node order. Fails on no flows, and on flows
/// that form a cycle.
pub fn sankey_structure(flows: &Vec<(String, String)>) -> (r: Result<SankeyStructure, SankeyGraphError>)
    requires
        2 * flows@.len() <= usize::MAX,
    ensures
        flows@.len() == 0 ==> r == Err::<SankeyStructure, SankeyGraphError>(SankeyGraphError::Empty),
        flows@.len() > 0 ==> (r is Ok <==> !has_cycle(spec_node_names(flows@).len(), spec_edges(flows@))),
        flows@.len() > 0 && r is Err ==> r == Err::<SankeyStructure, SankeyGraphError>(SankeyGraphError::Cycle),
        r matches Ok(g) ==> texts(g.names@) == spec_node_names(flows@) && g.edges@ == spec_edges(flows@),
        r matches Ok(g) ==> g.flow_edge@.len() == flows@.len() && forall|k: int| 0 <= k < flows@.len()
            ==> #[trigger] g.flow_edge@[k] < g.edges@.len() && g.edges@[g.flow_edge@[k] as int] == flow_pairs(flows@)[k],
        r matches Ok(g) ==> g.layer@.len() == g.names@.len() && longest_path_layers(g.edges@, g.layer@),
        r matches Ok(g) ==> g.layers@.len() > 0 && forall|v: int| 0 <= v < g.layer@.len() ==> #[trigger] g.layer@[v] < g.layers@.len(),
        r matches Ok(g) ==> g.layers@[g.layers@.len() - 1]@.len() > 0,
        r matches Ok(g) ==> forall|l: int| 0 <= l < g.layers@.len()
            ==> (#[trigger] g.layers@[l])@ == nodes_in_layer(g.layer@, l, g.layer@.len() as int),
{
    if flows.len() == 0 {
        return Err(SankeyGraphError::Empty);
    }
    let ghost ends = endpoint_texts(flows@);
    let mut flat: Vec<String> = Vec::new();
    let mut k: usize = 0;
    while k < flows.len()
        invariant
            k <= flows@.len(),
            2 * flows@.len() <= usize::MAX,
            ends == endpoint_texts(flows@),
            flat@.len() == 2 * k,
            forall|i: int| 0 <= i < 2 * k ==> (#[trigger] flat@[i])@ == ends[i],
        decreases flows@.len() - k,
    {
        let a = flows[k].0.clone();
        let b = flows[k].1.clone();
        flat.push(a);
        flat.push(b);
        k = k + 1;
    }
    proof {
        assert(texts(flat@) == ends);
    }
    let (names, ids) = group_first_seen(&flat);
    let ghost nm = spec_node_names(flows@);
    proof {
        lemma_distinct_in_order(ends);
    }
    let mut pairs: Vec<(usize, usize)> = Vec::new();
    let mut k: usize = 0;
    while k < flows.len()
        invariant
            k <= flows@.len(),
            2 * flows@.len() <= usize::MAX,
            ends == endpoint_texts(flows@),
            nm == spec_node_names(flows@),
            texts(names@) == nm,
            nm.no_duplicates(),
            flat@.len() == 2 * flows@.len(),
            forall|i: int| 0 <= i < 2 * flows@.len() ==> (#[trigger] flat@[i])@ == ends[i],
            ids@.len() == flat@.len(),
            forall|q: int| 0 <= q < flat@.len() ==> #[trigger] ids@[q] < names@.len() && names@[ids@[q] as int]@ == flat@[q]@,
            pairs@.len() == k,
            forall|q: int| 0 <= q < k ==> #[trigger] pairs@[q] == flow_pairs(flows@)[q],
            forall|q: int| 0 <= q < k ==> pairs@[q].0 < names@.len() && pairs@[q].1 < names@.len(),
        decreases flows@.len() - k,
    {
        let s = ids[2 * k];
        let t = ids[2 * k + 1];
        proof {
            assert(ends[2 * k] == flows@[k as int].0@);
            assert(ends[2 * k + 1] == flows@[k as int].1@);
            assert(nm[s as int] == flows@[k as int].0@);
            assert(nm[t as int] == flows@[k as int].1@);
            lemma_index_in_unique(nm, s as int);
            lemma_index_in_unique(nm, t as int);
        }
        pairs.push((s, t));
        k = k + 1;
    }
    proof {
        assert(pairs@ == flow_pairs(flows@));
    }
    let (edges, flow_edge) = group_pairs_first_seen(&pairs);
    let n = names.len();
    proof {
        lemma_distinct_in_order(pairs@);
        assert forall|e: int| 0 <= e < edges@.len() implies (#[trigger] edges@[e]).0 < n && edges@[e].1 < n by {
            assert(pairs@.contains(edges@[e]));
            let q = choose|q: int| 0 <= q < pairs@.len() && pairs@[q] == edges@[e];
        }
    }
    let layer = match assign_layers(n, &edges) {
        Ok(layer) => layer,
        Err(e) => {
            return Err(e);
        },
    };
    assert(n > 0) by {
        assert(ends[0] == flows@[0].0@);
        assert(ends.contains(flows@[0].0@));
        assert(nm.contains(flows@[0].0@));
    }
    let mut deepest: usize = layer[0];
    let mut arg: usize = 0;
    let mut i: usize = 1;
    while i < n
        invariant
            1 <= i <= n,
            layer@.len() == n,
            forall|v: int| 0 <= v < n ==> #[trigger] layer@[v] < n,
            forall|v: int| 0 <= v < i ==> #[trigger] layer@[v] <= deepest,
            arg < i,
            layer@[arg as int] == deepest,
        decreases n - i,
    {
        if layer[i] > deepest {
            deepest = layer[i];
            arg = i;
        }
        i = i + 1;
    }
    let mut layers: Vec<Vec<usize>> = Vec::new();
    let mut l: usize = 0;
    while l <= deepest
        invariant
            deepest < n,
            l <= deepest + 1,
            layers@.len() == l,
            forall|j: int| 0 <= j < l ==> (#[trigger] layers@[j])@ == nodes_in_layer(layer@, j, layer@.len() as int),
        decreases deepest + 1 - l,
    {
        let members = collect_layer(&layer, l);
        layers.push(members);
        l = l + 1;
    }
    proof {
        lemma_layer_member(layer@, deepest as int, arg as int, n as int);
    }
    Ok(SankeyStructure { names, edges, flow_edge, layer, layers })
}

} // verus!
