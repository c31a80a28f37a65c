//! Reachability in the railway graph: the nodes and edges that can be reached from a node,
//! found by petgraph's breadth-first search.
use crate::graph_lemmas::{
    lemma_incident_edges_members, lemma_joined_is_neighbor, lemma_neighbors_joined,
    lemma_neighbors_within, lemma_reachable_extend, lemma_reachable_self,
};
use crate::petgraph_specs::{
    bfs_capacity, bfs_discover, bfs_next, bfs_start, bfs_state, graph_edge_weight,
    graph_incident_edges, graph_node,
};
use crate::railway_model::{
    connects, incident_edges, joins, neighbors, reachable, EdgeEntry, RailwayGraph,
};
use crate::types::{EdgeId, NodeId};
use vstd::prelude::*;

verus! {

broadcast use vstd::std_specs::hash::group_hash_axioms;

/// What a step of the search adds: the nodes of `ns` not yet discovered, in order and each
/// once; afterwards every node of `ns` is discovered.
pub proof fn lemma_discover(q: Seq<usize>, d: Set<usize>, ns: Seq<usize>) -> (added: Seq<usize>)
    ensures
        bfs_discover(q, d, ns).0 == q + added,
        forall|x: usize| #[trigger]
            bfs_discover(q, d, ns).1.contains(x) <==> (d.contains(x) || added.contains(x)),
        added.no_duplicates(),
        forall|k: int|
            0 <= k < added.len() ==> !d.contains(#[trigger] added[k]) && ns.contains(added[k]),
        forall|k: int| 0 <= k < ns.len() ==> bfs_discover(q, d, ns).1.contains(#[trigger] ns[k]),
    decreases ns.len(),
{
    if ns.len() == 0 {
        assert(q + Seq::<usize>::empty() =~= q);
        Seq::empty()
    } else if d.contains(ns[0]) {
        let rest = ns.drop_first();
        let a = lemma_discover(q, d, rest);
        assert forall|k: int| 0 <= k < a.len() implies !d.contains(#[trigger] a[k]) && ns.contains(
            a[k],
        ) by {
            let m = choose|m: int| 0 <= m < rest.len() && rest[m] == a[k];
            assert(ns[m + 1] == a[k]);
        }
        assert forall|k: int| 0 <= k < ns.len() implies bfs_discover(q, d, ns).1.contains(
            #[trigger] ns[k],
        ) by {
            if k > 0 {
                assert(ns[k] == rest[k - 1]);
            }
        }
        a
    } else {
        let x = ns[0];
        let rest = ns.drop_first();
        let a = lemma_discover(q.push(x), d.insert(x), rest);
        let added = seq![x] + a;
        assert(q.push(x) + a =~= q + added);
        assert forall|y: usize| #[trigger]
            bfs_discover(q, d, ns).1.contains(y) <==> (d.contains(y) || added.contains(y)) by {
            if a.contains(y) {
                let m = choose|m: int| 0 <= m < a.len() && a[m] == y;
                assert(added[m + 1] == y);
            }
            if added.contains(y) && y != x {
                let m = choose|m: int| 0 <= m < added.len() && added[m] == y;
                assert(a[m - 1] == y);
            }
            if y == x {
                assert(added[0] == y);
            }
        }
        assert forall|k: int| 0 <= k < added.len() implies !d.contains(#[trigger] added[k])
            && ns.contains(added[k]) by {
            if k > 0 {
                assert(added[k] == a[k - 1]);
                let m = choose|m: int| 0 <= m < rest.len() && rest[m] == a[k - 1];
                assert(ns[m + 1] == a[k - 1]);
            } else {
                assert(ns[0] == added[k]);
            }
        }
        assert forall|i: int, j: int| 0 <= i < added.len() && 0 <= j < added.len() && i != j implies added[i] != added[j] by {
            if i > 0 && j > 0 {
                assert(added[i] == a[i - 1] && added[j] == a[j - 1]);
            } else if i == 0 {
                assert(!d.insert(x).contains(a[j - 1]));
            } else {
                assert(!d.insert(x).contains(a[i - 1]));
            }
        }
        assert forall|k: int| 0 <= k < ns.len() implies bfs_discover(q, d, ns).1.contains(
            #[trigger] ns[k],
        ) by {
            if k > 0 {
                assert(ns[k] == rest[k - 1]);
            }
        }
        added
    }
}

/// A sequence of distinct values below `n` has at most `n` elements.
pub proof fn lemma_distinct_bounded_len(s: Seq<usize>, n: usize)
    requires
        s.no_duplicates(),
        forall|k: int| 0 <= k < s.len() ==> #[trigger] s[k] < n,
    ensures
        s.len() <= n,
{
    s.unique_seq_to_set();
    let r = Set::<usize>::range(0, n);
    vstd::set_lib::range_set_properties::<usize>(0, n);
    assert(s.to_set().subset_of(r));
    vstd::set_lib::lemma_len_subset(s.to_set(), r);
}

/// If `vis` holds `s` and every neighbour of each of its nodes, it holds every node that a
/// walk from `s` reaches.
pub proof fn lemma_closed_set_holds_reachable(
    es: Seq<EdgeEntry>,
    vis: Set<usize>,
    s: usize,
    t: usize,
    path: Seq<usize>,
    steps: Seq<usize>,
)
    requires
        es.len() <= usize::MAX,
        vis.contains(s),
        forall|v: usize, m: int|
            vis.contains(v) && 0 <= m < neighbors(es, v).len() ==> vis.contains(
                #[trigger] neighbors(es, v)[m],
            ),
        connects(es, path, steps, s, t),
    ensures
        vis.contains(t),
{
    assert forall|k: int| 0 <= k < path.len() implies vis.contains(#[trigger] path[k]) by {
        lemma_path_prefix_in_closed(es, vis, path, steps, k);
    }
    assert(vis.contains(path[path.len() - 1]));
}

proof fn lemma_path_prefix_in_closed(
    es: Seq<EdgeEntry>,
    vis: Set<usize>,
    path: Seq<usize>,
    steps: Seq<usize>,
    k: int,
)
    requires
        es.len() <= usize::MAX,
        vis.contains(path[0]),
        forall|v: usize, m: int|
            vis.contains(v) && 0 <= m < neighbors(es, v).len() ==> vis.contains(
                #[trigger] neighbors(es, v)[m],
            ),
        crate::railway_model::is_walk(es, path, steps),
        0 <= k < path.len(),
    ensures
        vis.contains(path[k]),
    decreases k,
{
    if k > 0 {
        lemma_path_prefix_in_closed(es, vis, path, steps, k - 1);
        assert(steps[k - 1] < es.len());
        let j = steps[k - 1] as int;
        assert(joins(es[j], path[k - 1], path[k]));
        let u = path[k - 1];
        let w = path[k];
        lemma_joined_is_neighbor(es, u, w, j);
        let nu = neighbors(es, u);
        let m = choose|m: int| 0 <= m < nu.len() && nu[m] == w;
        assert(vis.contains(nu[m]));
    }
}

/// Whether edge `e` has an end among the nodes of `vs`.
pub open spec fn touches(e: EdgeEntry, vs: Seq<usize>) -> bool {
    vs.contains(e.0) || vs.contains(e.1)
}

/// The nodes that a breadth-first search visits, in order, from queue `q` and discovered set
/// `d`, in at most `fuel` steps: each step visits the front of the queue and discovers its
/// neighbours (see `bfs_discover`).
pub open spec fn bfs_trace(es: Seq<EdgeEntry>, q: Seq<usize>, d: Set<usize>, fuel: nat) -> Seq<usize>
    decreases fuel,
{
    if fuel == 0 || q.len() == 0 {
        seq![]
    } else {
        let next = bfs_discover(q.drop_first(), d, neighbors(es, q[0]));
        seq![q[0]] + bfs_trace(es, next.0, next.1, (fuel - 1) as nat)
    }
}

/// The nodes that petgraph's breadth-first search from `s` visits in a graph of `n` nodes,
/// in the order it visits them.
pub open spec fn bfs_visit_order(es: Seq<EdgeEntry>, s: usize, n: nat) -> Seq<usize> {
    bfs_trace(es, seq![s], set![s], n)
}

/// The ids of the edges at each node of `order` in turn, at each node in the order the graph
/// lists them (repeats included).
pub open spec fn edge_ids_met(es: Seq<EdgeEntry>, order: Seq<usize>) -> Seq<EdgeId>
    decreases order.len(),
{
    if order.len() == 0 {
        seq![]
    } else {
        edge_ids_met(es, order.drop_last()) + incident_edges(es, order.last()).map_values(
            |j: usize| es[j as int].2.id,
        )
    }
}

/// The values of `s` at their first occurrences, in order.
pub open spec fn first_occurrences(s: Seq<i64>) -> Seq<i64>
    decreases s.len(),
{
    if s.len() == 0 {
        seq![]
    } else {
        let r = first_occurrences(s.drop_last());
        if r.contains(s.last()) {
            r
        } else {
            r.push(s.last())
        }
    }
}

impl RailwayGraph {
    /// The nodes that petgraph's breadth-first search from node index `s` visits, in the
    /// order it visits them (`bfs_visit_order`): `s` first, each node once, and exactly the
    /// nodes reachable from `s`.
    pub fn bfs_order(&self, s: usize) -> (r: Vec<usize>)
        requires
            self.wf(),
            s < self.nodes().len(),
        ensures
            r@ == bfs_visit_order(self.edges(), s, self.nodes().len()),
            r@.len() >= 1,
            r@[0] == s,
            r@.no_duplicates(),
            forall|i: usize|
                #[trigger] r@.contains(i) <==> (i < self.nodes().len() && reachable(
                    self.edges(),
                    s,
                    i,
                )),
    {
        let ghost es = self.edges();
        let ghost n = self.nodes().len();
        let mut b = bfs_start(&self.graph, s);
        let mut order: Vec<usize> = Vec::new();
        proof {
            lemma_reachable_self(es, s);
            assert(order@ + seq![s] =~= seq![s]);
            assert(order@ + bfs_visit_order(es, s, n) =~= bfs_visit_order(es, s, n));
        }
        loop
            invariant
                self.wf(),
                es == self.edges(),
                n == self.nodes().len(),
                s < n,
                order@.len() <= n,
                bfs_capacity(b) == n,
                forall|k: int| 0 <= k < bfs_state(b).0.len() ==> #[trigger] bfs_state(b).0[k] < n,
                forall|k: int| 0 <= k < order@.len() ==> #[trigger] order@[k] < n,
                (order@ + bfs_state(b).0).no_duplicates(),
                forall|x: usize| #[trigger]
                    bfs_state(b).1.contains(x) <==> (order@.contains(x) || bfs_state(
                        b,
                    ).0.contains(x)),
                (order@ + bfs_state(b).0).len() > 0,
                (order@ + bfs_state(b).0)[0] == s,
                forall|x: usize| #[trigger] bfs_state(b).1.contains(x) ==> reachable(es, s, x),
                forall|k: int, m: int|
                    0 <= k < order@.len() && 0 <= m < neighbors(es, order@[k]).len()
                        ==> bfs_state(b).1.contains(#[trigger] neighbors(es, order@[k])[m]),
                order@ + bfs_trace(es, bfs_state(b).0, bfs_state(b).1, (n - order@.len()) as nat) == bfs_visit_order(es, s, n),
            ensures
                order@ == bfs_visit_order(es, s, n),
                bfs_state(b).0.len() == 0,
                forall|x: usize| #[trigger] bfs_state(b).1.contains(x) <==> order@.contains(x),
                order@.len() > 0,
                order@[0] == s,
                order@.no_duplicates(),
                forall|k: int| 0 <= k < order@.len() ==> #[trigger] order@[k] < n,
                forall|x: usize| #[trigger] bfs_state(b).1.contains(x) ==> reachable(es, s, x),
                forall|k: int, m: int|
                    0 <= k < order@.len() && 0 <= m < neighbors(es, order@[k]).len()
                        ==> bfs_state(b).1.contains(#[trigger] neighbors(es, order@[k])[m]),
            decreases n - order@.len(),
        {
            let ghost q = bfs_state(b).0;
            let ghost d = bfs_state(b).1;
            let ghost old_order = order@;
            match bfs_next(&mut b, &self.graph) {
                Some(v) => {
                    proof {
                        let ns = neighbors(es, v);
                        let added = lemma_discover(q.drop_first(), d, ns);
                        lemma_neighbors_within(es, n, v);
                        let new_order = old_order.push(v);
                        let new_q = q.drop_first() + added;
                        assert(new_order + new_q =~= (old_order + q) + added);
                        assert(bfs_state(b).0 == new_q);
                        // every node of the queue is in range
                        assert forall|k: int| 0 <= k < new_q.len() implies #[trigger] new_q[k] < n by {
                            if k < q.len() - 1 {
                                assert(new_q[k] == q[k + 1]);
                            } else {
                                let x = added[k - (q.len() - 1)];
                                assert(new_q[k] == x);
                                let m = choose|m: int| 0 <= m < ns.len() && ns[m] == x;
                            }
                        }
                        // discovered nodes are exactly the visited and queued ones
                        let oq = old_order + q;
                        assert forall|x: usize| d.contains(x) <==> oq.contains(x) by {
                            if order@.contains(x) && d.contains(x) {
                            }
                            if d.contains(x) {
                                if old_order.contains(x) {
                                    let m = choose|m: int| 0 <= m < old_order.len() && old_order[m] == x;
                                    assert(oq[m] == x);
                                } else {
                                    let m = choose|m: int| 0 <= m < q.len() && q[m] == x;
                                    assert(oq[old_order.len() + m] == x);
                                }
                            }
                            if oq.contains(x) {
                                let m = choose|m: int| 0 <= m < oq.len() && oq[m] == x;
                                if m < old_order.len() {
                                    assert(old_order[m] == x);
                                } else {
                                    assert(q[m - old_order.len()] == x);
                                }
                            }
                        }
                        let all = oq + added;
                        assert forall|x: usize| #[trigger] bfs_state(b).1.contains(x) <==> all.contains(x) by {
                            if all.contains(x) {
                                let m = choose|m: int| 0 <= m < all.len() && all[m] == x;
                                if m < oq.len() {
                                    assert(oq[m] == x);
                                } else {
                                    assert(added[m - oq.len()] == x);
                                }
                            }
                            if oq.contains(x) {
                                let m = choose|m: int| 0 <= m < oq.len() && oq[m] == x;
                                assert(all[m] == x);
                            }
                            if added.contains(x) {
                                let m = choose|m: int| 0 <= m < added.len() && added[m] == x;
                                assert(all[oq.len() + m] == x);
                            }
                        }
                        assert(new_order + new_q == all);
                        assert forall|x: usize| #[trigger] bfs_state(b).1.contains(x) <==> (new_order.contains(x) || bfs_state(b).0.contains(x)) by {
                            if all.contains(x) {
                                let m = choose|m: int| 0 <= m < all.len() && all[m] == x;
                                if m < new_order.len() {
                                    assert(new_order[m] == x);
                                } else {
                                    assert(new_q[m - new_order.len()] == x);
                                }
                            }
                            if new_order.contains(x) {
                                let m = choose|m: int| 0 <= m < new_order.len() && new_order[m] == x;
                                assert(all[m] == x);
                            }
                            if new_q.contains(x) {
                                let m = choose|m: int| 0 <= m < new_q.len() && new_q[m] == x;
                                assert(all[new_order.len() + m] == x);
                            }
                        }
                        // no node appears twice
                        assert forall|i: int, j: int| 0 <= i < all.len() && 0 <= j < all.len() && i != j implies all[i] != all[j] by {
                            if i < oq.len() && j < oq.len() {
                                assert(all[i] == oq[i] && all[j] == oq[j]);
                            } else if i >= oq.len() && j >= oq.len() {
                                assert(all[i] == added[i - oq.len()] && all[j] == added[j - oq.len()]);
                            } else if i < oq.len() {
                                assert(all[i] == oq[i]);
                                assert(oq.contains(oq[i]));
                                assert(d.contains(oq[i]));
                                assert(all[j] == added[j - oq.len()]);
                                assert(!d.contains(added[j - oq.len()]));
                            } else {
                                assert(all[j] == oq[j]);
                                assert(oq.contains(oq[j]));
                                assert(d.contains(oq[j]));
                                assert(all[i] == added[i - oq.len()]);
                                assert(!d.contains(added[i - oq.len()]));
                            }
                        }
                        assert(all[0] == s);
                        // every discovered node is reachable
                        assert(oq[old_order.len() as int] == v);
                        assert(d.contains(v));
                        assert forall|x: usize| #[trigger] bfs_state(b).1.contains(x) implies reachable(es, s, x) by {
                            if !d.contains(x) {
                                let m = choose|m: int| 0 <= m < added.len() && added[m] == x;
                                let k = choose|k: int| 0 <= k < ns.len() && ns[k] == x;
                                lemma_neighbors_joined(es, v, k);
                                lemma_reachable_extend(es, s, v, x, incident_edges(es, v)[k]);
                            }
                        }
                        // the neighbours of every visited node are discovered
                        assert forall|k: int, m: int|
                            0 <= k < new_order.len() && 0 <= m < neighbors(es, new_order[k]).len()
                            implies bfs_state(b).1.contains(#[trigger] neighbors(es, new_order[k])[m]) by {
                            if k < old_order.len() {
                                assert(new_order[k] == old_order[k]);
                                assert(d.contains(neighbors(es, old_order[k])[m]));
                            }
                        }
                        assert forall|k: int| 0 <= k < new_order.len() implies #[trigger] new_order[k] < n by {
                            if k == old_order.len() {
                                assert(q[0] < n);
                            }
                        }
                        assert(new_order.no_duplicates()) by {
                            assert forall|i: int, j: int| 0 <= i < new_order.len() && 0 <= j < new_order.len() && i != j implies new_order[i] != new_order[j] by {
                                assert(all[i] == new_order[i] && all[j] == new_order[j]);
                            }
                        }
                        lemma_distinct_bounded_len(new_order, n as usize);
                        let f = (n - old_order.len()) as nat;
                        assert(f > 0);
                        assert(bfs_trace(es, q, d, f) == seq![v] + bfs_trace(es, new_q, bfs_state(b).1, (f - 1) as nat));
                        assert(new_order + bfs_trace(es, new_q, bfs_state(b).1, (f - 1) as nat) =~= old_order + bfs_trace(es, q, d, f));
                    }
                    order.push(v);
                },
                None => {
                    proof {
                        assert(q.len() == 0);
                        assert(order@ + q =~= order@);
                        assert(order@ + Seq::<usize>::empty() =~= order@);
                        assert(order@[0] == s);
                    }
                    break ;
                },
            }
        }
        proof {
            let vis = bfs_state(b).1;
            assert(vis.contains(s)) by {
                assert(order@.contains(order@[0]));
            }
            assert forall|i: usize| #[trigger] order@.contains(i) <==> (i < n && reachable(es, s, i)) by {
                if order@.contains(i) {
                    let m = choose|m: int| 0 <= m < order@.len() && order@[m] == i;
                    assert(vis.contains(i));
                }
                if i < n && reachable(es, s, i) {
                    let (path, steps) = choose|path: Seq<usize>, steps: Seq<usize>|
                        #[trigger] connects(es, path, steps, s, i);
                    assert forall|v: usize, m: int|
                        vis.contains(v) && 0 <= m < neighbors(es, v).len() implies vis.contains(
                            #[trigger] neighbors(es, v)[m],
                        ) by {
                        let k = choose|k: int| 0 <= k < order@.len() && order@[k] == v;
                        assert(vis.contains(neighbors(es, order@[k])[m]));
                    }
                    lemma_closed_set_holds_reachable(es, vis, s, i, path, steps);
                }
            }
        }
        order
    }
}


/// Whether `v` holds `x`.
fn holds_id(v: &Vec<EdgeId>, x: EdgeId) -> (r: bool)
    ensures
        r == v@.contains(x),
{
    let mut k: usize = 0;
    while k < v.len()
        invariant
            k <= v@.len(),
            forall|m: int| 0 <= m < k ==> v@[m] != x,
        decreases v@.len() - k,
    {
        if v[k] == x {
            return true;
        }
        k = k + 1;
    }
    false
}

impl RailwayGraph {
    /// The ids of all nodes reachable from the node with id `start_node_id`, other than that
    /// node itself, each once, in the order of petgraph's breadth-first search. Empty where the
    /// graph holds no node with that id.
    pub fn reachable_nodes(&self, start_node_id: NodeId) -> (r: Vec<NodeId>)
        requires
            self.wf(),
        ensures
            r@.no_duplicates(),
            match self.index_of(start_node_id) {
                None => r@.len() == 0,
                Some(s) => r@ == self.ids_of(bfs_visit_order(self.edges(), s, self.nodes().len())).filter(
                    |id: NodeId| id != start_node_id,
                ),
            },
            match self.index_of(start_node_id) {
                None => true,
                Some(s) => forall|id: NodeId|
                    #[trigger] r@.contains(id) <==> (id != start_node_id
                        && self.node_indices@.contains_key(id) && reachable(
                        self.edges(),
                        s,
                        self.node_indices@[id],
                    )),
            },
    {
        match self.node_index(start_node_id) {
            None => Vec::new(),
            Some(s) => {
                let order = self.bfs_order(s);
                let ghost pred = |id: NodeId| id != start_node_id;
                proof {
                    assert forall|m: int| 0 <= m < order@.len() implies #[trigger] order@[m] < self.nodes().len() by {
                        assert(order@.contains(order@[m]));
                    }
                    assert(self.ids_of(order@.subrange(0, 0)).filter(pred) =~= Seq::<NodeId>::empty()) by {
                        reveal(Seq::filter);
                    }
                }
                let mut r: Vec<NodeId> = Vec::new();
                let mut k: usize = 0;
                while k < order.len()
                    invariant
                        self.wf(),
                        self.index_of(start_node_id) == Some(s),
                        pred == (|id: NodeId| id != start_node_id),
                        forall|m: int| 0 <= m < order@.len() ==> #[trigger] order@[m] < self.nodes().len(),
                        r@ == self.ids_of(order@.subrange(0, k as int)).filter(pred),
                        order@.no_duplicates(),
                        forall|i: usize|
                            #[trigger] order@.contains(i) <==> (i < self.nodes().len() && reachable(
                                self.edges(),
                                s,
                                i,
                            )),
                        k <= order@.len(),
                        r@.no_duplicates(),
                        forall|id: NodeId|
                            #[trigger] r@.contains(id) <==> (id != start_node_id && exists|m: int|
                                0 <= m < k && #[trigger] self.nodes()[order@[m] as int].id == id),
                    decreases order@.len() - k,
                {
                    let v = order[k];
                    proof {
                        assert(order@.contains(v));
                    }
                    let id = graph_node(&self.graph, v).id;
                    proof {
                        reveal(Seq::filter);
                        let pre = self.ids_of(order@.subrange(0, k as int));
                        let next = self.ids_of(order@.subrange(0, k + 1));
                        assert(next =~= pre.push(id));
                        assert(next.drop_last() =~= pre);
                    }
                    if id != start_node_id {
                        proof {
                            assert forall|m: int| 0 <= m < k implies #[trigger] self.nodes()[order@[m] as int].id != id by {
                                assert(order@.contains(order@[m]));
                                assert(order@[m] != v);
                            }
                            assert(!r@.contains(id));
                        }
                        let ghost old_r = r@;
                        r.push(id);
                        proof {
                            assert(r@ == old_r.push(id));
                            assert(r@.drop_last() =~= old_r);
                            assert forall|x: NodeId| #[trigger] r@.contains(x) <==> (x != start_node_id && exists|m: int|
                                0 <= m < k + 1 && #[trigger] self.nodes()[order@[m] as int].id == x) by {
                                if x == id {
                                    assert(self.nodes()[order@[k as int] as int].id == x);
                                    assert(r@[r@.len() - 1] == x);
                                }
                                if r@.contains(x) && x != id {
                                    let m = choose|m: int| 0 <= m < r@.len() && r@[m] == x;
                                    assert(r@.drop_last()[m] == x);
                                    assert(r@.drop_last().contains(x));
                                }
                                if x != id && x != start_node_id && exists|m: int|
                                0 <= m < k + 1 && #[trigger] self.nodes()[order@[m] as int].id == x {
                                    let m = choose|m: int| 0 <= m < k + 1 && #[trigger] self.nodes()[order@[m] as int].id == x;
                                    assert(m < k);
                                    assert(r@.drop_last().contains(x));
                                    let j = choose|j: int| 0 <= j < r@.drop_last().len() && r@.drop_last()[j] == x;
                                    assert(r@[j] == x);
                                }
                            }
                        }
                    } else {
                        proof {
                            assert forall|x: NodeId| #[trigger] r@.contains(x) <==> (x != start_node_id && exists|m: int|
                                0 <= m < k + 1 && #[trigger] self.nodes()[order@[m] as int].id == x) by {
                                if x != start_node_id && exists|m: int|
                                0 <= m < k + 1 && #[trigger] self.nodes()[order@[m] as int].id == x {
                                    let m = choose|m: int| 0 <= m < k + 1 && #[trigger] self.nodes()[order@[m] as int].id == x;
                                    assert(m < k);
                                }
                            }
                        }
                    }
                    k = k + 1;
                }
                proof {
                    assert(order@.subrange(0, order@.len() as int) =~= order@);
                    assert forall|id: NodeId| #[trigger] r@.contains(id) <==> (id != start_node_id
                        && self.node_indices@.contains_key(id) && reachable(self.edges(), s, self.node_indices@[id])) by {
                        if r@.contains(id) {
                            let m = choose|m: int| 0 <= m < order@.len() && #[trigger] self.nodes()[order@[m] as int].id == id;
                            assert(order@.contains(order@[m]));
                            assert(self.node_indices@.contains_key(self.nodes()[order@[m] as int].id));
                        }
                        if id != start_node_id && self.node_indices@.contains_key(id) && reachable(self.edges(), s, self.node_indices@[id]) {
                            let i = self.node_indices@[id];
                            assert(order@.contains(i));
                            let m = choose|m: int| 0 <= m < order@.len() && order@[m] == i;
                            assert(self.nodes()[order@[m] as int].id == id);
                        }
                    }
                }
                r
            },
        }
    }

    /// The ids of all edges reachable from the node with id `start_node_id` (the edges with an
    /// end in its component), each once, in the order in which the breadth-first search meets
    /// them. Empty where the graph holds no node with that id.
    pub fn reachable_edges(&self, start_node_id: NodeId) -> (r: Vec<EdgeId>)
        requires
            self.wf(),
        ensures
            r@.no_duplicates(),
            match self.index_of(start_node_id) {
                None => r@.len() == 0,
                Some(s) => r@ == first_occurrences(
                    edge_ids_met(self.edges(), bfs_visit_order(self.edges(), s, self.nodes().len())),
                ),
            },
            match self.index_of(start_node_id) {
                None => true,
                Some(s) => forall|id: EdgeId|
                    #[trigger] r@.contains(id) <==> exists|j: int|
                        0 <= j < self.edges().len() && #[trigger] self.edges()[j].2.id == id
                            && reachable(self.edges(), s, self.edges()[j].0),
            },
    {
        match self.node_index(start_node_id) {
            None => Vec::new(),
            Some(s) => {
                let ghost es = self.edges();
                let order = self.bfs_order(s);
                let mut r: Vec<EdgeId> = Vec::new();
                let mut k: usize = 0;
                proof {
                    assert(es.len() < u32::MAX);
                }
                while k < order.len()
                    invariant
                        self.wf(),
                        es == self.edges(),
                        order@.no_duplicates(),
                        forall|i: usize|
                            #[trigger] order@.contains(i) <==> (i < self.nodes().len() && reachable(
                                es,
                                s,
                                i,
                            )),
                        k <= order@.len(),
                        r@ == first_occurrences(edge_ids_met(es, order@.subrange(0, k as int))),
                        r@.no_duplicates(),
                        forall|id: EdgeId|
                            #[trigger] r@.contains(id) <==> exists|j: int|
                                0 <= j < es.len() && #[trigger] es[j].2.id == id && touches(
                                    es[j],
                                    order@.subrange(0, k as int),
                                ),
                    decreases order@.len() - k,
                {
                    let v = order[k];
                    proof {
                        assert(order@.contains(v));
                        lemma_incident_edges_members(es, v);
                    }
                    let incident = graph_incident_edges(&self.graph, v);
                    proof {
                        let met = edge_ids_met(es, order@.subrange(0, k as int));
                        assert(met + incident@.subrange(0, 0).map_values(|i: usize| es[i as int].2.id) =~= met);
                    }
                    let mut m: usize = 0;
                    while m < incident.len()
                        invariant
                            self.wf(),
                            es == self.edges(),
                            k < order@.len(),
                            v == order@[k as int],
                            incident@ == incident_edges(es, v),
                            forall|j: usize|
                                #[trigger] incident_edges(es, v).contains(j) <==> (j < es.len() && (es[j as int].0
                                    == v || es[j as int].1 == v)),
                            m <= incident@.len(),
                            r@ == first_occurrences(edge_ids_met(es, order@.subrange(0, k as int)) + incident@.subrange(0, m as int).map_values(
                                |i: usize| es[i as int].2.id,
                            )),
                            r@.no_duplicates(),
                            forall|id: EdgeId|
                                #[trigger] r@.contains(id) <==> exists|j: int|
                                    0 <= j < es.len() && #[trigger] es[j].2.id == id && (touches(
                                        es[j],
                                        order@.subrange(0, k as int),
                                    ) || incident@.subrange(0, m as int).contains(j as usize)),
                        decreases incident@.len() - m,
                    {
                        let j = incident[m];
                        proof {
                            assert(incident@.contains(j));
                        }
                        let id = graph_edge_weight(&self.graph, j).id;
                        let ghost old_r = r@;
                        proof {
                            let f = |i: usize| es[i as int].2.id;
                            let met = edge_ids_met(es, order@.subrange(0, k as int));
                            let xs = met + incident@.subrange(0, m as int).map_values(f);
                            let ys = met + incident@.subrange(0, m + 1).map_values(f);
                            assert(ys =~= xs.push(id));
                            assert(ys.drop_last() =~= xs);
                        }
                        if !holds_id(&r, id) {
                            r.push(id);
                        }
                        proof {
                            assert forall|x: EdgeId| #[trigger] r@.contains(x) <==> exists|i: int|
                                0 <= i < es.len() && #[trigger] es[i].2.id == x && (touches(
                                    es[i],
                                    order@.subrange(0, k as int),
                                ) || incident@.subrange(0, m + 1).contains(i as usize)) by {
                                assert(incident@.subrange(0, m + 1)[m as int] == j);
                                if x == id {
                                    assert(es[j as int].2.id == x);
                                    assert(incident@.subrange(0, m + 1).contains(j));
                                    if !old_r.contains(id) {
                                        assert(r@[r@.len() - 1] == x);
                                    }
                                } else {
                                    if r@.contains(x) {
                                        let t = choose|t: int| 0 <= t < r@.len() && r@[t] == x;
                                        if r@.len() > old_r.len() {
                                            assert(t < old_r.len());
                                        }
                                        assert(old_r[t] == x);
                                        assert(old_r.contains(x));
                                        let i = choose|i: int| 0 <= i < es.len() && #[trigger] es[i].2.id == x && (touches(
                                            es[i],
                                            order@.subrange(0, k as int),
                                        ) || incident@.subrange(0, m as int).contains(i as usize));
                                        if incident@.subrange(0, m as int).contains(i as usize) {
                                            let sub0 = incident@.subrange(0, m as int);
                                            let u = choose|u: int| 0 <= u < m && sub0[u] == i as usize;
                                            assert(incident@.subrange(0, m + 1)[u] == i as usize);
                                        }
                                    }
                                    if exists|i: int|
                                        0 <= i < es.len() && #[trigger] es[i].2.id == x && (touches(
                                            es[i],
                                            order@.subrange(0, k as int),
                                        ) || incident@.subrange(0, m + 1).contains(i as usize)) {
                                        let i = choose|i: int|
                                            0 <= i < es.len() && #[trigger] es[i].2.id == x && (touches(
                                                es[i],
                                                order@.subrange(0, k as int),
                                            ) || incident@.subrange(0, m + 1).contains(i as usize));
                                        if !touches(es[i], order@.subrange(0, k as int)) {
                                            let sub1 = incident@.subrange(0, m + 1);
                                            let u = choose|u: int| 0 <= u < m + 1 && sub1[u] == i as usize;
                                            if u == m {
                                                assert(es[i].2.id == id);
                                            } else {
                                                assert(incident@.subrange(0, m as int)[u] == i as usize);
                                            }
                                        }
                                        assert(old_r.contains(x));
                                        let t = choose|t: int| 0 <= t < old_r.len() && old_r[t] == x;
                                        assert(r@[t] == x);
                                    }
                                }
                            }
                        }
                        m = m + 1;
                    }
                    proof {
                        assert(incident@.subrange(0, m as int) =~= incident@);
                        let pre1 = order@.subrange(0, k + 1);
                        assert(pre1.drop_last() =~= order@.subrange(0, k as int));
                        assert(pre1.last() == v);
                        assert forall|id: EdgeId| #[trigger] r@.contains(id) <==> exists|j: int|
                            0 <= j < es.len() && #[trigger] es[j].2.id == id && touches(
                                es[j],
                                order@.subrange(0, k + 1),
                            ) by {
                            let pre = order@.subrange(0, k as int);
                            let pre1 = order@.subrange(0, k + 1);
                            assert(pre1 =~= pre.push(v));
                            assert forall|j: int| 0 <= j < es.len() implies (touches(es[j], pre1) <==> (touches(es[j], pre) || incident@.contains(j as usize))) by {
                                if pre.contains(es[j].0) {
                                    let u = choose|u: int| 0 <= u < pre.len() && pre[u] == es[j].0;
                                    assert(pre1[u] == es[j].0);
                                }
                                if pre.contains(es[j].1) {
                                    let u = choose|u: int| 0 <= u < pre.len() && pre[u] == es[j].1;
                                    assert(pre1[u] == es[j].1);
                                }
                                if pre1.contains(es[j].0) {
                                    let u = choose|u: int| 0 <= u < pre1.len() && pre1[u] == es[j].0;
                                    if u < pre.len() {
                                        assert(pre[u] == es[j].0);
                                    }
                                }
                                if pre1.contains(es[j].1) {
                                    let u = choose|u: int| 0 <= u < pre1.len() && pre1[u] == es[j].1;
                                    if u < pre.len() {
                                        assert(pre[u] == es[j].1);
                                    }
                                }
                                if es[j].0 == v || es[j].1 == v {
                                    assert(pre1[k as int] == v);
                                }
                                assert(incident_edges(es, v).contains(j as usize) <==> (j < es.len() && (es[j].0 == v || es[j].1 == v)));
                            }
                        }
                    }
                    k = k + 1;
                }
                proof {
                    assert(order@.subrange(0, k as int) =~= order@);
                    assert forall|id: EdgeId| #[trigger] r@.contains(id) <==> exists|j: int|
                        0 <= j < es.len() && #[trigger] es[j].2.id == id
                            && reachable(es, s, es[j].0) by {
                        assert forall|j: int| 0 <= j < es.len() implies (touches(es[j], order@) <==> reachable(es, s, es[j].0)) by {
                            assert(es[j].0 < self.nodes().len() && es[j].1 < self.nodes().len());
                            if order@.contains(es[j].1) && !order@.contains(es[j].0) {
                                assert(reachable(es, s, es[j].1));
                                assert(joins(es[j], es[j].1, es[j].0));
                                lemma_reachable_extend(es, s, es[j].1, es[j].0, j as usize);
                            }
                        }
                    }
                }
                r
            },
        }
    }
}
} // verus!
