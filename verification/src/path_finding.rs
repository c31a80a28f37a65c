//! Shortest paths in the railway graph: the distance, the nodes and the edges of a shortest
//! path, and the next node on it.
use crate::petgraph_specs::{graph_node, graph_shortest_distance, graph_shortest_path};
use crate::railway_model::{
    connects, found_edge, is_shortest_distance, is_walk, joins, reachable, total_edge_length,
    walk_length, EdgeEntry, RailwayEdge, RailwayGraph,
};
use crate::types::{EdgeId, NodeId};
use vstd::prelude::*;

verus! {

broadcast use vstd::std_specs::hash::group_hash_axioms;

impl RailwayGraph {
    /// The graph is well formed and its edge lengths are small enough for shortest-path
    /// searches (twice their sum fits in a `u64`).
    pub open spec fn routable(&self) -> bool {
        self.wf() && 2 * total_edge_length(self.edges()) <= u64::MAX
    }

    /// The ids of the nodes at the indices of `path`.
    pub open spec fn ids_of(&self, path: Seq<usize>) -> Seq<NodeId> {
        path.map_values(|i: usize| self.nodes()[i as int].id)
    }

    /// `ids` are the node ids along a shortest walk from node index `a` to node index `b`.
    pub open spec fn is_shortest_path_ids(&self, a: usize, b: usize, ids: Seq<NodeId>) -> bool {
        exists|path: Seq<usize>, steps: Seq<usize>|
            #[trigger] connects(self.edges(), path, steps, a, b) && is_shortest_distance(
                self.edges(),
                a,
                b,
                walk_length(self.edges(), steps),
            ) && ids == self.ids_of(path) && (a == b ==> path.len() == 1)
    }

    /// The length in millimetres of a shortest path between the nodes with ids `source` and
    /// `target`; `None` where either node is missing or no path joins them.
    pub fn shortest_path_distance(&self, source: NodeId, target: NodeId) -> (r: Option<u64>)
        requires
            self.routable(),
        ensures
            match (self.index_of(source), self.index_of(target)) {
                (Some(a), Some(b)) => match r {
                    Some(d) => is_shortest_distance(self.edges(), a, b, d as nat),
                    None => !reachable(self.edges(), a, b),
                },
                _ => r is None,
            },
    {
        match (self.node_index(source), self.node_index(target)) {
            (Some(a), Some(b)) => graph_shortest_distance(&self.graph, a, b),
            _ => None,
        }
    }

    /// The ids of the nodes of a shortest path from the node with id `start` to the node with
    /// id `end`, both included; `None` where either node is missing or no path joins them.
    /// Which of several shortest paths is left to petgraph's A* search.
    pub fn shortest_path_nodes(&self, start: NodeId, end: NodeId) -> (r: Option<Vec<NodeId>>)
        requires
            self.routable(),
        ensures
            match (self.index_of(start), self.index_of(end)) {
                (Some(a), Some(b)) => match r {
                    Some(p) => self.is_shortest_path_ids(a, b, p@),
                    None => !reachable(self.edges(), a, b),
                },
                _ => r is None,
            },
    {
        match (self.node_index(start), self.node_index(end)) {
            (Some(a), Some(b)) => match graph_shortest_path(&self.graph, a, b) {
                Some((_d, path)) => {
                    let ghost steps = choose|steps: Seq<usize>|
                        #[trigger] connects(self.edges(), path@, steps, a, b) && walk_length(
                            self.edges(),
                            steps,
                        ) == _d;
                    let mut ids: Vec<NodeId> = Vec::new();
                    let mut k: usize = 0;
                    while k < path.len()
                        invariant
                            self.wf(),
                            connects(self.edges(), path@, steps, a, b),
                            a < self.nodes().len(),
                            k <= path@.len(),
                            ids@ == self.ids_of(path@.subrange(0, k as int)),
                        decreases path@.len() - k,
                    {
                        proof {
                            lemma_walk_nodes_within(self.edges(), self.nodes().len(), path@, steps, a);
                        }
                        let id = graph_node(&self.graph, path[k]).id;
                        ids.push(id);
                        proof {
                            assert(ids@ =~= self.ids_of(path@.subrange(0, k + 1)));
                        }
                        k = k + 1;
                    }
                    proof {
                        assert(path@.subrange(0, path@.len() as int) =~= path@);
                        assert(self.is_shortest_path_ids(a, b, ids@));
                    }
                    Some(ids)
                },
                None => None,
            },
            _ => None,
        }
    }

    /// The edge `railway_edge` returns between the nodes with ids `a` and `b`.
    pub open spec fn edge_between(&self, a: NodeId, b: NodeId) -> Option<RailwayEdge> {
        match (self.index_of(a), self.index_of(b)) {
            (Some(i), Some(j)) => match found_edge(self.edges(), i, j) {
                Some(e) => Some(self.edges()[e as int].2),
                None => None,
            },
            _ => None,
        }
    }

    /// The ids of the edges between consecutive nodes of `ids`, skipping pairs that no edge
    /// joins.
    pub open spec fn edge_ids_along(&self, ids: Seq<NodeId>) -> Seq<EdgeId>
        decreases ids.len(),
    {
        if ids.len() < 2 {
            seq![]
        } else {
            let k = ids.len() - 2;
            self.edge_ids_along(ids.drop_last()) + match self.edge_between(ids[k], ids[k + 1]) {
                Some(e) => seq![e.id],
                None => seq![],
            }
        }
    }

    /// The ids of the edges between consecutive nodes of `node_ids`, skipping pairs that no
    /// edge joins.
    pub fn edges_along(&self, node_ids: &Vec<NodeId>) -> (r: Vec<EdgeId>)
        requires
            self.wf(),
        ensures
            r@ == self.edge_ids_along(node_ids@),
    {
        let mut r: Vec<EdgeId> = Vec::new();
        if node_ids.len() < 2 {
            return r;
        }
        let mut k: usize = 1;
        while k < node_ids.len()
            invariant
                self.wf(),
                1 <= k <= node_ids@.len(),
                r@ == self.edge_ids_along(node_ids@.subrange(0, k as int)),
            decreases node_ids@.len() - k,
        {
            proof {
                let pre = node_ids@.subrange(0, k + 1);
                assert(pre.drop_last() =~= node_ids@.subrange(0, k as int));
                assert(pre[k - 1] == node_ids@[k - 1] && pre[k as int] == node_ids@[k as int]);
            }
            match self.railway_edge(node_ids[k - 1], node_ids[k]) {
                Some(e) => {
                    r.push(e.id);
                },
                None => {
                    proof {
                        assert(r@ =~= r@ + Seq::<EdgeId>::empty());
                    }
                },
            }
            proof {
                assert(r@ =~= self.edge_ids_along(node_ids@.subrange(0, k + 1)));
            }
            k = k + 1;
        }
        proof {
            assert(node_ids@.subrange(0, node_ids@.len() as int) =~= node_ids@);
        }
        r
    }

    /// The ids of the edges of a shortest path from the node with id `start` to the node with
    /// id `end`, in order; `None` where either node is missing, no path joins them, or the
    /// path has fewer than two nodes.
    pub fn shortest_path_edges(&self, start: NodeId, end: NodeId) -> (r: Option<Vec<EdgeId>>)
        requires
            self.routable(),
        ensures
            match (self.index_of(start), self.index_of(end)) {
                (Some(a), Some(b)) => match r {
                    Some(es) => exists|ids: Seq<NodeId>|
                        #[trigger] self.is_shortest_path_ids(a, b, ids) && ids.len() >= 2
                            && es@ == self.edge_ids_along(ids),
                    None => !reachable(self.edges(), a, b) || a == b,
                },
                _ => r is None,
            },
    {
        let node_path = match self.shortest_path_nodes(start, end) {
            Some(p) => p,
            None => return None,
        };
        proof {
            let a = self.index_of(start)->0;
            let b = self.index_of(end)->0;
            lemma_shortest_path_ids_len(self, a, b, node_path@);
        }
        if node_path.len() < 2 {
            return None;
        }
        let r = self.edges_along(&node_path);
        Some(r)
    }

    /// The node after the node with id `current` on a shortest path to the node with id
    /// `target`; `None` where either node is missing, no path joins them, or they are the
    /// same node.
    pub fn get_next_node(&self, current: NodeId, target: NodeId) -> (r: Option<NodeId>)
        requires
            self.routable(),
        ensures
            match (self.index_of(current), self.index_of(target)) {
                (Some(a), Some(b)) => match r {
                    Some(n) => exists|ids: Seq<NodeId>|
                        #[trigger] self.is_shortest_path_ids(a, b, ids) && ids.len() >= 2 && ids[1]
                            == n,
                    None => !reachable(self.edges(), a, b) || a == b,
                },
                _ => r is None,
            },
    {
        let path = match self.shortest_path_nodes(current, target) {
            Some(p) => p,
            None => return None,
        };
        proof {
            let a = self.index_of(current)->0;
            let b = self.index_of(target)->0;
            lemma_shortest_path_ids_len(self, a, b, path@);
        }
        if path.len() >= 2 {
            Some(path[1])
        } else {
            None
        }
    }
}

/// The nodes of a walk from a node of the graph lie within the graph.
proof fn lemma_walk_nodes_within(
    es: Seq<EdgeEntry>,
    n: nat,
    path: Seq<usize>,
    steps: Seq<usize>,
    a: usize,
)
    requires
        crate::petgraph_specs::edges_within(es, n),
        is_walk(es, path, steps),
        path[0] == a,
        a < n,
    ensures
        forall|k: int| 0 <= k < path.len() ==> #[trigger] path[k] < n,
{
    assert forall|k: int| 0 <= k < path.len() implies #[trigger] path[k] < n by {
        if k > 0 {
            let j = steps[k - 1] as int;
            assert(joins(es[j], path[k - 1], path[k]));
            assert(es[j].0 < n && es[j].1 < n);
        }
    }
}

/// A shortest path between two different nodes has at least two nodes; between a node and
/// itself it has exactly one.
proof fn lemma_shortest_path_ids_len(g: &RailwayGraph, a: usize, b: usize, ids: Seq<NodeId>)
    requires
        g.wf(),
        a < g.nodes().len(),
        b < g.nodes().len(),
        g.is_shortest_path_ids(a, b, ids),
    ensures
        ids.len() >= 1,
        ids.len() >= 2 <==> a != b,
{
    let (path, steps) = choose|path: Seq<usize>, steps: Seq<usize>|
        #[trigger] connects(g.edges(), path, steps, a, b) && is_shortest_distance(
            g.edges(),
            a,
            b,
            walk_length(g.edges(), steps),
        ) && ids == g.ids_of(path) && (a == b ==> path.len() == 1);
    assert(ids.len() == path.len());
    if path.len() == 1 {
        assert(path[0] == a && path[0] == b);
    }
}

} // verus!
