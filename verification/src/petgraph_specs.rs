//! The parts of petgraph that the railway graph is built on, with what their source shows
//! of them. Nothing here is proved: each item states what petgraph 0.6 does.
use crate::railway_model::{
    connects, found_edge, incident_edges, is_shortest_distance, neighbors, reachable,
    total_edge_length, walk_length, EdgeEntry, PetGraph, RailwayEdge, RailwayNode,
};
use fixedbitset::FixedBitSet;
use petgraph::algo::{astar, dijkstra};
use petgraph::graph::{Graph, NodeIndex};
use petgraph::visit::{Bfs, EdgeRef};
use petgraph::Undirected;
use vstd::prelude::*;

verus! {

/// petgraph's adjacency-list graph, opaque to Verus; its contents are named by
/// `graph_nodes` and `graph_edges`.
#[verifier::external_type_specification]
#[verifier::external_body]
#[verifier::reject_recursive_types(N)]
#[verifier::reject_recursive_types(E)]
#[verifier::reject_recursive_types(Ty)]
#[verifier::reject_recursive_types(Ix)]
pub struct ExGraph<N, E, Ty, Ix>(Graph<N, E, Ty, Ix>);

/// petgraph's marker for undirected graphs.
#[verifier::external_type_specification]
#[verifier::external_body]
pub struct ExUndirected(Undirected);

/// petgraph's node index.
#[verifier::external_type_specification]
#[verifier::external_body]
#[verifier::reject_recursive_types(Ix)]
pub struct ExNodeIndex<Ix>(NodeIndex<Ix>);

/// The bit set in which a breadth-first search records the nodes it has discovered.
#[verifier::external_type_specification]
#[verifier::external_body]
pub struct ExFixedBitSet(FixedBitSet);

/// petgraph's breadth-first search; its state is named by `bfs_state`.
#[verifier::external_type_specification]
#[verifier::external_body]
#[verifier::reject_recursive_types(N)]
#[verifier::reject_recursive_types(VM)]
pub struct ExBfs<N, VM>(Bfs<N, VM>);

/// The breadth-first search over a `PetGraph`.
pub type GraphBfs = Bfs<NodeIndex<u32>, FixedBitSet>;

/// The node weights of the graph, in the order of their indices.
pub uninterp spec fn graph_nodes(g: Graph<RailwayNode, RailwayEdge, Undirected, u32>) -> Seq<RailwayNode>;

/// The edges of the graph, in the order of their indices: source index, target index, weight.
pub uninterp spec fn graph_edges(g: Graph<RailwayNode, RailwayEdge, Undirected, u32>) -> Seq<EdgeEntry>;

/// The state of a breadth-first search: the queue of nodes still to visit, front first,
/// and the set of nodes discovered so far.
pub uninterp spec fn bfs_state(b: Bfs<NodeIndex<u32>, FixedBitSet>) -> (Seq<usize>, Set<usize>);

/// The size of the bit set in which a breadth-first search records the nodes it has
/// discovered: the number of nodes of the graph when the search was started. Marking a node at
/// or past it panics.
pub uninterp spec fn bfs_capacity(b: Bfs<NodeIndex<u32>, FixedBitSet>) -> nat;

/// Whether all edges of `es` join nodes below `n`.
pub open spec fn edges_within(es: Seq<EdgeEntry>, n: nat) -> bool {
    forall|j: int| 0 <= j < es.len() ==> (#[trigger] es[j]).0 < n && es[j].1 < n
}

/// The queue and discovered set after a search appends, in order, each node of `ns` that it
/// has not discovered yet, and marks it discovered.
pub open spec fn bfs_discover(
    queue: Seq<usize>,
    discovered: Set<usize>,
    ns: Seq<usize>,
) -> (Seq<usize>, Set<usize>)
    decreases ns.len(),
{
    if ns.len() == 0 {
        (queue, discovered)
    } else if discovered.contains(ns[0]) {
        bfs_discover(queue, discovered, ns.drop_first())
    } else {
        bfs_discover(queue.push(ns[0]), discovered.insert(ns[0]), ns.drop_first())
    }
}

/// `Graph::new_undirected`: an empty graph.
#[verifier::external_body]
pub fn graph_new() -> (g: PetGraph)
    ensures
        graph_nodes(g) == Seq::<RailwayNode>::empty(),
        graph_edges(g) == Seq::<EdgeEntry>::empty(),
{
    Graph::new_undirected()
}

/// `Graph::add_node`: appends a node and returns its index. petgraph panics when the
/// number of nodes reaches `u32::MAX`.
#[verifier::external_body]
pub fn graph_add_node(g: &mut PetGraph, weight: RailwayNode) -> (i: usize)
    requires
        graph_nodes(*old(g)).len() < u32::MAX,
    ensures
        i == graph_nodes(*old(g)).len(),
        graph_nodes(*final(g)) == graph_nodes(*old(g)).push(weight),
        graph_edges(*final(g)) == graph_edges(*old(g)),
{
    g.add_node(weight).index()
}

/// `Graph::add_edge`: appends an edge from node `a` to node `b` and returns its index.
/// petgraph panics when a node does not exist or the number of edges reaches `u32::MAX`.
#[verifier::external_body]
pub fn graph_add_edge(g: &mut PetGraph, a: usize, b: usize, weight: RailwayEdge) -> (i: usize)
    requires
        a < graph_nodes(*old(g)).len(),
        b < graph_nodes(*old(g)).len(),
        graph_edges(*old(g)).len() < u32::MAX,
    ensures
        i == graph_edges(*old(g)).len(),
        graph_nodes(*final(g)) == graph_nodes(*old(g)),
        graph_edges(*final(g)) == graph_edges(*old(g)).push((a, b, weight)),
{
    g.add_edge(NodeIndex::new(a), NodeIndex::new(b), weight).index()
}

/// `Graph::node_count`.
#[verifier::external_body]
pub fn graph_node_count(g: &PetGraph) -> (n: usize)
    ensures
        n == graph_nodes(*g).len(),
{
    g.node_count()
}

/// `Graph::edge_count`.
#[verifier::external_body]
pub fn graph_edge_count(g: &PetGraph) -> (n: usize)
    ensures
        n == graph_edges(*g).len(),
{
    g.edge_count()
}

/// Indexing the graph by a node index: the weight of node `i`.
#[verifier::external_body]
pub fn graph_node(g: &PetGraph, i: usize) -> (r: &RailwayNode)
    requires
        i < graph_nodes(*g).len(),
    ensures
        *r == graph_nodes(*g)[i as int],
{
    &g[NodeIndex::new(i)]
}

/// `Graph::edge_weight`: the weight of edge `i`.
#[verifier::external_body]
pub fn graph_edge_weight(g: &PetGraph, i: usize) -> (r: &RailwayEdge)
    requires
        i < graph_edges(*g).len(),
    ensures
        *r == graph_edges(*g)[i as int].2,
{
    &g[petgraph::graph::EdgeIndex::new(i)]
}

/// `Graph::edge_endpoints`: the source and target indices of edge `i`.
#[verifier::external_body]
pub fn graph_edge_endpoints(g: &PetGraph, i: usize) -> (r: (usize, usize))
    requires
        i < graph_edges(*g).len(),
    ensures
        r.0 == graph_edges(*g)[i as int].0,
        r.1 == graph_edges(*g)[i as int].1,
{
    let (a, b) = g.edge_endpoints(petgraph::graph::EdgeIndex::new(i)).unwrap();
    (a.index(), b.index())
}

/// `Graph::edges`: the indices of the edges at node `a`, in the order petgraph's linked
/// adjacency lists give them (see `incident_edges`).
#[verifier::external_body]
pub fn graph_incident_edges(g: &PetGraph, a: usize) -> (r: Vec<usize>)
    requires
        a < graph_nodes(*g).len(),
    ensures
        r@ == incident_edges(graph_edges(*g), a),
{
    g.edges(NodeIndex::new(a)).map(|e| e.id().index()).collect()
}

/// `Graph::find_edge` on an undirected graph: the edge that `found_edge` describes.
#[verifier::external_body]
pub fn graph_find_edge(g: &PetGraph, a: usize, b: usize) -> (r: Option<usize>)
    requires
        a < graph_nodes(*g).len(),
        b < graph_nodes(*g).len(),
    ensures
        r == found_edge(graph_edges(*g), a, b),
{
    g.find_edge(NodeIndex::new(a), NodeIndex::new(b)).map(|e| e.index())
}

/// `Bfs::new`: a search whose queue holds `start` alone and which has discovered `start`
/// alone; its bit set of discovered nodes is sized to the number of nodes of the graph.
#[verifier::external_body]
pub fn bfs_start(g: &PetGraph, start: usize) -> (b: GraphBfs)
    requires
        start < graph_nodes(*g).len(),
    ensures
        bfs_state(b) == (seq![start], set![start]),
        bfs_capacity(b) == graph_nodes(*g).len(),
{
    Bfs::new(g, NodeIndex::new(start))
}

/// `Bfs::next`: pops the front of the queue, appends each neighbour of it (in the order of
/// `neighbors`) that is not yet discovered and marks it discovered, and returns the popped
/// node; with an empty queue returns `None` and changes nothing. Marking a neighbour past the
/// size of the bit set panics, so the graph must not have more nodes than when the search was
/// started.
#[verifier::external_body]
pub fn bfs_next(b: &mut GraphBfs, g: &PetGraph) -> (r: Option<usize>)
    requires
        graph_nodes(*g).len() <= bfs_capacity(*old(b)),
        edges_within(graph_edges(*g), graph_nodes(*g).len()),
        forall|j: int|
            0 <= j < bfs_state(*old(b)).0.len() ==> #[trigger] bfs_state(*old(b)).0[j]
                < graph_nodes(*g).len(),
    ensures
        bfs_capacity(*final(b)) == bfs_capacity(*old(b)),
        bfs_state(*old(b)).0.len() == 0 ==> r is None && bfs_state(*final(b)) == bfs_state(
            *old(b),
        ),
        bfs_state(*old(b)).0.len() > 0 ==> {
            let (q, d) = bfs_state(*old(b));
            &&& r == Some(q[0])
            &&& bfs_state(*final(b)) == bfs_discover(
                q.drop_first(),
                d,
                neighbors(graph_edges(*g), q[0]),
            )
        },
{
    b.next(g).map(|n| n.index())
}

/// `petgraph::algo::dijkstra` with goal `t` and the edge lengths as costs, read at `t`:
/// the length of a shortest walk from `s` to `t`, or `None` where `t` cannot be reached.
/// Its additions stay below twice the total edge length, which must fit in a `u64`.
#[verifier::external_body]
pub fn graph_shortest_distance(g: &PetGraph, s: usize, t: usize) -> (r: Option<u64>)
    requires
        s < graph_nodes(*g).len(),
        t < graph_nodes(*g).len(),
        edges_within(graph_edges(*g), graph_nodes(*g).len()),
        2 * total_edge_length(graph_edges(*g)) <= u64::MAX,
    ensures
        match r {
            Some(d) => is_shortest_distance(graph_edges(*g), s, t, d as nat),
            None => !reachable(graph_edges(*g), s, t),
        },
{
    let goal = NodeIndex::new(t);
    dijkstra(g, NodeIndex::new(s), Some(goal), |e| e.weight().length).get(&goal).copied()
}

/// `petgraph::algo::astar` from `s` to `t` with the edge lengths as costs and no estimate:
/// a shortest path from `s` to `t` as node indices with its length, or `None` where `t`
/// cannot be reached. From a node to itself the path is that node alone (the search stops
/// when it takes the goal from its queue, and the start is taken first). Which of several
/// shortest paths it returns is left unsaid here.
#[verifier::external_body]
pub fn graph_shortest_path(g: &PetGraph, s: usize, t: usize) -> (r: Option<(u64, Vec<usize>)>)
    requires
        s < graph_nodes(*g).len(),
        t < graph_nodes(*g).len(),
        edges_within(graph_edges(*g), graph_nodes(*g).len()),
        2 * total_edge_length(graph_edges(*g)) <= u64::MAX,
    ensures
        match r {
            Some((d, p)) => {
                &&& is_shortest_distance(graph_edges(*g), s, t, d as nat)
                &&& exists|steps: Seq<usize>|
                    #[trigger] connects(graph_edges(*g), p@, steps, s, t) && walk_length(
                        graph_edges(*g),
                        steps,
                    ) == d
            },
            None => !reachable(graph_edges(*g), s, t),
        },
        match r {
            Some((d, p)) => s == t ==> d == 0 && p@ == seq![s],
            None => s != t,
        },
{
    let goal = NodeIndex::new(t);
    astar(g, NodeIndex::new(s), |n| n == goal, |e| e.weight().length, |_| 0)
        .map(|(d, p)| (d, p.iter().map(|n| n.index()).collect()))
}

} // verus!
