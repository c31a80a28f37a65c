//! Facts about the edge lists of the graph model: which edges `incident_edges` lists, which
//! nodes `neighbors` lists, and how walks extend and reverse.
use crate::petgraph_specs::edges_within;
use crate::railway_model::{
    connects, in_edge_indices, incident_edges, is_shortest_distance, joins, neighbors, other_end,
    out_edge_indices, reachable, walk_length, EdgeEntry,
};
use vstd::prelude::*;

verus! {

/// `out_edge_indices` lists exactly the edges that start at `a`.
pub proof fn lemma_out_edge_indices_members(es: Seq<EdgeEntry>, a: usize)
    requires
        es.len() <= usize::MAX,
    ensures
        forall|j: usize|
            #[trigger] out_edge_indices(es, a).contains(j) <==> (j < es.len() && es[j as int].0
                == a),
    decreases es.len(),
{
    if es.len() > 0 {
        let rest = es.drop_last();
        lemma_out_edge_indices_members(rest, a);
        let i = (es.len() - 1) as usize;
        assert forall|j: usize| #[trigger] out_edge_indices(es, a).contains(j) <==> (j < es.len()
            && es[j as int].0 == a) by {
            if es[i as int].0 == a {
                assert(out_edge_indices(es, a) == seq![i] + out_edge_indices(rest, a));
                if out_edge_indices(es, a).contains(j) {
                    let m = choose|m: int|
                        0 <= m < out_edge_indices(es, a).len() && out_edge_indices(es, a)[m] == j;
                    if m > 0 {
                        assert(out_edge_indices(rest, a)[m - 1] == j);
                        assert(out_edge_indices(rest, a).contains(j));
                        assert(rest[j as int] == es[j as int]);
                    }
                }
                if j < es.len() && es[j as int].0 == a {
                    if j == i {
                        assert(out_edge_indices(es, a)[0] == j);
                    } else {
                        assert(j < rest.len());
                        assert(rest[j as int] == es[j as int]);
                        assert(out_edge_indices(rest, a).contains(j));
                        let m = choose|m: int|
                            0 <= m < out_edge_indices(rest, a).len() && out_edge_indices(rest, a)[m]
                                == j;
                        assert(out_edge_indices(es, a)[m + 1] == j);
                    }
                }
            } else {
                assert(out_edge_indices(es, a) == out_edge_indices(rest, a));
                if j < es.len() && es[j as int].0 == a {
                    assert(rest[j as int] == es[j as int]);
                }
                if out_edge_indices(es, a).contains(j) {
                    assert(out_edge_indices(rest, a).contains(j));
                    assert(rest[j as int] == es[j as int]);
                }
            }
        }
    }
}

/// `in_edge_indices` lists exactly the edges that end at `a` and start elsewhere.
pub proof fn lemma_in_edge_indices_members(es: Seq<EdgeEntry>, a: usize)
    requires
        es.len() <= usize::MAX,
    ensures
        forall|j: usize|
            #[trigger] in_edge_indices(es, a).contains(j) <==> (j < es.len() && es[j as int].1
                == a && es[j as int].0 != a),
    decreases es.len(),
{
    if es.len() > 0 {
        let rest = es.drop_last();
        lemma_in_edge_indices_members(rest, a);
        let i = (es.len() - 1) as usize;
        assert forall|j: usize| #[trigger] in_edge_indices(es, a).contains(j) <==> (j < es.len()
            && es[j as int].1 == a && es[j as int].0 != a) by {
            if es[i as int].1 == a && es[i as int].0 != a {
                assert(in_edge_indices(es, a) == seq![i] + in_edge_indices(rest, a));
                if in_edge_indices(es, a).contains(j) {
                    let m = choose|m: int|
                        0 <= m < in_edge_indices(es, a).len() && in_edge_indices(es, a)[m] == j;
                    if m > 0 {
                        assert(in_edge_indices(rest, a)[m - 1] == j);
                        assert(in_edge_indices(rest, a).contains(j));
                        assert(rest[j as int] == es[j as int]);
                    }
                }
                if j < es.len() && es[j as int].1 == a && es[j as int].0 != a {
                    if j == i {
                        assert(in_edge_indices(es, a)[0] == j);
                    } else {
                        assert(j < rest.len());
                        assert(rest[j as int] == es[j as int]);
                        assert(in_edge_indices(rest, a).contains(j));
                        let m = choose|m: int|
                            0 <= m < in_edge_indices(rest, a).len() && in_edge_indices(rest, a)[m]
                                == j;
                        assert(in_edge_indices(es, a)[m + 1] == j);
                    }
                }
            } else {
                assert(in_edge_indices(es, a) == in_edge_indices(rest, a));
                if j < es.len() && es[j as int].1 == a && es[j as int].0 != a {
                    assert(rest[j as int] == es[j as int]);
                }
                if in_edge_indices(es, a).contains(j) {
                    assert(in_edge_indices(rest, a).contains(j));
                    assert(rest[j as int] == es[j as int]);
                }
            }
        }
    }
}

/// `incident_edges` lists exactly the edges at `a`.
pub proof fn lemma_incident_edges_members(es: Seq<EdgeEntry>, a: usize)
    requires
        es.len() <= usize::MAX,
    ensures
        forall|j: usize|
            #[trigger] incident_edges(es, a).contains(j) <==> (j < es.len() && (es[j as int].0
                == a || es[j as int].1 == a)),
{
    lemma_out_edge_indices_members(es, a);
    lemma_in_edge_indices_members(es, a);
    let o = out_edge_indices(es, a);
    let n = in_edge_indices(es, a);
    assert forall|j: usize| #[trigger] incident_edges(es, a).contains(j) <==> (j < es.len() && (
    es[j as int].0 == a || es[j as int].1 == a)) by {
        if incident_edges(es, a).contains(j) {
            let m = choose|m: int|
                0 <= m < incident_edges(es, a).len() && incident_edges(es, a)[m] == j;
            if m < o.len() {
                assert(o[m] == j);
                assert(o.contains(j));
            } else {
                assert(n[m - o.len()] == j);
                assert(n.contains(j));
            }
        }
        if j < es.len() && es[j as int].0 == a {
            assert(o.contains(j));
            let m = choose|m: int| 0 <= m < o.len() && o[m] == j;
            assert(incident_edges(es, a)[m] == j);
        } else if j < es.len() && es[j as int].1 == a {
            assert(n.contains(j));
            let m = choose|m: int| 0 <= m < n.len() && n[m] == j;
            assert(incident_edges(es, a)[o.len() + m] == j);
        }
    }
}

/// Each neighbour of `a` is joined to `a` by an edge, and lies within the graph.
pub proof fn lemma_neighbors_joined(es: Seq<EdgeEntry>, a: usize, k: int)
    requires
        es.len() <= usize::MAX,
        0 <= k < neighbors(es, a).len(),
    ensures
        incident_edges(es, a)[k] < es.len(),
        joins(es[incident_edges(es, a)[k] as int], a, neighbors(es, a)[k]),
{
    lemma_incident_edges_members(es, a);
    let j = incident_edges(es, a)[k];
    assert(incident_edges(es, a).contains(j));
}

/// Every node joined to `a` by an edge is a neighbour of `a`.
pub proof fn lemma_joined_is_neighbor(es: Seq<EdgeEntry>, a: usize, b: usize, j: int)
    requires
        es.len() <= usize::MAX,
        0 <= j < es.len(),
        joins(es[j], a, b),
    ensures
        neighbors(es, a).contains(b),
{
    lemma_incident_edges_members(es, a);
    assert(incident_edges(es, a).contains(j as usize));
    let m = choose|m: int|
        0 <= m < incident_edges(es, a).len() && incident_edges(es, a)[m] == j as usize;
    assert(neighbors(es, a)[m] == other_end(es[j], a));
}

/// Neighbours of a node lie within the graph.
pub proof fn lemma_neighbors_within(es: Seq<EdgeEntry>, n: nat, a: usize)
    requires
        es.len() <= usize::MAX,
        edges_within(es, n),
    ensures
        forall|k: int| 0 <= k < neighbors(es, a).len() ==> #[trigger] neighbors(es, a)[k] < n,
{
    assert forall|k: int| 0 <= k < neighbors(es, a).len() implies #[trigger] neighbors(es, a)[k]
        < n by {
        lemma_neighbors_joined(es, a, k);
        let j = incident_edges(es, a)[k] as int;
        assert(es[j].0 < n && es[j].1 < n);
    }
}

/// The walk consisting of `s` alone connects `s` to itself.
pub proof fn lemma_reachable_self(es: Seq<EdgeEntry>, s: usize)
    ensures
        connects(es, seq![s], Seq::<usize>::empty(), s, s),
        reachable(es, s, s),
{
    assert(connects(es, seq![s], Seq::<usize>::empty(), s, s));
}

/// A walk to `t` followed by an edge from `t` to `u` is a walk to `u`.
pub proof fn lemma_walk_extend(
    es: Seq<EdgeEntry>,
    path: Seq<usize>,
    steps: Seq<usize>,
    s: usize,
    t: usize,
    u: usize,
    j: usize,
)
    requires
        connects(es, path, steps, s, t),
        j < es.len(),
        joins(es[j as int], t, u),
    ensures
        connects(es, path.push(u), steps.push(j), s, u),
        walk_length(es, steps.push(j)) == walk_length(es, steps) + es[j as int].2.length,
{
    let p2 = path.push(u);
    let s2 = steps.push(j);
    assert forall|k: int| 0 <= k < s2.len() implies #[trigger] s2[k] < es.len() && joins(
        es[s2[k] as int],
        p2[k],
        p2[k + 1],
    ) by {
        if k < steps.len() {
            assert(s2[k] == steps[k]);
            assert(p2[k] == path[k]);
            assert(p2[k + 1] == path[k + 1]);
        }
    }
    assert(s2.drop_last() =~= steps);
}

/// Reachability extends along an edge.
pub proof fn lemma_reachable_extend(es: Seq<EdgeEntry>, s: usize, t: usize, u: usize, j: usize)
    requires
        reachable(es, s, t),
        j < es.len(),
        joins(es[j as int], t, u),
    ensures
        reachable(es, s, u),
{
    let (path, steps) = choose|path: Seq<usize>, steps: Seq<usize>| #[trigger]
        connects(es, path, steps, s, t);
    lemma_walk_extend(es, path, steps, s, t, u, j);
}

/// The length of two walks one after the other is the sum of their lengths.
pub proof fn lemma_walk_length_concat(es: Seq<EdgeEntry>, a: Seq<usize>, b: Seq<usize>)
    ensures
        walk_length(es, a + b) == walk_length(es, a) + walk_length(es, b),
    decreases b.len(),
{
    if b.len() == 0 {
        assert(a + b =~= a);
    } else {
        lemma_walk_length_concat(es, a, b.drop_last());
        assert((a + b).drop_last() =~= a + b.drop_last());
        assert((a + b).last() == b.last());
    }
}

/// A walk taken backwards has the same length.
pub proof fn lemma_walk_length_reverse(es: Seq<EdgeEntry>, steps: Seq<usize>)
    ensures
        walk_length(es, steps.reverse()) == walk_length(es, steps),
    decreases steps.len(),
{
    if steps.len() > 0 {
        let init = steps.drop_last();
        lemma_walk_length_reverse(es, init);
        assert(steps.reverse() =~= seq![steps.last()] + init.reverse());
        lemma_walk_length_concat(es, seq![steps.last()], init.reverse());
        let one = seq![steps.last()];
        assert(one.drop_last().len() == 0);
        assert(walk_length(es, one.drop_last()) == 0);
        assert(one.last() == steps.last());
        assert(walk_length(es, one) == es[steps.last() as int].2.length as nat);
        assert(walk_length(es, steps) == walk_length(es, init) + es[steps.last() as int].2.length as nat);
    }
}

/// A walk from `s` to `t` taken backwards is a walk from `t` to `s` of the same length.
pub proof fn lemma_walk_reverse(es: Seq<EdgeEntry>, path: Seq<usize>, steps: Seq<usize>, s: usize, t: usize)
    requires
        connects(es, path, steps, s, t),
    ensures
        connects(es, path.reverse(), steps.reverse(), t, s),
        walk_length(es, steps.reverse()) == walk_length(es, steps),
{
    let rp = path.reverse();
    let rs = steps.reverse();
    let n = steps.len();
    assert forall|k: int| 0 <= k < rs.len() implies #[trigger] rs[k] < es.len() && joins(
        es[rs[k] as int],
        rp[k],
        rp[k + 1],
    ) by {
        let m = n - 1 - k;
        assert(rs[k] == steps[m]);
        assert(rp[k] == path[m + 1]);
        assert(rp[k + 1] == path[m]);
        assert(steps[m] < es.len() && joins(es[steps[m] as int], path[m], path[m + 1]));
    }
    assert(rp[0] == path.last());
    assert(rp.last() == path[0]);
    lemma_walk_length_reverse(es, steps);
}

/// The shortest distance between two nodes of the undirected graph is the same in both
/// directions.
pub proof fn lemma_shortest_distance_symmetric(es: Seq<EdgeEntry>, s: usize, t: usize, d: nat)
    requires
        is_shortest_distance(es, s, t, d),
    ensures
        is_shortest_distance(es, t, s, d),
{
    let (path, steps) = choose|path: Seq<usize>, steps: Seq<usize>|
        #[trigger] connects(es, path, steps, s, t) && walk_length(es, steps) == d;
    lemma_walk_reverse(es, path, steps, s, t);
    assert forall|p2: Seq<usize>, s2: Seq<usize>| #[trigger] connects(es, p2, s2, t, s) implies d <= walk_length(es, s2) by {
        lemma_walk_reverse(es, p2, s2, t, s);
    }
}

/// Whether one node can be reached from another does not depend on the direction.
pub proof fn lemma_reachable_symmetric(es: Seq<EdgeEntry>, s: usize, t: usize)
    requires
        reachable(es, s, t),
    ensures
        reachable(es, t, s),
{
    let (path, steps) = choose|path: Seq<usize>, steps: Seq<usize>| #[trigger] connects(es, path, steps, s, t);
    lemma_walk_reverse(es, path, steps, s, t);
}

/// The shortest distance from `s` to `t` and the shortest distance from `t` to `s` are one
/// and the same number: `shortest_path_distance` gives the same answer both ways.
pub proof fn lemma_shortest_distances_agree(es: Seq<EdgeEntry>, s: usize, t: usize, d1: nat, d2: nat)
    requires
        is_shortest_distance(es, s, t, d1),
        is_shortest_distance(es, t, s, d2),
    ensures
        d1 == d2,
{
    lemma_shortest_distance_symmetric(es, t, s, d2);
    let (p1, s1) = choose|path: Seq<usize>, steps: Seq<usize>|
        #[trigger] connects(es, path, steps, s, t) && walk_length(es, steps) == d1;
    let (p2, s2) = choose|path: Seq<usize>, steps: Seq<usize>|
        #[trigger] connects(es, path, steps, s, t) && walk_length(es, steps) == d2;
    assert(d2 <= walk_length(es, s1));
    assert(d1 <= walk_length(es, s2));
}

} // verus!
