//! Directed dependency graphs between items, whose edges carry a locality.

use vstd::prelude::*;
use std::rc::Rc;
use crate::items::{Item, DepLocality};

verus! {

/// An edge `from -> to` with its locality.
pub type DepEdge = (Item, Item, DepLocality);

/// The graph that adding the edges `es`, in order, to a graph with edges `m`
/// gives: adding an edge that is already there replaces its locality.
pub open spec fn edges_into(m: Map<(Item, Item), DepLocality>, es: Seq<DepEdge>) -> Map<(Item, Item), DepLocality>
    decreases es.len(),
{
    if es.len() == 0 {
        m
    } else {
        let e = es.last();
        edges_into(m, es.drop_last()).insert((e.0, e.1), e.2)
    }
}

/// The graph made of the edges `es`.
pub open spec fn edges_map(es: Seq<DepEdge>) -> Map<(Item, Item), DepLocality> {
    edges_into(Map::empty(), es)
}

/// No two edges of `es` have the same endpoints.
pub open spec fn endpoints_distinct(es: Seq<DepEdge>) -> bool {
    forall|i: int, j: int|
        0 <= i < es.len() && 0 <= j < es.len() && i != j ==> (#[trigger] es[i].0, es[i].1) != (#[trigger] es[j].0, es[j].1)
}

/// Adding edges to a graph is taking the union with the graph they make, the
/// new edges winning.
pub proof fn lemma_edges_into_union(m: Map<(Item, Item), DepLocality>, es: Seq<DepEdge>)
    ensures
        edges_into(m, es) == m.union_prefer_right(edges_map(es)),
    decreases es.len(),
{
    if es.len() == 0 {
        assert(m.union_prefer_right(Map::empty()) =~= m);
    } else {
        lemma_edges_into_union(m, es.drop_last());
        lemma_edges_into_union(Map::empty(), es.drop_last());
        let e = es.last();
        assert(m.union_prefer_right(edges_map(es.drop_last())).insert((e.0, e.1), e.2)
            =~= m.union_prefer_right(edges_map(es.drop_last()).insert((e.0, e.1), e.2)));
    }
}

/// Replacing the locality of an edge of a list without repeated endpoints
/// replaces it in the graph.
proof fn lemma_edges_update(m: Map<(Item, Item), DepLocality>, es: Seq<DepEdge>, i: int, e: DepEdge)
    requires
        endpoints_distinct(es),
        0 <= i < es.len(),
        e.0 == es[i].0,
        e.1 == es[i].1,
    ensures
        edges_into(m, es.update(i, e)) == edges_into(m, es).insert((e.0, e.1), e.2),
    decreases es.len(),
{
    let es2 = es.update(i, e);
    if i == es.len() - 1 {
        assert(es2.drop_last() =~= es.drop_last());
        assert(edges_into(m, es2) =~= edges_into(m, es).insert((e.0, e.1), e.2));
    } else {
        assert(es2.drop_last() =~= es.drop_last().update(i, e));
        assert(endpoints_distinct(es.drop_last()));
        lemma_edges_update(m, es.drop_last(), i, e);
        let l = es.last();
        assert(l == es[es.len() - 1]);
        assert((l.0, l.1) != (es[i].0, es[i].1));
        assert(edges_into(m, es2) =~= edges_into(m, es).insert((e.0, e.1), e.2));
    }
}

/// If no edge of `es` has the endpoints `(a, b)`, its graph has no such edge.
proof fn lemma_edges_absent(m: Map<(Item, Item), DepLocality>, es: Seq<DepEdge>, a: Item, b: Item)
    requires
        !m.dom().contains((a, b)),
        forall|j: int| 0 <= j < es.len() ==> (#[trigger] es[j].0, es[j].1) != (a, b),
    ensures
        !edges_into(m, es).dom().contains((a, b)),
    decreases es.len(),
{
    if es.len() > 0 {
        assert forall|j: int| 0 <= j < es.drop_last().len() implies (#[trigger] es.drop_last()[j].0, es.drop_last()[j].1) != (a, b) by {
            assert(es.drop_last()[j] == es[j]);
        }
        lemma_edges_absent(m, es.drop_last(), a, b);
        assert(es.last() == es[es.len() - 1]);
    }
}

/// A directed graph of item dependencies; each ordered pair of items has at
/// most one edge.
pub struct DepGraph {
    edges: Vec<DepEdge>,
}

impl DepGraph {
    #[verifier::type_invariant]
    spec fn inv(self) -> bool {
        endpoints_distinct(self.edges@)
    }

    /// The graph's edges, by endpoints.
    pub closed spec fn view(&self) -> Map<(Item, Item), DepLocality> {
        edges_map(self.edges@)
    }

    /// The empty graph.
    pub fn new() -> (g: DepGraph)
        ensures
            g.view() == Map::<(Item, Item), DepLocality>::empty(),
    {
        DepGraph { edges: Vec::new() }
    }

    /// Adds the edge `from -> to`, or replaces its locality if the graph has
    /// it already.
    pub fn add_edge(&mut self, from: Item, to: Item, locality: DepLocality)
        ensures
            final(self).view() == old(self).view().insert((from, to), locality),
    {
        proof {
            use_type_invariant(&*self);
        }
        let n = self.edges.len();
        let mut i: usize = 0;
        while i < n
            invariant
                n == self.edges.len(),
                0 <= i <= n,
                self.edges@ == old(self).edges@,
                endpoints_distinct(self.edges@),
                forall|j: int| 0 <= j < i ==> (#[trigger] self.edges@[j].0, self.edges@[j].1) != (from, to),
            decreases n - i,
        {
            let e = self.edges[i];
            if e.0 == from && e.1 == to {
                let ghost old_edges = self.edges@;
                let mut edges = Vec::new();
                std::mem::swap(&mut edges, &mut self.edges);
                edges.set(i, (from, to, locality));
                proof {
                    lemma_edges_update(Map::empty(), old_edges, i as int, (from, to, locality));
                    assert(edges@ =~= old_edges.update(i as int, (from, to, locality)));
                    assert forall|a: int, b: int|
                        0 <= a < edges@.len() && 0 <= b < edges@.len() && a != b implies
                        (#[trigger] edges@[a].0, edges@[a].1) != (#[trigger] edges@[b].0, edges@[b].1) by {
                        assert((old_edges[a].0, old_edges[a].1) != (old_edges[b].0, old_edges[b].1));
                    }
                }
                self.edges = edges;
                return;
            }
            i = i + 1;
        }
        let ghost old_edges = self.edges@;
        let mut edges = Vec::new();
        std::mem::swap(&mut edges, &mut self.edges);
        edges.push((from, to, locality));
        proof {
            assert(edges@.drop_last() =~= old_edges);
            assert forall|a: int, b: int|
                0 <= a < edges@.len() && 0 <= b < edges@.len() && a != b implies
                (#[trigger] edges@[a].0, edges@[a].1) != (#[trigger] edges@[b].0, edges@[b].1) by {
                if a < old_edges.len() && b < old_edges.len() {
                    assert(edges@[a] == old_edges[a]);
                    assert(edges@[b] == old_edges[b]);
                } else if a < old_edges.len() {
                    assert(edges@[a] == old_edges[a]);
                } else {
                    assert(edges@[b] == old_edges[b]);
                }
            }
        }
        self.edges = edges;
    }

    /// The graph with the edges `edges`, added in order.
    pub fn from_edges(edges: &Vec<DepEdge>) -> (g: DepGraph)
        ensures
            g.view() == edges_map(edges@),
    {
        let mut g = DepGraph::new();
        g.extend(edges);
        proof {
            lemma_edges_into_union(Map::empty(), edges@);
            assert(Map::<(Item, Item), DepLocality>::empty().union_prefer_right(edges_map(edges@)) =~= edges_map(edges@));
        }
        g
    }

    /// Adds the edges `edges` in order; an edge that the graph has already
    /// gets the new locality.
    pub fn extend(&mut self, edges: &Vec<DepEdge>)
        ensures
            final(self).view() == old(self).view().union_prefer_right(edges_map(edges@)),
    {
        let n = edges.len();
        let mut i: usize = 0;
        while i < n
            invariant
                n == edges.len(),
                0 <= i <= n,
                self.view() == edges_into(old(self).view(), edges@.take(i as int)),
            decreases n - i,
        {
            let e = edges[i];
            self.add_edge(e.0, e.1, e.2);
            assert(edges@.take(i + 1).drop_last() =~= edges@.take(i as int));
            i = i + 1;
        }
        proof {
            assert(edges@.take(n as int) =~= edges@);
            lemma_edges_into_union(old(self).view(), edges@);
        }
    }

    /// The graph's edges, each pair of endpoints once.
    pub fn all_edges(&self) -> (es: Vec<DepEdge>)
        ensures
            edges_map(es@) == self.view(),
            endpoints_distinct(es@),
    {
        proof {
            use_type_invariant(self);
        }
        let mut es: Vec<DepEdge> = Vec::new();
        let n = self.edges.len();
        let mut i: usize = 0;
        while i < n
            invariant
                n == self.edges.len(),
                0 <= i <= n,
                es@ == self.edges@.take(i as int),
            decreases n - i,
        {
            es.push(self.edges[i]);
            assert(es@ =~= self.edges@.take(i + 1));
            i = i + 1;
        }
        assert(es@ =~= self.edges@);
        es
    }

    /// The number of edges.
    pub fn edge_count(&self) -> (n: usize)
        ensures
            n == self.view().dom().len(),
    {
        proof {
            use_type_invariant(self);
            lemma_edges_map_len(self.edges@);
        }
        self.edges.len()
    }
}

/// A list of edges without repeated endpoints makes a graph with as many
/// edges.
proof fn lemma_edges_map_len(es: Seq<DepEdge>)
    requires
        endpoints_distinct(es),
    ensures
        edges_map(es).dom().finite(),
        edges_map(es).dom().len() == es.len(),
    decreases es.len(),
{
    if es.len() > 0 {
        let l = es.last();
        assert(endpoints_distinct(es.drop_last()));
        lemma_edges_map_len(es.drop_last());
        assert forall|j: int| 0 <= j < es.drop_last().len() implies (#[trigger] es.drop_last()[j].0, es.drop_last()[j].1) != (l.0, l.1) by {
            assert(es.drop_last()[j] == es[j]);
            assert(l == es[es.len() - 1]);
        }
        lemma_edges_absent(Map::empty(), es.drop_last(), l.0, l.1);
    }
}

/// A shared dependency graph, as the graph queries hand it out.
pub struct DepGraphWrapper(pub Rc<DepGraph>);

} // verus!
