//! A recorder for the runtime's reactor graph: which reactors are alive
//! and which links stand between them.

use vstd::prelude::*;

use crate::ids::ReactorID;

verus! {

/// Whether the node list carries `id`.
pub open spec fn has_node(s: Seq<ReactorID>, id: ReactorID) -> bool
    decreases s.len(),
{
    if s.len() == 0 {
        false
    } else {
        s[0] == id || has_node(s.drop_first(), id)
    }
}

/// Whether the edge list carries the directed edge `from -> to`.
pub open spec fn has_edge(s: Seq<(ReactorID, ReactorID)>, from: ReactorID, to: ReactorID) -> bool
    decreases s.len(),
{
    if s.len() == 0 {
        false
    } else {
        s[0] == (from, to) || has_edge(s.drop_first(), from, to)
    }
}

/// The node list without `id`.
pub open spec fn nodes_without(s: Seq<ReactorID>, id: ReactorID) -> Seq<ReactorID>
    decreases s.len(),
{
    if s.len() == 0 {
        s
    } else if s[0] == id {
        nodes_without(s.drop_first(), id)
    } else {
        seq![s[0]] + nodes_without(s.drop_first(), id)
    }
}

/// The edge list without the directed edge `from -> to`.
pub open spec fn edges_without(
    s: Seq<(ReactorID, ReactorID)>,
    from: ReactorID,
    to: ReactorID,
) -> Seq<(ReactorID, ReactorID)>
    decreases s.len(),
{
    if s.len() == 0 {
        s
    } else if s[0] == (from, to) {
        edges_without(s.drop_first(), from, to)
    } else {
        seq![s[0]] + edges_without(s.drop_first(), from, to)
    }
}

/// A view of the live reactor graph.
pub trait GraphLike {
    /// Note a reactor.
    fn add_node(&mut self, id: ReactorID);

    /// Note a link.
    fn add_edge(&mut self, from: ReactorID, to: ReactorID);

    /// Forget a reactor.
    fn remove_node(&mut self, id: ReactorID);

    /// Forget a link.
    fn remove_edge(&mut self, from: ReactorID, to: ReactorID);
}

/// The default graph recorder.
#[derive(Debug)]
pub struct Graph {
    nodes: Vec<ReactorID>,
    edges: Vec<(ReactorID, ReactorID)>,
}

/// A fresh, empty graph recorder.
pub fn set_default() -> (r: Graph)
    ensures
        r.spec_nodes() == Seq::<ReactorID>::empty(),
        r.spec_edges() == Seq::<(ReactorID, ReactorID)>::empty(),
{
    Graph { nodes: Vec::new(), edges: Vec::new() }
}

impl Graph {
    /// The recorded reactors, as a specification value.
    pub closed spec fn spec_nodes(&self) -> Seq<ReactorID> {
        self.nodes@
    }

    /// The recorded links, as a specification value.
    pub closed spec fn spec_edges(&self) -> Seq<(ReactorID, ReactorID)> {
        self.edges@
    }

    /// Record a reactor.
    pub fn record_node(&mut self, id: ReactorID)
        ensures
            final(self).spec_nodes() == old(self).spec_nodes().push(id),
            final(self).spec_edges() == old(self).spec_edges(),
    {
        self.nodes.push(id);
    }

    /// Record a link.
    pub fn record_edge(&mut self, from: ReactorID, to: ReactorID)
        ensures
            final(self).spec_nodes() == old(self).spec_nodes(),
            final(self).spec_edges() == old(self).spec_edges().push((from, to)),
    {
        self.edges.push((from, to));
    }

    /// Forget a reactor.
    pub fn erase_node(&mut self, id: ReactorID)
        ensures
            final(self).spec_nodes() == nodes_without(old(self).spec_nodes(), id),
            final(self).spec_edges() == old(self).spec_edges(),
    {
        let ghost orig = self.nodes@;
        let mut kept: Vec<ReactorID> = Vec::new();
        let mut i: usize = 0;
        proof {
            assert(orig.skip(0) =~= orig);
            assert(kept@ + nodes_without(orig.skip(0), id) =~= nodes_without(orig, id));
        }
        while i < self.nodes.len()
            invariant
                i <= self.nodes@.len(),
                self.nodes@ == orig,
                orig == old(self).spec_nodes(),
                self.spec_edges() == old(self).spec_edges(),
                kept@ + nodes_without(orig.skip(i as int), id) == nodes_without(orig, id),
            decreases self.nodes@.len() - i,
        {
            proof {
                assert(orig.skip(i as int)[0] == orig[i as int]);
                assert(orig.skip(i as int).drop_first() =~= orig.skip(i as int + 1));
            }
            let n = self.nodes[i];
            if n != id {
                kept.push(n);
                proof {
                    assert(kept@ + nodes_without(orig.skip(i as int + 1), id) =~= nodes_without(
                        orig,
                        id,
                    ));
                }
            }
            i = i + 1;
        }
        proof {
            assert(orig.skip(i as int) =~= Seq::<ReactorID>::empty());
            assert(kept@ =~= kept@ + nodes_without(orig.skip(i as int), id));
        }
        self.nodes = kept;
    }

    /// Forget a link.
    pub fn erase_edge(&mut self, from: ReactorID, to: ReactorID)
        ensures
            final(self).spec_nodes() == old(self).spec_nodes(),
            final(self).spec_edges() == edges_without(old(self).spec_edges(), from, to),
    {
        let ghost orig = self.edges@;
        let mut kept: Vec<(ReactorID, ReactorID)> = Vec::new();
        let mut i: usize = 0;
        proof {
            assert(orig.skip(0) =~= orig);
            assert(kept@ + edges_without(orig.skip(0), from, to) =~= edges_without(
                orig,
                from,
                to,
            ));
        }
        while i < self.edges.len()
            invariant
                i <= self.edges@.len(),
                self.edges@ == orig,
                orig == old(self).spec_edges(),
                self.spec_nodes() == old(self).spec_nodes(),
                kept@ + edges_without(orig.skip(i as int), from, to) == edges_without(
                    orig,
                    from,
                    to,
                ),
            decreases self.edges@.len() - i,
        {
            proof {
                assert(orig.skip(i as int)[0] == orig[i as int]);
                assert(orig.skip(i as int).drop_first() =~= orig.skip(i as int + 1));
            }
            let e = self.edges[i];
            if !(e.0 == from && e.1 == to) {
                kept.push(e);
                proof {
                    assert((e.0, e.1) == e);
                    assert(kept@ + edges_without(orig.skip(i as int + 1), from, to)
                        =~= edges_without(orig, from, to));
                }
            }
            i = i + 1;
        }
        proof {
            assert(orig.skip(i as int) =~= Seq::<(ReactorID, ReactorID)>::empty());
            assert(kept@ =~= kept@ + edges_without(orig.skip(i as int), from, to));
        }
        self.edges = kept;
    }

    /// Whether a link is recorded.
    pub fn contains_edge(&self, from: ReactorID, to: ReactorID) -> (r: bool)
        ensures
            r == has_edge(self.spec_edges(), from, to),
    {
        let mut i: usize = 0;
        proof {
            assert(self.edges@.skip(0) =~= self.edges@);
        }
        while i < self.edges.len()
            invariant
                i <= self.edges@.len(),
                has_edge(self.spec_edges(), from, to) == has_edge(
                    self.spec_edges().skip(i as int),
                    from,
                    to,
                ),
            decreases self.edges@.len() - i,
        {
            proof {
                assert(self.edges@.skip(i as int)[0] == self.edges@[i as int]);
                assert(self.edges@.skip(i as int).drop_first() =~= self.edges@.skip(i as int + 1));
            }
            let e = self.edges[i];
            if e.0 == from && e.1 == to {
                proof {
                    assert((e.0, e.1) == e);
                }
                return true;
            }
            i = i + 1;
        }
        proof {
            assert(self.edges@.skip(i as int) =~= Seq::<(ReactorID, ReactorID)>::empty());
        }
        false
    }
}

impl GraphLike for Graph {
    fn add_node(&mut self, id: ReactorID) {
        self.record_node(id);
    }

    fn add_edge(&mut self, from: ReactorID, to: ReactorID) {
        self.record_edge(from, to);
    }

    fn remove_node(&mut self, id: ReactorID) {
        self.erase_node(id);
    }

    fn remove_edge(&mut self, from: ReactorID, to: ReactorID) {
        self.erase_edge(from, to);
    }
}

} // verus!
