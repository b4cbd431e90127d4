use vstd::prelude::*;

use crate::geometry::topology::{connected, Topology};

verus! {

/// A tile, named by its index in the topology's list of hexagons.
#[derive(Debug, Clone, Copy, PartialEq, Eq, Hash, Structural)]
pub struct TileId(pub usize);

impl TileId {
    pub fn new(index: usize) -> (t: TileId)
        ensures
            t.0 == index,
    {
        TileId(index)
    }

    pub fn value(&self) -> (v: usize)
        ensures
            v == self.0,
    {
        self.0
    }
}

/// A vertex of the board, where buildings stand.
#[derive(Debug, Clone, Copy, PartialEq, Eq, Hash, Ord, PartialOrd, Structural)]
pub struct VertexId(pub usize);

impl VertexId {
    pub fn new(index: usize) -> (v: VertexId)
        ensures
            v.0 == index,
    {
        VertexId(index)
    }

    pub fn value(&self) -> (v: usize)
        ensures
            v == self.0,
    {
        self.0
    }
}

/// An edge of the board, where roads run.
#[derive(Debug, Clone, Copy, PartialEq, Eq, Hash, Ord, PartialOrd, Structural)]
pub struct EdgeId(pub usize);

impl EdgeId {
    pub fn new(index: usize) -> (e: EdgeId)
        ensures
            e.0 == index,
    {
        EdgeId(index)
    }

    pub fn value(&self) -> (v: usize)
        ensures
            v == self.0,
    {
        self.0
    }
}

/// The edges that meet a vertex or an edge.
pub trait ConnectedEdges: Sized {
    fn connected_edges(self, topology: &Topology) -> Vec<EdgeId>;
}

impl ConnectedEdges for VertexId {
    /// The edges that touch the vertex, in increasing order.
    fn connected_edges(self, topology: &Topology) -> (r: Vec<EdgeId>)
        ensures
            r@ == connected(topology@, self),
    {
        topology.connected_edges(self)
    }
}

impl ConnectedEdges for EdgeId {
    /// The edges touching either endpoint of the edge (the edge itself
    /// among them, once per endpoint); none for an edge the topology lacks.
    fn connected_edges(self, topology: &Topology) -> (r: Vec<EdgeId>)
        ensures
            r@ == (if self.0 < topology@.edge_count {
                connected(topology@, topology@.edges_endpoints[self.0 as int][0]) + connected(
                    topology@,
                    topology@.edges_endpoints[self.0 as int][1],
                )
            } else {
                Seq::empty()
            }),
    {
        proof {
            use_type_invariant(topology);
        }
        let ends = topology.edges_endpoints();
        let mut r: Vec<EdgeId> = Vec::new();
        if self.0 < ends.len() {
            let pair = ends[self.0];
            let mut first = topology.connected_edges(pair[0]);
            let mut second = topology.connected_edges(pair[1]);
            first.append(&mut second);
            r = first;
        }
        r
    }
}

} // verus!
