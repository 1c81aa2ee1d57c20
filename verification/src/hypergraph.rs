//! Hyperedges: weighted, delayed connections from a set of source neurons to
//! a set of target neurons.

use vstd::prelude::*;
use crate::fixed::Fixed;

verus! {

/// A connection that delivers one weighted input to each of its targets
/// whenever one of its sources fires, `delay` ticks later.
pub struct HyperEdge {
    pub id: u32,
    pub sources: Vec<u32>,
    pub targets: Vec<u32>,
    pub weight: Fixed,
    pub delay: u64,
}

/// Mathematical model of a hyperedge.
pub struct EdgeView {
    pub id: u32,
    pub sources: Seq<u32>,
    pub targets: Seq<u32>,
    pub weight: Fixed,
    pub delay: u64,
}

impl EdgeView {
    /// Neuron `s` is one of the sources of the edge.
    pub open spec fn has_source(self, s: int) -> bool {
        exists|i: int| 0 <= i < self.sources.len() && #[trigger] self.sources[i] as int == s
    }

    /// The edge with another weight.
    pub open spec fn with_weight(self, weight: Fixed) -> EdgeView {
        EdgeView { weight, ..self }
    }
}

impl View for HyperEdge {
    type V = EdgeView;

    open spec fn view(&self) -> EdgeView {
        EdgeView {
            id: self.id,
            sources: self.sources@,
            targets: self.targets@,
            weight: self.weight,
            delay: self.delay,
        }
    }
}

impl HyperEdge {
    /// Whether `neuron` is one of the sources of the edge.
    pub fn has_source(&self, neuron: u32) -> (found: bool)
        ensures
            found == self@.has_source(neuron as int),
    {
        let mut i: usize = 0;
        while i < self.sources.len()
            invariant
                i <= self.sources@.len(),
                forall|j: int| 0 <= j < i ==> self.sources@[j] != neuron,
            decreases self.sources@.len() - i,
        {
            if self.sources[i] == neuron {
                assert(self@.sources[i as int] as int == neuron as int);
                return true;
            }
            i = i + 1;
        }
        false
    }
}

/// The models of a table of edges, in table order.
pub open spec fn edges_view(edges: Seq<HyperEdge>) -> Seq<EdgeView> {
    Seq::new(edges.len(), |i: int| edges[i]@)
}

} // verus!
