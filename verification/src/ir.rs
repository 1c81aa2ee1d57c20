//! A minimal linear description of network operations.

use vstd::prelude::*;

verus! {

/// One operation on a network.
#[derive(Debug, Clone, Copy)]
pub enum SnnOp {
    NeuronUpdate { id: u32 },
    SynapseUpdate { src: u32, dst: u32, weight: i32 },
    SpikeEmit { id: u32, time: u64 },
}

/// A sequence of operations, in the order in which they were recorded.
pub struct Program {
    pub ops: Vec<SnnOp>,
}

impl Program {
    /// The empty program.
    pub fn new() -> (p: Program)
        ensures
            p.ops@ == Seq::<SnnOp>::empty(),
    {
        Program { ops: Vec::new() }
    }

    /// Appends `op` to the program.
    pub fn push(&mut self, op: SnnOp)
        ensures
            final(self).ops@ == old(self).ops@.push(op),
    {
        self.ops.push(op);
    }

    /// Whether the program holds no operation.
    pub fn is_empty(&self) -> (empty: bool)
        ensures
            empty == (self.ops@.len() == 0),
    {
        self.ops.len() == 0
    }

    /// The number of operations of the program.
    pub fn len(&self) -> (n: usize)
        ensures
            n == self.ops@.len(),
    {
        self.ops.len()
    }
}

} // verus!
