//! A counter for visited search nodes, kept for diagnostics.
use vstd::prelude::*;

verus! {

#[derive(Copy, Clone)]
pub struct NodeCounter {
    pub nodes: usize,
}

impl NodeCounter {
    pub fn new() -> (r: Self)
        ensures
            r.nodes == 0,
    {
        Self { nodes: 0 }
    }

    /// Counts one more node.
    pub fn up(&mut self)
        requires
            old(self).nodes < usize::MAX,
        ensures
            final(self).nodes == old(self).nodes + 1,
    {
        self.nodes = self.nodes + 1;
    }

    /// Takes the count down to its floor of one.
    pub fn down(&mut self)
        requires
            old(self).nodes >= 1,
        ensures
            final(self).nodes == 1,
    {
        self.nodes = self.nodes - (self.nodes - 1);
    }

    /// Starts a fresh count.
    pub fn zero(&mut self)
        ensures
            final(self).nodes == 0,
    {
        self.nodes = 0;
    }
}

} // verus!
