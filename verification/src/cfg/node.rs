use vstd::prelude::*;

use crate::cfg::name::Name;
use crate::cfg::name::NameV;

verus! {

/// A single node of a [`ControlFlowGraph`](crate::cfg::ControlFlowGraph).
///
/// The identity of a node is the pair of names `(from_pred, to_succ)`. A node
/// standing for an original basic block carries the block's name twice; a
/// meta-node produced by collapsing a primitive carries the entry name of the
/// collapsed region and the exit name of the collapsed region.
#[derive(Debug)]
pub struct CFGNode {
    /// Name of the entry of the region this node stands for.
    from_pred: Name,
    /// Name of the exit of the region this node stands for.
    to_succ: Name,
}

/// Mathematical value of a [`CFGNode`]: the pair of its two names.
pub struct NodeV {
    pub from_pred: NameV,
    pub to_succ: NameV,
}

/// The node a single name denotes: both halves of the pair are that name.
pub open spec fn node_of_name(n: NameV) -> NodeV {
    NodeV { from_pred: n, to_succ: n }
}

impl View for CFGNode {
    type V = NodeV;

    closed spec fn view(&self) -> NodeV {
        NodeV { from_pred: self.from_pred@, to_succ: self.to_succ@ }
    }
}

impl CFGNode {
    /// Pair a region's entry name with its exit name.
    pub fn new(from_pred: Name, to_succ: Name) -> (r: Self)
        ensures
            r@ == (NodeV { from_pred: from_pred@, to_succ: to_succ@ }),
    {
        CFGNode { from_pred, to_succ }
    }

    /// The node standing for a single original block.
    pub fn from_name(name: &Name) -> (r: Self)
        ensures
            r@ == node_of_name(name@),
    {
        CFGNode { from_pred: name.clone(), to_succ: name.clone() }
    }

    /// Name of the entry of the region this node stands for.
    pub fn from_pred(&self) -> (r: &Name)
        ensures
            r@ == self@.from_pred,
    {
        &self.from_pred
    }

    /// Name of the exit of the region this node stands for.
    pub fn to_succ(&self) -> (r: &Name)
        ensures
            r@ == self@.to_succ,
    {
        &self.to_succ
    }
}

impl Clone for CFGNode {
    fn clone(&self) -> (r: Self)
        ensures
            r == *self,
    {
        CFGNode { from_pred: self.from_pred.clone(), to_succ: self.to_succ.clone() }
    }
}

impl PartialEq for CFGNode {
    fn eq(&self, other: &Self) -> (r: bool) {
        self.from_pred == other.from_pred && self.to_succ == other.to_succ
    }
}

impl vstd::std_specs::cmp::PartialEqSpecImpl for CFGNode {
    open spec fn obeys_eq_spec() -> bool {
        true
    }

    open spec fn eq_spec(&self, other: &Self) -> bool {
        self@ == other@
    }
}

impl Eq for CFGNode {}

} // verus!
