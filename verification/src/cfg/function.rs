use vstd::prelude::*;

use crate::cfg::name::Name;
use crate::cfg::name::NameV;

verus! {

/// The terminating instruction of a basic block, reduced to what decides
/// control flow: the names of the possible jump targets.
///
/// Terminators that this crate does not structure (exception handling,
/// indirect calls with continuations) have no value here; a caller converts
/// a function before building a graph and fails on those.
#[derive(Debug)]
pub enum Terminator {
    /// Unconditional branch.
    Br { dest: Name },
    /// Two-way conditional branch.
    CondBr { true_dest: Name, false_dest: Name },
    /// Multi-way branch: the destination of each case in source order,
    /// then the default destination.
    Switch { dests: Vec<Name>, default_dest: Name },
    /// Branch to one of a set of possible destinations.
    IndirectBr { possible_dests: Vec<Name> },
    /// Return from the function.
    Ret,
    /// Control never reaches this point.
    Unreachable,
}

/// Mathematical value of a [`Terminator`].
pub enum TermV {
    Br { dest: NameV },
    CondBr { true_dest: NameV, false_dest: NameV },
    Switch { dests: Seq<NameV>, default_dest: NameV },
    IndirectBr { possible_dests: Seq<NameV> },
    Ret,
    Unreachable,
}

impl View for Terminator {
    type V = TermV;

    open spec fn view(&self) -> TermV {
        match self {
            Terminator::Br { dest } => TermV::Br { dest: dest@ },
            Terminator::CondBr { true_dest, false_dest } => TermV::CondBr {
                true_dest: true_dest@,
                false_dest: false_dest@,
            },
            Terminator::Switch { dests, default_dest } => TermV::Switch {
                dests: dests@.map_values(|n: Name| n@),
                default_dest: default_dest@,
            },
            Terminator::IndirectBr { possible_dests } => TermV::IndirectBr {
                possible_dests: possible_dests@.map_values(|n: Name| n@),
            },
            Terminator::Ret => TermV::Ret,
            Terminator::Unreachable => TermV::Unreachable,
        }
    }
}

/// One basic block: its name and its terminator.
#[derive(Debug)]
pub struct BasicBlock {
    pub name: Name,
    pub term: Terminator,
}

/// Mathematical value of a [`BasicBlock`].
pub struct BlockV {
    pub name: NameV,
    pub term: TermV,
}

impl View for BasicBlock {
    type V = BlockV;

    open spec fn view(&self) -> BlockV {
        BlockV { name: self.name@, term: self.term@ }
    }
}

/// A function, reduced to its ordered list of basic blocks.
#[derive(Debug)]
pub struct Function {
    pub basic_blocks: Vec<BasicBlock>,
}

impl View for Function {
    type V = Seq<BlockV>;

    open spec fn view(&self) -> Seq<BlockV> {
        self.basic_blocks@.map_values(|b: BasicBlock| b@)
    }
}

} // verus!
