//! Recovery of structured control flow from a basic-block graph.
//!
//! The crate restructures the control-flow graph of a function in a low-level
//! intermediate representation: it repeatedly recognises one of six primitive
//! shapes (loops, conditionals, straight-line sequences), collapses the shape
//! to a single meta-node, and finally re-expands the recorded reductions into
//! a nested tree of control-flow groups.

pub mod cfa;
pub mod cfr;
pub mod cfg;
pub mod util;
