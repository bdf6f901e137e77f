//! A small algebra of task combinators that thread a mergeable state value
//! through a tree of named units of work.

pub mod graph;
pub mod laws;
pub mod taskflow;
