//! Names of the nodes of a query plan.

use vstd::prelude::*;

verus! {

/// Identifies a node of a plan.
#[derive(Clone, Debug, Copy, Hash, Eq, PartialEq, Structural, PartialOrd, Ord)]
pub struct PlanNodeId(pub i32);

/// What a plan node is written for.
#[derive(Debug, PartialEq)]
pub enum Convention {
    Logical,
    Batch,
    Stream,
}

} // verus!
