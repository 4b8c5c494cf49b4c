//! Paths of the dependency graph.
use vstd::prelude::*;

verus! {

pub const NODES: &'static str = "graph/nodes.json";
pub const EDGES: &'static str = "graph/edges.json";
pub const CYCLES: &'static str = "graph/cycles.json";

} // verus!
