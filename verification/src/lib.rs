//! Automatic 2-D diagram layout for directed pipeline graphs.
//!
//! Nodes declare pairwise spatial relations (left/right/above/below) and
//! data-flow edges (pass-through, skip-connection, labeled transforms).
//! The library discovers the reachable graph, builds a linear-constraint
//! plan for an incremental solver, and derives line-routing geometry from
//! the solved box positions.
use vstd::prelude::*;

pub mod discover;
pub mod graph;
pub mod layout;
pub mod plan;
pub mod render;
pub mod text;

verus! {

/// Side length of a node's box before any depth adjustment, in layout units.
pub const NODE_SIZE: i64 = 60;

/// Minimum gap requested between spatially related boxes: half the base size.
pub const NODE_SPACING: i64 = 30;

/// Inward offset of a line endpoint from the box edge it attaches to:
/// a third of the spacing constant.
pub const LINE_SPACING: i64 = 10;

/// Extra side length per unit of depth when a node's dimension vector has
/// more than three entries: a tenth of the base size per depth unit.
pub const NODE_OVERLAY_STEP: i64 = 6;

} // verus!
