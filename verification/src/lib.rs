//! A node-graph execution engine: typed computation nodes are assembled into a
//! directed graph, the graph is validated against a catalog of node types, and
//! the validated graph is evaluated by a memoizing recursive solver that
//! coerces ("broadcasts") values across compatible data types as they cross
//! slot boundaries.

pub mod values;
pub mod table;
pub mod types;
pub mod graph;
pub mod cycle;
pub mod finalize;
pub mod broadcast;
pub mod exec;
pub mod laws;
