//! A dependency-graph construction and transformation engine.
//!
//! The engine ingests a package manager's resolved dependency graph and
//! turns it into a reduced, annotated, queryable graph: multi-root
//! breadth-first graph building with configurable inclusion rules, a
//! three-valued build-flag lattice tracking when a dependency is actually
//! required, an aggregation pass folding per-edge information onto nodes,
//! and a family of graph-reduction passes.

pub mod cli;
pub mod dep_info;
pub mod dto;
pub mod graph;
pub mod output;
pub mod package;
pub mod resolve;
pub mod util;
