//! Structural health metrics over a directed graph of code entities.
//!
//! The heart of the crate is a graph model (`graph::CodeGraph`) and a
//! family of independent metric modules over it: centrality, community
//! detection, quality, risk and change impact, orchestrated by
//! `engine::AnalyticsEngine` into one report with composite scores. The
//! pipeline never fails outright: degenerate inputs (an empty graph,
//! self-loops, non-finite edge weights, disconnected components) yield
//! well-defined neutral outputs, and a module the graph is too large for
//! degrades to its default result with a logged entry.
//!
//! Every score is a fixed-point integer scaled by `fixed::SCALE`; edge
//! weights arrive as `graph::EdgeWeight` values that keep a caller's
//! non-finite numbers distinguishable until a consumer sanitizes them.
//! Each metric's exact behaviour is written down as a specification
//! function next to its implementation, and `laws` states the
//! cross-cutting guarantees once: degenerate-input defaults, bounded
//! outputs, execution-mode independence, repeatable runs, the rank of a
//! star's center, and how a god object is flagged.
pub mod ast;
pub mod builder;
pub mod centrality;
pub mod community;
pub mod engine;
pub mod files;
pub mod fixed;
pub mod graph;
pub mod impact;
pub mod laws;
pub mod lod;
pub mod paths;
pub mod progress;
pub mod quality;
pub mod report;
pub mod resolver;
pub mod risk;
pub mod store;
pub mod ui;
