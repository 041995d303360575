//! Documentation index generator for Luau projects: the analysis-and-extraction
//! engine and the command-line surface around it, with machine-checked contracts.

pub mod cli;
pub mod model;
pub mod report;
pub mod signature;
pub mod declaration;
pub mod syntax;
pub mod extractor;
pub mod doc;
pub mod binder;
pub mod graph;
pub mod graph_laws;
pub mod render;
pub mod analysis;
pub mod loader;
pub mod config;
pub mod engine;
pub mod wire;
pub mod wire_signature;
