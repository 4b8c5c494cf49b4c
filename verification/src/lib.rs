pub mod text;
pub mod graph;
pub mod naming;
pub mod data;
pub mod api_map;
pub mod compat;
pub mod level_order;
pub mod deps;
pub mod matrix;
pub mod recommendation;
pub mod diff;
pub mod output_paths;
pub mod output;
pub mod config;
pub mod project;
pub mod discovery;
pub mod spec_writer;
pub mod language;
pub mod manifest;
pub mod references;
pub mod error;
pub mod symbols;
pub mod parser;
pub mod ast;
pub mod scores;
pub mod matcher;
