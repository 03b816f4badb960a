//! Determine semver bump requirements for the crates of a Cargo workspace.

pub mod cli;
pub mod course;
pub mod display;
pub mod evaluate;
pub mod graph;
pub mod ids;
pub mod laws;
pub mod leak;
pub mod manifest;
pub mod names;
pub mod order;
pub mod propagate;
pub mod report;
pub mod run;
pub mod rustdoc;
pub mod rustdoc_json;
pub mod seeds;
pub mod semver;
pub mod text;
pub mod types;
pub mod workspace;
