//! What the operations are for: laws that tie results to inputs.

pub mod bumps;
pub mod changes;
pub mod documents;
pub mod evaluation;
pub mod graphs;
pub mod leaks;
pub mod manifests;
pub mod reports;
pub mod texts;
pub mod tree;
pub mod versions;
pub mod views;
pub mod wave;
pub mod workspace;
