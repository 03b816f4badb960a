//! What the user asks for.
use vstd::prelude::*;

verus! {

/// The options of a run.
#[derive(Debug)]
pub struct Cli {
    /// Source git ref to compare from (the base)
    pub source: String,
    /// Target git ref to compare to
    pub target: String,
    /// Crate names to treat as breaking-change seeds directly, skipping
    /// git-based version detection
    pub direct: Option<Vec<String>>,
    /// Disable colored output
    pub no_color: bool,
    /// Print which public API items cause each leak
    pub verbose: bool,
    /// Print an influence tree showing how bumps propagate
    pub tree: bool,
    /// Show cargo rustdoc stderr output (warnings, errors) during analysis
    pub rustdoc_stderr: bool,
    /// Rust toolchain to use for rustdoc JSON generation
    pub toolchain: String,
    /// Include binary-only crates in the analysis (skipped by default)
    pub include_binaries: bool,
}

} // verus!
