//! The command line arguments that the library reads.

use vstd::prelude::*;
use crate::format::OutputFormat;
use crate::graph::{DepsArgs, TargetArgs};
use crate::readme::ReadmeArgs;

verus! {

/// The arguments of a run, as the command line gave them.
#[derive(Clone, Debug, Default, PartialEq, Eq)]
pub struct Args {
    /// Don't truncate dependencies that have already been displayed.
    pub all: bool,
    pub deps_args: DepsArgs,
    /// Only report whether crates forbid unsafe code.
    pub forbid_only: bool,
    /// The pattern of a package line.
    pub format: String,
    pub include_tests: bool,
    /// Follow the dependency edges backwards.
    pub invert: bool,
    pub no_indent: bool,
    pub output_format: OutputFormat,
    pub prefix_depth: bool,
    pub readme_args: ReadmeArgs,
    pub target_args: TargetArgs,
    /// How many times verbose output was asked for.
    pub verbose: u32,
}

/// The subcommand of a run.
#[derive(Clone, Debug, PartialEq, Eq)]
pub enum GeigerCommands {
    /// Geiger with build tree, with extra arguments handed to cargo.
    Build { cargo_args: Vec<String> },
    /// Geiger with test tree.
    Test {},
    /// Geiger with runtime tree.
    Run {},
}

} // verus!
