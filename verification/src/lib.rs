//! Statistics about the use of `unsafe` in Rust source code and in the
//! dependency tree of a crate, with verified counting, aggregation,
//! formatting and report building.

pub mod args;
pub mod cli;
pub mod readme;
pub mod report;
pub mod format;
pub mod geiger;
pub mod graph;
pub mod text;
pub mod tree;
pub mod scan;
pub mod source;
pub mod sums;

use vstd::prelude::*;

verus! {

/// Options of a run, implemented by the caller's option type.
pub trait GeigerOpts {
    /// Whether the run reports what it does; unless the options say
    /// otherwise, it does not.
    fn verbose(&self) -> (r: bool)
        default_ensures
            !r,
    {
        false
    }
}

/// A run with the caller's options.
pub struct Geiger<R> {
    pub opts: R,
}

impl<R: GeigerOpts> Geiger<R> {
    /// A run with the given options.
    pub fn from_opts(opts: R) -> (r: Self)
        ensures
            r.opts == opts,
    {
        Self { opts: opts }
    }
}

} // verus!
