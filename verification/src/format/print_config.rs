//! How the scan output is printed, as the arguments choose it.

use vstd::prelude::*;
use crate::args::Args;
use crate::format::{FormatError, OutputFormat, Prefix};
use crate::format::pattern::{chunks_view, spec_try_build, ChunkView, Pattern};
use crate::geiger::IncludeTests;
use crate::graph::EdgeDirection;
use crate::text::str_is;

verus! {

/// How much is printed besides the results.
#[derive(Clone, Copy, Debug, PartialEq, Eq, Structural)]
pub enum Verbosity {
    Verbose,
    Normal,
    Quiet,
}

/// How the scan output is printed.
#[derive(Debug, PartialEq, Eq)]
pub struct PrintConfig {
    /// Don't truncate dependencies that have already been displayed.
    pub all: bool,
    pub allow_partial_results: bool,
    pub direction: EdgeDirection,
    /// The pattern of a package line.
    pub format: Pattern,
    pub include_tests: IncludeTests,
    pub prefix: Prefix,
    pub output_format: OutputFormat,
    pub verbosity: Verbosity,
}

/// The prefix that the arguments choose: depth over no indent over indent.
pub open spec fn spec_prefix(prefix_depth: bool, no_indent: bool) -> Prefix {
    if prefix_depth {
        Prefix::Depth
    } else if no_indent {
        Prefix::NoPrefix
    } else {
        Prefix::Indent
    }
}

impl PrintConfig {
    /// The print configuration of the arguments: edges followed backwards
    /// when inverted, tests included when asked, the prefix chosen by
    /// `prefix_depth` and `no_indent`, verbose output when asked at least
    /// once, and partial results allowed. An invalid pattern is an error
    /// with the pattern's message.
    pub fn new(args: &Args) -> (r: Result<PrintConfig, FormatError>)
        requires
            spec_try_build(args.format@) is Some,
        ensures
            match r {
                Ok(c) => {
                    &&& spec_try_build(args.format@) == Some(
                        Ok::<Seq<ChunkView>, Seq<char>>(chunks_view(c.format.chunks@)),
                    )
                    &&& c.all == args.all
                    &&& c.allow_partial_results
                    &&& c.direction == if args.invert {
                        EdgeDirection::Incoming
                    } else {
                        EdgeDirection::Outgoing
                    }
                    &&& c.include_tests == if args.include_tests {
                        IncludeTests::Yes
                    } else {
                        IncludeTests::No
                    }
                    &&& c.output_format == args.output_format
                    &&& c.prefix == spec_prefix(args.prefix_depth, args.no_indent)
                    &&& c.verbosity == if args.verbose == 0 {
                        Verbosity::Normal
                    } else {
                        Verbosity::Verbose
                    }
                },
                Err(e) => spec_try_build(args.format@) == Some(
                    Err::<Seq<ChunkView>, Seq<char>>(e.message@),
                ),
            },
    {
        let allow_partial_results = true;
        let direction = if args.invert {
            EdgeDirection::Incoming
        } else {
            EdgeDirection::Outgoing
        };
        let format = match Pattern::try_build(args.format.as_str()) {
            Ok(p) => p,
            Err(e) => {
                return Err(e);
            },
        };
        let include_tests = if args.include_tests {
            IncludeTests::Yes
        } else {
            IncludeTests::No
        };
        let prefix = if args.prefix_depth {
            Prefix::Depth
        } else if args.no_indent {
            Prefix::NoPrefix
        } else {
            Prefix::Indent
        };
        let verbosity = if args.verbose == 0 {
            Verbosity::Normal
        } else {
            Verbosity::Verbose
        };
        Ok(
            PrintConfig {
                all: args.all,
                allow_partial_results,
                direction,
                format,
                include_tests,
                output_format: args.output_format,
                prefix,
                verbosity,
            },
        )
    }
}

/// The output format of each name, as the variant is written.
pub open spec fn spec_output_format_from_name(s: Seq<char>) -> Option<OutputFormat> {
    if s == "Ascii"@ {
        Some(OutputFormat::Ascii)
    } else if s == "Json"@ {
        Some(OutputFormat::Json)
    } else if s == "GitHubMarkdown"@ {
        Some(OutputFormat::GitHubMarkdown)
    } else if s == "Ratio"@ {
        Some(OutputFormat::Ratio)
    } else if s == "Utf8"@ {
        Some(OutputFormat::Utf8)
    } else {
        None
    }
}

/// The output format named by its variant's name, or nothing for any
/// other text.
pub fn output_format_from_name(s: &str) -> (r: Option<OutputFormat>)
    ensures
        r == spec_output_format_from_name(s@),
{
    if str_is(s, "Ascii") {
        Some(OutputFormat::Ascii)
    } else if str_is(s, "Json") {
        Some(OutputFormat::Json)
    } else if str_is(s, "GitHubMarkdown") {
        Some(OutputFormat::GitHubMarkdown)
    } else if str_is(s, "Ratio") {
        Some(OutputFormat::Ratio)
    } else if str_is(s, "Utf8") {
        Some(OutputFormat::Utf8)
    } else {
        None
    }
}

} // verus!
