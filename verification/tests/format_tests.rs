use cargo_geiger::args::Args;
use cargo_geiger::format::parse::{Parser, RawChunk};
use cargo_geiger::format::pattern::{PackageDisplayInfo, Pattern};
use cargo_geiger::format::print_config::{output_format_from_name, PrintConfig, Verbosity};
use cargo_geiger::format::{
    colorize, colorize_by_status, get_crate_detection_status_and_update_package_counts,
    get_kind_group_name, get_tree_symbols, get_tree_symbols_for_output_format, table_footer,
    table_row, table_row_empty, text_tree_line_extra_deps_group_to_table_line_string, Charset,
    Chunk, CrateDetectionStatus, EmojiSymbols, OutputFormat, Prefix, StyledText, SymbolKind,
    TextStyle, TotalPackageCounts, TreeSymbols,
};
use cargo_geiger::geiger::IncludeTests;
use cargo_geiger::graph::EdgeDirection;
use cargo_geiger::report::{Count, CounterBlock, DependencyKind};

#[test]
fn get_tree_symbols_test() {
    assert_eq!(
        get_tree_symbols(Charset::Utf8),
        TreeSymbols { down: "│", tee: "├", ell: "└", right: "─" }
    );
}

#[test]
fn tree_symbols_of_output_formats() {
    let ascii = TreeSymbols { down: "|", tee: "|", ell: "`", right: "-" };
    let utf8 = TreeSymbols { down: "│", tee: "├", ell: "└", right: "─" };
    assert_eq!(get_tree_symbols(Charset::Ascii), ascii);
    assert_eq!(get_tree_symbols_for_output_format(OutputFormat::Ascii), ascii);
    assert_eq!(get_tree_symbols_for_output_format(OutputFormat::GitHubMarkdown), utf8);
    assert_eq!(get_tree_symbols_for_output_format(OutputFormat::Utf8), utf8);
}

fn styled(text: &str, style: TextStyle) -> StyledText {
    StyledText { text: text.to_string(), style }
}

#[test]
fn colorize_test() {
    let string = String::from("string_value");
    assert_eq!(
        colorize_by_status(string.clone(), &CrateDetectionStatus::NoneDetectedForbidsUnsafe),
        styled("string_value", TextStyle::Green)
    );
    assert_eq!(
        colorize_by_status(string.clone(), &CrateDetectionStatus::NoneDetectedAllowsUnsafe),
        styled("string_value", TextStyle::Normal)
    );
    assert_eq!(
        colorize_by_status(string.clone(), &CrateDetectionStatus::UnsafeDetected),
        styled("string_value", TextStyle::RedBold)
    );
}

#[test]
fn colorize_in_each_output_format() {
    let s = || String::from("string_value");
    assert_eq!(
        colorize(&CrateDetectionStatus::NoneDetectedForbidsUnsafe, OutputFormat::Ascii, s()),
        styled("string_value", TextStyle::Green)
    );
    assert_eq!(
        colorize(&CrateDetectionStatus::NoneDetectedAllowsUnsafe, OutputFormat::Utf8, s()),
        styled("string_value", TextStyle::Normal)
    );
    assert_eq!(
        colorize(&CrateDetectionStatus::UnsafeDetected, OutputFormat::Ascii, s()),
        styled("string_value", TextStyle::RedBold)
    );
    for status in [
        CrateDetectionStatus::NoneDetectedForbidsUnsafe,
        CrateDetectionStatus::NoneDetectedAllowsUnsafe,
        CrateDetectionStatus::UnsafeDetected,
    ] {
        assert_eq!(
            colorize(&status, OutputFormat::GitHubMarkdown, s()),
            styled("string_value", TextStyle::Plain)
        );
    }
}

#[test]
fn get_kind_group_name_test() {
    assert_eq!(get_kind_group_name(DependencyKind::Build), Some("[build-dependencies]"));
    assert_eq!(get_kind_group_name(DependencyKind::Development), Some("[dev-dependencies]"));
    assert_eq!(get_kind_group_name(DependencyKind::Normal), None);
}

#[test]
fn text_tree_line_extra_deps_group_to_table_line_string_test() {
    let vines = || String::from("tree_vines");
    assert_eq!(
        text_tree_line_extra_deps_group_to_table_line_string(DependencyKind::Build, vines()),
        Some(format!("{}{}{}", table_row_empty(), "tree_vines", "[build-dependencies]"))
    );
    assert_eq!(
        text_tree_line_extra_deps_group_to_table_line_string(DependencyKind::Development, vines()),
        Some(format!("{}{}{}", table_row_empty(), "tree_vines", "[dev-dependencies]"))
    );
    assert_eq!(
        text_tree_line_extra_deps_group_to_table_line_string(DependencyKind::Normal, vines()),
        None
    );
}

#[test]
fn table_row_empty_is_as_wide_as_the_counter_columns() {
    assert_eq!(table_row_empty(), " ".repeat(51));
}

fn block(n: u64) -> CounterBlock {
    CounterBlock {
        functions: Count { safe: n, unsafe_: n },
        exprs: Count { safe: 2 * n, unsafe_: 2 * n },
        item_impls: Count { safe: 3 * n, unsafe_: 3 * n },
        item_traits: Count { safe: 4 * n, unsafe_: 4 * n },
        methods: Count { safe: 5 * n, unsafe_: 5 * n },
    }
}

#[test]
fn table_footer_test() {
    let expected = "2/4        4/8          6/12   8/16    10/20  ";
    let footer = table_footer(block(2), block(2), CrateDetectionStatus::UnsafeDetected);
    assert_eq!(footer, styled(expected, TextStyle::RedBold));
    let footer = table_footer(block(2), block(2), CrateDetectionStatus::NoneDetectedForbidsUnsafe);
    assert_eq!(footer, styled(expected, TextStyle::Green));
}

#[test]
fn table_row_pads_each_column() {
    assert_eq!(table_row(&block(1), &block(0)), "1/1        2/2          3/3    4/4     5/5    ");
    assert_eq!(table_row(&block(0), &block(0)), "0/0        0/0          0/0    0/0     0/0    ");
}

#[test]
fn total_detection_status() {
    let mut counts = TotalPackageCounts::new();
    assert_eq!(counts.get_total_detection_status(), CrateDetectionStatus::NoneDetectedAllowsUnsafe);
    counts.none_detected_forbids_unsafe = 1;
    assert_eq!(counts.get_total_detection_status(), CrateDetectionStatus::NoneDetectedForbidsUnsafe);
    counts.none_detected_allows_unsafe = 1;
    assert_eq!(counts.get_total_detection_status(), CrateDetectionStatus::NoneDetectedAllowsUnsafe);
    counts.unsafe_detected = 1;
    assert_eq!(counts.get_total_detection_status(), CrateDetectionStatus::UnsafeDetected);
}

#[test]
fn get_crate_detection_status_and_update_package_counts_test() {
    let cases = [
        (true, 1, false, CrateDetectionStatus::NoneDetectedForbidsUnsafe, 1, 0, 0),
        (true, 0, false, CrateDetectionStatus::NoneDetectedForbidsUnsafe, 0, 0, 0),
        (false, 1, false, CrateDetectionStatus::NoneDetectedAllowsUnsafe, 0, 1, 0),
        (false, 0, false, CrateDetectionStatus::NoneDetectedAllowsUnsafe, 0, 0, 0),
        (false, 1, true, CrateDetectionStatus::UnsafeDetected, 0, 0, 1),
        (false, 0, true, CrateDetectionStatus::UnsafeDetected, 0, 0, 0),
    ];
    for (forbids, inc, found, status, f, a, u) in cases {
        let mut counts = TotalPackageCounts::new();
        let actual = get_crate_detection_status_and_update_package_counts(forbids, &mut counts, inc, found);
        assert_eq!(actual, status);
        assert_eq!(counts.none_detected_forbids_unsafe, f);
        assert_eq!(counts.none_detected_allows_unsafe, a);
        assert_eq!(counts.unsafe_detected, u);
    }
}

#[test]
fn emoji_symbols_show_emoji_or_ascii() {
    let utf8 = EmojiSymbols::new(OutputFormat::Utf8, true);
    assert!(utf8.will_output_emoji());
    assert_eq!(utf8.emoji(SymbolKind::Lock), styled("🔒", TextStyle::Plain));
    assert_eq!(utf8.emoji(SymbolKind::QuestionMark), styled("❓", TextStyle::Plain));
    assert_eq!(utf8.emoji(SymbolKind::Rads), styled("☢\u{fe0f}", TextStyle::Plain));
    let markdown = EmojiSymbols::new(OutputFormat::GitHubMarkdown, false);
    assert!(markdown.will_output_emoji());
    let ascii = EmojiSymbols::new(OutputFormat::Ascii, true);
    assert!(!ascii.will_output_emoji());
    assert_eq!(ascii.emoji(SymbolKind::Lock), styled(":)", TextStyle::Green));
    assert_eq!(ascii.emoji(SymbolKind::QuestionMark), styled("?", TextStyle::Normal));
    assert_eq!(ascii.emoji(SymbolKind::Rads), styled("!", TextStyle::RedBold));
    let plain_terminal = EmojiSymbols::new(OutputFormat::Utf8, false);
    assert!(!plain_terminal.will_output_emoji());
}

#[test]
fn parser_new_test() {
    let mut parser = Parser::new("parser_string");
    assert_eq!(parser.next(), Some(RawChunk::Text("parser_string")));
    assert_eq!(parser.next(), None);
}

#[test]
fn parser_argument_test() {
    let mut parser = Parser::new("parser 1.2.3");
    assert_eq!(parser.argument(), RawChunk::Argument("parser"));
}

#[test]
fn parser_name_test() {
    let mut parser = Parser::new("parser 1.2.3");
    assert_eq!(parser.name(), "parser");
    let mut parser = Parser::new("1.2.3 parser");
    assert_eq!(parser.name(), "");
}

#[test]
fn parser_text_test() {
    let mut parser = Parser::new("parser 1.2.3");
    assert_eq!(parser.text(0), RawChunk::Text("parser 1.2.3"));
}

#[test]
fn parser_reads_arguments_escapes_and_errors() {
    let mut parser = Parser::new("a{p}{{b}");
    assert_eq!(parser.next(), Some(RawChunk::Text("a")));
    assert_eq!(parser.next(), Some(RawChunk::Argument("p")));
    assert_eq!(parser.next(), Some(RawChunk::Text("{")));
    assert_eq!(parser.next(), Some(RawChunk::Text("b")));
    let mut parser = Parser::new("{p");
    assert!(matches!(parser.next(), Some(RawChunk::Error(_))));
}

#[test]
fn pattern_try_build_test() {
    let cases = vec![
        ("{p}", Pattern::new(vec![Chunk::Package])),
        ("{l}", Pattern::new(vec![Chunk::License])),
        ("{r}", Pattern::new(vec![Chunk::Repository])),
        ("Text", Pattern::new(vec![Chunk::Raw(String::from("Text"))])),
        (
            "{p}-{l}-{r}-Text",
            Pattern {
                chunks: vec![
                    Chunk::Package,
                    Chunk::Raw(String::from("-")),
                    Chunk::License,
                    Chunk::Raw(String::from("-")),
                    Chunk::Repository,
                    Chunk::Raw(String::from("-Text")),
                ],
            },
        ),
    ];
    for (input, expected) in cases {
        let pattern = Pattern::try_build(input);
        assert!(pattern.is_ok());
        assert_eq!(pattern.unwrap(), expected);
    }
}

#[test]
fn pattern_errors_name_the_unsupported_argument() {
    let err = Pattern::try_build("{x}").unwrap_err();
    assert_eq!(err.message, "unsupported pattern `x`");
}

fn info() -> PackageDisplayInfo {
    PackageDisplayInfo {
        name: String::from("cargo-geiger"),
        version: String::from("0.10.2"),
        license: Some(String::from("licence_string")),
        repository: None,
    }
}

#[test]
fn pattern_display_fills_in_the_package() {
    assert_eq!(Pattern::new(vec![Chunk::License]).display(&info()), "licence_string");
    assert_eq!(Pattern::new(vec![Chunk::Package]).display(&info()), "cargo-geiger 0.10.2");
    assert_eq!(Pattern::new(vec![Chunk::Raw(String::from("chunk_value"))]).display(&info()), "chunk_value");
    assert_eq!(Pattern::new(vec![Chunk::Repository]).display(&info()), "");
    assert_eq!(Pattern::try_build("{p} [{l}]").unwrap().display(&info()), "cargo-geiger 0.10.2 [licence_string]");
}

#[test]
fn print_config_new_test_invert() {
    let args = Args { invert: true, ..Default::default() };
    assert_eq!(PrintConfig::new(&args).unwrap().direction, EdgeDirection::Incoming);
    let args = Args { invert: false, ..Default::default() };
    assert_eq!(PrintConfig::new(&args).unwrap().direction, EdgeDirection::Outgoing);
}

#[test]
fn print_config_new_test_include_tests() {
    let args = Args { include_tests: true, ..Default::default() };
    assert_eq!(PrintConfig::new(&args).unwrap().include_tests, IncludeTests::Yes);
    let args = Args { include_tests: false, ..Default::default() };
    assert_eq!(PrintConfig::new(&args).unwrap().include_tests, IncludeTests::No);
}

#[test]
fn print_config_new_test_prefix() {
    let cases = [(true, false, Prefix::Depth), (false, true, Prefix::NoPrefix), (false, false, Prefix::Indent), (true, true, Prefix::Depth)];
    for (prefix_depth, no_indent, expected) in cases {
        let args = Args { prefix_depth, no_indent, ..Default::default() };
        assert_eq!(PrintConfig::new(&args).unwrap().prefix, expected);
    }
}

#[test]
fn print_config_new_test_verbosity() {
    let cases = [(0, Verbosity::Normal), (1, Verbosity::Verbose), (2, Verbosity::Verbose)];
    for (verbose, expected) in cases {
        let args = Args { verbose, ..Default::default() };
        assert_eq!(PrintConfig::new(&args).unwrap().verbosity, expected);
    }
}

#[test]
fn print_config_new_rejects_an_invalid_pattern() {
    let args = Args { format: String::from("{q}"), ..Default::default() };
    assert_eq!(PrintConfig::new(&args).unwrap_err().message, "unsupported pattern `q`");
    let args = Args { format: String::from("{p}"), all: true, ..Default::default() };
    let config = PrintConfig::new(&args).unwrap();
    assert!(config.all);
    assert!(config.allow_partial_results);
    assert_eq!(config.format, Pattern::new(vec![Chunk::Package]));
}

#[test]
fn output_format_from_str_test() {
    assert_eq!(output_format_from_name("Ascii"), Some(OutputFormat::Ascii));
    assert_eq!(output_format_from_name("Json"), Some(OutputFormat::Json));
    assert_eq!(output_format_from_name("GitHubMarkdown"), Some(OutputFormat::GitHubMarkdown));
    assert_eq!(output_format_from_name("Ratio"), Some(OutputFormat::Ratio));
    assert_eq!(output_format_from_name("Utf8"), Some(OutputFormat::Utf8));
    assert_eq!(output_format_from_name("unknown_variant"), None);
}

#[test]
fn pattern_building_ends_unless_a_bracket_stands_outside_braces() {
    assert!(Pattern::try_build_ends("{p} {l}"));
    assert!(Pattern::try_build_ends(""));
    assert!(Pattern::try_build_ends("{x})"));
    assert!(Pattern::try_build_ends("}"));
    assert!(!Pattern::try_build_ends(")"));
    assert!(!Pattern::try_build_ends("{p} (x)"));
}
