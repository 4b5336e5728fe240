use std::collections::{HashMap, HashSet};

use cargo_geiger::format::pattern::{PackageDisplayInfo, Pattern};
use cargo_geiger::format::print_config::{PrintConfig, Verbosity};
use cargo_geiger::format::table::{create_table_from_text_tree_lines, TableParameters};
use cargo_geiger::format::{table_row, EmojiSymbols, OutputFormat, Prefix, StyledText, TextStyle};
use cargo_geiger::geiger::{IncludeTests, RsFileMetrics};
use cargo_geiger::graph::{build_graph, DependencyCandidate, EdgeDirection, ExtraDeps, GraphConfiguration, PackageGraph};
use cargo_geiger::report::{Count, CounterBlock, DependencyKind, PackageInfo};
use cargo_geiger::scan::default::{
    construct_key_lines, construct_rs_files_used_lines, construct_scan_mode_default_output_key_lines,
    scan_to_table, warnings_to_result,
};
use cargo_geiger::scan::forbid::{construct_key_lines as construct_forbid_key_lines, scan_forbid_to_table};
use cargo_geiger::scan::report::{add_dependency_to_package_info, package_metrics, scan_forbid_to_report, scan_to_report};
use cargo_geiger::scan::{
    find_rs_files_in_package,
    into_is_entry_point_and_path_buf, into_rs_code_file, into_target_kind,
    list_files_used_but_not_scanned, unsafe_stats, update_package_id_to_metrics_with_rs_file_metrics,
    FoundWarningsError, GeigerContext, PackageMetrics, RsFile, RsFileMetricsWrapper, TargetKind,
};
use cargo_geiger::tree::TextTreeLine;

fn counter_block() -> CounterBlock {
    CounterBlock {
        functions: Count { safe: 1, unsafe_: 2 },
        exprs: Count { safe: 3, unsafe_: 4 },
        item_impls: Count { safe: 5, unsafe_: 6 },
        item_traits: Count { safe: 7, unsafe_: 8 },
        methods: Count { safe: 9, unsafe_: 10 },
    }
}

fn zero_block() -> CounterBlock {
    CounterBlock {
        functions: Count { safe: 0, unsafe_: 0 },
        exprs: Count { safe: 0, unsafe_: 0 },
        item_impls: Count { safe: 0, unsafe_: 0 },
        item_traits: Count { safe: 0, unsafe_: 0 },
        methods: Count { safe: 0, unsafe_: 0 },
    }
}

fn wrapper(counters: CounterBlock, forbids_unsafe: bool, is_crate_entry_point: bool) -> RsFileMetricsWrapper {
    RsFileMetricsWrapper { metrics: RsFileMetrics { counters, forbids_unsafe }, is_crate_entry_point }
}

fn metrics(files: Vec<(u64, RsFileMetricsWrapper)>) -> PackageMetrics {
    PackageMetrics { rs_path_to_metrics: files.into_iter().collect() }
}

fn text(line: &[StyledText]) -> String {
    line.iter().map(|t| t.text.as_str()).collect()
}

#[test]
fn table_row_of_unsafe_stats() {
    let package_metrics = metrics(vec![
        (1, wrapper(counter_block(), true, true)),
        (2, wrapper(counter_block(), true, false)),
        (3, wrapper(counter_block(), false, false)),
    ]);
    let rs_files_used: HashSet<u64> = [1, 3].into_iter().collect();
    let unsafety = unsafe_stats(&package_metrics, &rs_files_used);
    assert_eq!(table_row(&unsafety.used, &unsafety.unused), "4/6        8/12         12/18  16/24   20/30  ");
    assert!(unsafety.forbids_unsafe);
}

#[test]
fn unsafe_stats_split_used_and_unused_files() {
    let package_metrics = metrics(vec![(1, wrapper(counter_block(), false, true)), (2, wrapper(counter_block(), true, false))]);
    let used: HashSet<u64> = [2].into_iter().collect();
    let unsafety = unsafe_stats(&package_metrics, &used);
    assert_eq!(unsafety.used, counter_block());
    assert_eq!(unsafety.unused, counter_block());
    assert!(!unsafety.forbids_unsafe);
    let empty = unsafe_stats(&metrics(vec![]), &used);
    assert_eq!(empty.used, zero_block());
    assert!(empty.forbids_unsafe);
}

#[test]
fn list_files_used_but_not_scanned_test() {
    let used: HashSet<u64> = [1, 2, 3].into_iter().collect();
    let one = GeigerContext { package_id_to_metrics: [(7, metrics(vec![(3, wrapper(zero_block(), false, false))]))].into_iter().collect() };
    let mut unscanned = list_files_used_but_not_scanned(&one, &used);
    unscanned.sort();
    assert_eq!(unscanned, vec![1, 2]);
    let all = GeigerContext {
        package_id_to_metrics: [(7, metrics(vec![(1, wrapper(zero_block(), false, false)), (2, wrapper(zero_block(), false, false)), (3, wrapper(zero_block(), false, false))]))]
            .into_iter()
            .collect(),
    };
    assert_eq!(list_files_used_but_not_scanned(&all, &used), Vec::<u64>::new());
}

#[test]
fn construct_rs_files_used_lines_test() {
    let used: HashSet<u64> = [2, 1, 3].into_iter().collect();
    let names: HashMap<u64, String> =
        [(1, "b/path.rs".to_string()), (2, "a/path.rs".to_string()), (3, "c/path.rs".to_string())].into_iter().collect();
    let lines: Vec<String> = construct_rs_files_used_lines(&used, &names).iter().map(|l| text(l)).collect();
    assert_eq!(
        lines,
        vec![
            String::from("Used by build (sorted): a/path.rs"),
            String::from("Used by build (sorted): b/path.rs"),
            String::from("Used by build (sorted): c/path.rs"),
        ]
    );
}

#[test]
fn construct_scan_mode_default_output_key_lines_test() {
    let emoji_symbols = EmojiSymbols::new(OutputFormat::Utf8, true);
    let output_key_lines = construct_scan_mode_default_output_key_lines(&emoji_symbols);
    assert_eq!(output_key_lines.len(), 12);
    assert_eq!(text(&output_key_lines[8]), "    ☢\u{fe0f}\r\x1B[7C = `unsafe` usage found");
    assert_eq!(output_key_lines[10][0].style, TextStyle::Bold);
}

#[test]
fn construct_key_lines_for_each_output_format() {
    let markdown = EmojiSymbols::new(OutputFormat::GitHubMarkdown, false);
    let lines = construct_key_lines(&markdown, OutputFormat::GitHubMarkdown);
    assert_eq!(lines.len(), 12);
    assert_eq!(text(&lines[1]), "Metric output format: x/y");
    assert_eq!(text(&lines[6]), "    🔒  = No `unsafe` usage found, declares #![forbid(unsafe_code)]");
    assert_eq!(text(&lines[8]), "    ☢\u{fe0f}  = `unsafe` usage found");
    assert_eq!(text(&lines[10]), "Functions  Expressions  Impls  Traits  Methods  Dependency");
    assert_eq!(lines[10][0].style, TextStyle::Plain);
    let ratio = EmojiSymbols::new(OutputFormat::Ratio, false);
    let lines = construct_key_lines(&ratio, OutputFormat::Ratio);
    assert_eq!(lines.len(), 13);
    assert_eq!(text(&lines[1]), "Metric output format: x/y=z%");
    assert_eq!(text(&lines[7]), "    :) = No `unsafe` usage found, declares #![forbid(unsafe_code)]");
    assert_eq!(text(&lines[9]), "    !  = `unsafe` usage found");
    assert_eq!(lines[11][0].style, TextStyle::Bold);
}

#[test]
fn construct_scan_mode_forbid_only_output_key_lines_test() {
    let emoji_symbols = EmojiSymbols::new(OutputFormat::Utf8, true);
    let output_key_lines = construct_forbid_key_lines(&emoji_symbols);
    assert_eq!(output_key_lines.len(), 5);
    assert_eq!(text(&output_key_lines[3]), "    ❓  = This crate may use unsafe code.");
}

#[test]
fn into_is_entry_point_and_path_buf_test() {
    assert_eq!(into_is_entry_point_and_path_buf(RsFile::BinRoot(5)), (true, 5));
    assert_eq!(into_is_entry_point_and_path_buf(RsFile::CustomBuildRoot(5)), (true, 5));
    assert_eq!(into_is_entry_point_and_path_buf(RsFile::LibRoot(5)), (true, 5));
    assert_eq!(into_is_entry_point_and_path_buf(RsFile::Other(5)), (false, 5));
}

#[test]
fn into_rs_code_file_test() {
    assert_eq!(into_rs_code_file(&TargetKind::Lib, 9), RsFile::LibRoot(9));
    assert_eq!(into_rs_code_file(&TargetKind::Bin, 9), RsFile::BinRoot(9));
    assert_eq!(into_rs_code_file(&TargetKind::CustomBuild, 9), RsFile::CustomBuildRoot(9));
    assert_eq!(into_rs_code_file(&TargetKind::Test, 9), RsFile::Other(9));
    assert_eq!(into_rs_code_file(&TargetKind::Bench, 9), RsFile::Other(9));
    assert_eq!(into_rs_code_file(&TargetKind::ExampleBin, 9), RsFile::Other(9));
    assert_eq!(into_rs_code_file(&TargetKind::ExampleLib, 9), RsFile::Other(9));
}

#[test]
fn into_target_kind_test() {
    let k = |v: &[&str]| into_target_kind(&v.iter().map(|s| s.to_string()).collect());
    assert_eq!(k(&["bench"]), TargetKind::Bench);
    assert_eq!(k(&["bin"]), TargetKind::Bin);
    assert_eq!(k(&["custom-build"]), TargetKind::CustomBuild);
    assert_eq!(k(&["example"]), TargetKind::ExampleBin);
    assert_eq!(k(&["test"]), TargetKind::Test);
    assert_eq!(k(&["dylib", "proc-macro", "staticlib", "lib"]), TargetKind::Lib);
}

#[test]
fn update_package_id_to_metrics_with_rs_file_metrics_test() {
    for is_entry_point in [true, false] {
        let mut map: HashMap<u64, PackageMetrics> = HashMap::new();
        let m = RsFileMetrics { counters: counter_block(), forbids_unsafe: false };
        update_package_id_to_metrics_with_rs_file_metrics(is_entry_point, 4, &mut map, 40, m);
        let wrapper = map.get(&4).unwrap().rs_path_to_metrics.get(&40).unwrap();
        assert_eq!(wrapper.metrics, m);
        assert_eq!(wrapper.is_crate_entry_point, is_entry_point);
    }
}

fn cand(package: u64, kind: DependencyKind) -> DependencyCandidate {
    DependencyCandidate { package, matches_package: true, kind, target: None }
}

fn graph() -> PackageGraph {
    let map: HashMap<u64, Vec<DependencyCandidate>> =
        [(1, vec![cand(2, DependencyKind::Normal), cand(3, DependencyKind::Build)])].into_iter().collect();
    build_graph(1, &map, &GraphConfiguration { target: None, cfgs: None, extra_deps: ExtraDeps::All })
}

fn context() -> GeigerContext {
    GeigerContext {
        package_id_to_metrics: [
            (1, metrics(vec![(10, wrapper(counter_block(), false, true))])),
            (2, metrics(vec![(20, wrapper(zero_block(), true, true))])),
        ]
        .into_iter()
        .collect(),
    }
}

fn infos() -> HashMap<u64, PackageDisplayInfo> {
    (1..4)
        .map(|k| (k, PackageDisplayInfo { name: format!("pkg{}", k), version: String::from("1.0.0"), license: None, repository: None }))
        .collect()
}

fn print_config(verbosity: Verbosity) -> PrintConfig {
    PrintConfig {
        all: false,
        allow_partial_results: true,
        direction: EdgeDirection::Outgoing,
        format: Pattern::try_build("{p}").unwrap(),
        include_tests: IncludeTests::No,
        prefix: Prefix::Indent,
        output_format: OutputFormat::Ascii,
        verbosity,
    }
}

#[test]
fn table_of_a_tree_counts_each_package_once() {
    let ctx = context();
    let pc = print_config(Verbosity::Normal);
    let used: HashSet<u64> = [10, 20].into_iter().collect();
    let infos = infos();
    let params = TableParameters { geiger_context: &ctx, print_config: &pc, rs_files_used: &used, package_infos: &infos, terminal_wants_emoji: false };
    let lines = vec![
        TextTreeLine::Package { id: 1, tree_vines: String::new() },
        TextTreeLine::Package { id: 2, tree_vines: String::from("|-- ") },
        TextTreeLine::Package { id: 1, tree_vines: String::from("|-- ") },
        TextTreeLine::ExtraDepsGroup { kind: DependencyKind::Build, tree_vines: String::new() },
        TextTreeLine::Package { id: 3, tree_vines: String::from("`-- ") },
        TextTreeLine::Package { id: 3, tree_vines: String::from("`-- ") },
    ];
    let result = create_table_from_text_tree_lines(&params, lines);
    assert_eq!(result.warning_count, 1);
    let texts: Vec<String> = result.scan_output_lines.iter().map(|l| text(l)).collect();
    assert_eq!(texts.len(), 7);
    assert_eq!(texts[0], "2/2        4/4          6/6    8/8     10/10    !  pkg1 1.0.0");
    assert_eq!(texts[1], "0/0        0/0          0/0    0/0     0/0      :) |-- pkg2 1.0.0");
    assert_eq!(texts[2], "2/2        4/4          6/6    8/8     10/10    !  |-- pkg1 1.0.0");
    assert_eq!(texts[3], format!("{}[build-dependencies]", " ".repeat(51)));
    assert_eq!(texts[4], "");
    assert_eq!(texts[5], "2/2        4/4          6/6    8/8     10/10  ");
    assert_eq!(result.scan_output_lines[5][0].style, TextStyle::RedBold);
    assert_eq!(result.scan_output_lines[0][0].style, TextStyle::RedBold);
    assert_eq!(result.scan_output_lines[1][4].style, TextStyle::Green);
    assert_eq!(texts[6], "");
}

#[test]
fn scan_to_table_adds_the_files_never_scanned_as_warnings() {
    let ctx = context();
    let used: HashSet<u64> = [10, 20, 99].into_iter().collect();
    let names: HashMap<u64, String> = [(10, "a.rs".to_string()), (20, "b.rs".to_string()), (99, "z.rs".to_string())].into_iter().collect();
    let result = scan_to_table(&graph(), 1, &print_config(Verbosity::Verbose), &ctx, &used, &infos(), &names, false);
    assert_eq!(result.warning_count, 2);
    let texts: Vec<String> = result.scan_output_lines.iter().map(|l| text(l)).collect();
    assert_eq!(texts[0], "Used by build (sorted): a.rs");
    assert_eq!(texts[2], "Used by build (sorted): z.rs");
    assert_eq!(texts[3], "");
    assert_eq!(texts[4], "Metric output format: x/y");
    assert_eq!(texts.len(), 3 + 12 + 3 + 3);
    assert_eq!(texts[15], "2/2        4/4          6/6    8/8     10/10    !  pkg1 1.0.0");
    assert_eq!(texts[16], "0/0        0/0          0/0    0/0     0/0      :) `-- pkg2 1.0.0");
    assert_eq!(texts[17], format!("{}[build-dependencies]", " ".repeat(51)));
    assert_eq!(warnings_to_result(result.warning_count), Err(FoundWarningsError { warning_count: 2 }));
    assert_eq!(warnings_to_result(0), Ok(()));
    let quiet = scan_to_table(&graph(), 1, &print_config(Verbosity::Normal), &ctx, &used, &infos(), &names, false);
    assert_eq!(quiet.scan_output_lines.len(), 12 + 3 + 3);
}

#[test]
fn forbid_table_marks_packages_whose_files_all_forbid_unsafe() {
    let ctx = context();
    let result = scan_forbid_to_table(&graph(), &print_config(Verbosity::Normal), 1, &ctx, &infos(), false);
    assert_eq!(result.warning_count, 0);
    let texts: Vec<String> = result.scan_output_lines.iter().map(|l| text(l)).collect();
    assert_eq!(
        texts,
        vec![
            "".to_string(),
            "Symbols:".to_string(),
            "    :) = All entry point .rs files declare #![forbid(unsafe_code)].".to_string(),
            "    ?  = This crate may use unsafe code.".to_string(),
            "".to_string(),
            "? pkg1 1.0.0".to_string(),
            ":) `-- pkg2 1.0.0".to_string(),
            "  [build-dependencies]".to_string(),
            "? `-- pkg3 1.0.0".to_string(),
        ]
    );
    assert_eq!(result.scan_output_lines[6][2].style, TextStyle::Green);
    assert_eq!(result.scan_output_lines[8][2].style, TextStyle::Red);
}

#[test]
fn reports_list_each_package_with_its_dependencies() {
    let ctx = context();
    let g = graph();
    let entries = package_metrics(&ctx, &g, 1);
    assert_eq!(entries.len(), 3);
    assert_eq!(entries[0].0, PackageInfo { id: 1, dependencies: vec![2], dev_dependencies: vec![], build_dependencies: vec![3] });
    let used: HashSet<u64> = [10].into_iter().collect();
    let report = scan_to_report(&g, 1, &ctx, &used);
    assert_eq!(report.packages.len(), 2);
    assert_eq!(report.packages_without_metrics, vec![3]);
    let first = report.packages.iter().find(|e| e.package.id == 1).unwrap();
    assert_eq!(first.unsafety.used, counter_block());
    assert!(!first.unsafety.forbids_unsafe);
    let second = report.packages.iter().find(|e| e.package.id == 2).unwrap();
    assert!(second.unsafety.forbids_unsafe);
    assert_eq!(second.unsafety.unused, zero_block());
    let quick = scan_forbid_to_report(&g, 1, &ctx);
    assert_eq!(quick.packages_without_metrics, vec![3]);
    assert_eq!(quick.packages.iter().filter(|e| e.forbids_unsafe).count(), 1);
}

#[test]
fn rs_files_in_package_puts_other_files_first() {
    let targets = vec![
        (10u64, TargetKind::Lib),
        (11u64, TargetKind::Bin),
        (10u64, TargetKind::Test),
        (12u64, TargetKind::CustomBuild),
    ];
    let dir_files = vec![10u64, 20, 11, 21, 12];
    assert_eq!(
        find_rs_files_in_package(&targets, &dir_files),
        vec![
            RsFile::Other(20),
            RsFile::Other(21),
            RsFile::LibRoot(10),
            RsFile::Other(10),
            RsFile::BinRoot(11),
            RsFile::CustomBuildRoot(12),
        ]
    );
}

#[test]
fn rs_files_in_package_without_targets() {
    assert_eq!(
        find_rs_files_in_package(&vec![], &vec![3u64, 4]),
        vec![RsFile::Other(3), RsFile::Other(4)]
    );
}

#[test]
fn used_files_are_listed_component_by_component() {
    let used: HashSet<u64> = [1, 2, 3, 4].into_iter().collect();
    let names: HashMap<u64, String> = [
        (1, "/w/a-b/x.rs".to_string()),
        (2, "/w/a/y.rs".to_string()),
        (3, "/w/a.rs".to_string()),
        (4, "/w/a".to_string()),
    ]
    .into_iter()
    .collect();
    let lines: Vec<String> = construct_rs_files_used_lines(&used, &names).iter().map(|l| text(l)).collect();
    let mut paths: Vec<std::path::PathBuf> = names.values().map(std::path::PathBuf::from).collect();
    paths.sort();
    let expected: Vec<String> =
        paths.iter().map(|p| format!("Used by build (sorted): {}", p.display())).collect();
    assert_eq!(lines, expected);
    assert_eq!(lines[0], "Used by build (sorted): /w/a");
    assert_eq!(lines[1], "Used by build (sorted): /w/a/y.rs");
}

#[test]
fn report_entries_follow_the_walk_order() {
    let ctx = context();
    let g = graph();
    let ids: Vec<u64> = package_metrics(&ctx, &g, 1).iter().map(|e| e.0.id).collect();
    assert_eq!(ids, vec![1, 2, 3]);
}

#[test]
fn report_walk_meets_the_root_again_on_a_cycle() {
    let map: HashMap<u64, Vec<DependencyCandidate>> =
        [(1, vec![cand(2, DependencyKind::Normal)]), (2, vec![cand(1, DependencyKind::Development)])]
            .into_iter()
            .collect();
    let g = build_graph(1, &map, &GraphConfiguration { target: None, cfgs: None, extra_deps: ExtraDeps::All });
    let ctx = context();
    let ids: Vec<u64> = package_metrics(&ctx, &g, 1).iter().map(|e| e.0.id).collect();
    assert_eq!(ids, vec![1, 2, 1]);
}

#[test]
fn used_files_follow_path_component_order() {
    let names_list = ["x//z", "x/a", "x/./b", "x/../q", "./x/c", "/r/s", "x/a-b", "x/a/"];
    let used: HashSet<u64> = (0..names_list.len() as u64).collect();
    let names: HashMap<u64, String> =
        names_list.iter().enumerate().map(|(i, n)| (i as u64, n.to_string())).collect();
    let lines: Vec<String> = construct_rs_files_used_lines(&used, &names).iter().map(|l| text(l)).collect();
    // Sort the texts by `Path`'s own order; equal paths keep the order of their keys.
    let mut keyed: Vec<(std::path::PathBuf, usize)> =
        names_list.iter().enumerate().map(|(i, n)| (std::path::PathBuf::from(n), i)).collect();
    keyed.sort();
    let expected: Vec<String> =
        keyed.iter().map(|(_, i)| format!("Used by build (sorted): {}", names_list[*i])).collect();
    assert_eq!(lines, expected);
    let pos = |n: &str| lines.iter().position(|l| l.ends_with(&format!(": {}", n))).unwrap();
    assert!(pos("x/a") < pos("x//z"));
    assert!(pos("x/./b") < pos("x//z"));
}

#[test]
fn add_dependency_to_package_info_test() {
    let g = graph();
    for (kind, expected) in [(Some(DependencyKind::Normal), 1usize), (None, 0usize)] {
        let mut indices: Vec<usize> = vec![];
        let mut visited: HashSet<usize> = HashSet::new();
        let mut info = PackageInfo::new(1);
        add_dependency_to_package_info(&g, 1, kind, &mut indices, &mut info, &mut visited);
        assert_eq!(info.dependencies.len(), expected);
        assert_eq!(indices, vec![1]);
        assert!(visited.contains(&1));
        add_dependency_to_package_info(&g, 1, kind, &mut indices, &mut info, &mut visited);
        assert_eq!(indices, vec![1]);
    }
}
