use std::collections::{HashMap, HashSet};

use cargo_geiger::args::Args;
use cargo_geiger::format::pattern::Pattern;
use cargo_geiger::format::print_config::{PrintConfig, Verbosity};
use cargo_geiger::format::{get_tree_symbols, Charset, OutputFormat, Prefix};
use cargo_geiger::geiger::IncludeTests;
use cargo_geiger::graph::{
    build_graph, build_graph_prerequisites, code_to_kind, deps_not_replaced, filter_dependencies,
    matches_ignoring_source, query_resolve, to_cargo_metadata_package_id, DependencyCandidate,
    DepsArgs, EdgeDirection, ExtraDeps, GraphConfiguration, PackageGraph, TargetArgs,
};
use cargo_geiger::report::DependencyKind;
use cargo_geiger::tree::{
    construct_dependency_type_nodes, construct_tree_vines_string,
    push_extra_deps_group_text_tree_line_for_non_normal_dependencies, sort_keys_in_place,
    walk_dependency_tree, TextTreeLine,
};

fn cand(package: u64, kind: DependencyKind) -> DependencyCandidate {
    DependencyCandidate { package, matches_package: true, kind, target: None }
}

fn config(extra_deps: ExtraDeps) -> GraphConfiguration {
    GraphConfiguration { target: None, cfgs: None, extra_deps }
}

fn graph_of(root: u64, deps: Vec<(u64, Vec<DependencyCandidate>)>, extra_deps: ExtraDeps) -> PackageGraph {
    let map: HashMap<u64, Vec<DependencyCandidate>> = deps.into_iter().collect();
    build_graph(root, &map, &config(extra_deps))
}

fn print_config(prefix: Prefix, direction: EdgeDirection, all: bool) -> PrintConfig {
    PrintConfig {
        all,
        allow_partial_results: false,
        direction,
        format: Pattern::try_build("{p}").unwrap(),
        include_tests: IncludeTests::Yes,
        prefix,
        output_format: OutputFormat::Ascii,
        verbosity: Verbosity::Verbose,
    }
}

fn package(id: u64, vines: &str) -> TextTreeLine {
    TextTreeLine::Package { id, tree_vines: vines.to_string() }
}

fn group(kind: DependencyKind, vines: &str) -> TextTreeLine {
    TextTreeLine::ExtraDepsGroup { kind, tree_vines: vines.to_string() }
}

#[test]
fn construct_tree_vines_test() {
    let levels = vec![true, false, true];
    let cases = [(Prefix::Depth, "3 "), (Prefix::Indent, "|       |-- "), (Prefix::NoPrefix, "")];
    for (prefix, expected) in cases {
        let pc = print_config(prefix, EdgeDirection::Outgoing, false);
        assert_eq!(construct_tree_vines_string(&levels, &pc), expected);
    }
}

#[test]
fn tree_vines_at_the_root_and_in_utf8() {
    let mut pc = print_config(Prefix::Indent, EdgeDirection::Outgoing, false);
    assert_eq!(construct_tree_vines_string(&vec![], &pc), "");
    pc.output_format = OutputFormat::Utf8;
    assert_eq!(construct_tree_vines_string(&vec![true, false], &pc), "│   └── ");
    pc.prefix = Prefix::Depth;
    assert_eq!(construct_tree_vines_string(&vec![], &pc), "0 ");
}

#[test]
fn push_extra_deps_group_text_tree_line_for_non_normal_dependencies_test() {
    let symbols = get_tree_symbols(Charset::Utf8);
    let cases: Vec<(DependencyKind, Vec<bool>, Vec<TextTreeLine>)> = vec![
        (DependencyKind::Build, vec![], vec![group(DependencyKind::Build, "")]),
        (DependencyKind::Build, vec![false, true], vec![group(DependencyKind::Build, &format!("    {}   ", symbols.down))]),
        (DependencyKind::Development, vec![true], vec![group(DependencyKind::Development, &format!("{}   ", symbols.down))]),
        (DependencyKind::Development, vec![false], vec![group(DependencyKind::Development, "    ")]),
        (DependencyKind::Normal, vec![], vec![]),
    ];
    for (kind, levels, expected) in cases {
        let mut lines = vec![];
        push_extra_deps_group_text_tree_line_for_non_normal_dependencies(kind, &levels, &symbols, &mut lines);
        assert_eq!(lines, expected);
    }
}

fn small_graph() -> PackageGraph {
    graph_of(
        1,
        vec![
            (1, vec![cand(2, DependencyKind::Normal), cand(3, DependencyKind::Build)]),
            (2, vec![cand(3, DependencyKind::Normal), cand(4, DependencyKind::Development)]),
        ],
        ExtraDeps::All,
    )
}

#[test]
fn walk_truncates_packages_already_shown() {
    let graph = small_graph();
    let pc = print_config(Prefix::Indent, EdgeDirection::Outgoing, false);
    let lines = walk_dependency_tree(&graph, &pc, 1);
    assert_eq!(
        lines,
        vec![
            package(1, ""),
            package(2, "`-- "),
            package(3, "    `-- "),
            group(DependencyKind::Development, "    "),
            package(4, "    `-- "),
            group(DependencyKind::Build, ""),
            package(3, "`-- "),
        ]
    );
}

#[test]
fn walk_shows_every_occurrence_with_all() {
    let graph = graph_of(
        1,
        vec![(1, vec![cand(3, DependencyKind::Normal), cand(2, DependencyKind::Normal)]), (2, vec![cand(3, DependencyKind::Normal)]), (3, vec![cand(4, DependencyKind::Normal)])],
        ExtraDeps::All,
    );
    let pc = print_config(Prefix::Depth, EdgeDirection::Outgoing, true);
    let lines = walk_dependency_tree(&graph, &pc, 1);
    assert_eq!(
        lines,
        vec![package(1, "0 "), package(2, "1 "), package(3, "2 "), package(4, "3 "), package(3, "1 "), package(4, "2 ")]
    );
    let pc = print_config(Prefix::Depth, EdgeDirection::Outgoing, false);
    let lines = walk_dependency_tree(&graph, &pc, 1);
    assert_eq!(lines, vec![package(1, "0 "), package(2, "1 "), package(3, "2 "), package(4, "3 "), package(3, "1 ")]);
}

#[test]
fn walk_backwards_lists_the_dependents() {
    let graph = small_graph();
    let pc = print_config(Prefix::NoPrefix, EdgeDirection::Incoming, false);
    let lines = walk_dependency_tree(&graph, &pc, 3);
    assert_eq!(lines, vec![package(3, ""), package(2, ""), package(1, ""), package(1, "")]);
}

#[test]
fn construct_dependency_type_nodes_hashmap_test() {
    let graph = graph_of(
        0,
        vec![(
            0,
            vec![
                cand(1, DependencyKind::Build),
                cand(2, DependencyKind::Development),
                cand(3, DependencyKind::Development),
                cand(4, DependencyKind::Normal),
                cand(5, DependencyKind::Normal),
                cand(6, DependencyKind::Normal),
            ],
        )],
        ExtraDeps::All,
    );
    let (normal, build, development) = construct_dependency_type_nodes(&graph, 0, EdgeDirection::Outgoing);
    assert_eq!((build.len(), development.len(), normal.len()), (1, 2, 3));
    let mut normal = normal;
    sort_keys_in_place(&mut normal);
    assert_eq!(normal, vec![4, 5, 6]);

    let graph = graph_of(
        10,
        vec![
            (10, (1..7).map(|p| cand(p, DependencyKind::Normal)).collect()),
            (1, vec![cand(0, DependencyKind::Build)]),
            (2, vec![cand(0, DependencyKind::Build)]),
            (3, vec![cand(0, DependencyKind::Build)]),
            (4, vec![cand(0, DependencyKind::Development)]),
            (5, vec![cand(0, DependencyKind::Development)]),
            (6, vec![cand(0, DependencyKind::Normal)]),
        ],
        ExtraDeps::All,
    );
    let (normal, build, development) = construct_dependency_type_nodes(&graph, 0, EdgeDirection::Incoming);
    assert_eq!((build.len(), development.len(), normal.len()), (3, 2, 1));
}

#[test]
fn sorting_keys_orders_them_and_keeps_duplicates() {
    let mut v = vec![5, 1, 4, 1, 3];
    sort_keys_in_place(&mut v);
    assert_eq!(v, vec![1, 1, 3, 4, 5]);
}

#[test]
fn build_graph_prerequisites_extra_deps_test() {
    let cases = [
        (DepsArgs { all_deps: true, build_deps: false, dev_deps: false }, ExtraDeps::All),
        (DepsArgs { all_deps: false, build_deps: true, dev_deps: false }, ExtraDeps::Build),
        (DepsArgs { all_deps: false, build_deps: false, dev_deps: true }, ExtraDeps::Dev),
        (DepsArgs { all_deps: false, build_deps: false, dev_deps: false }, ExtraDeps::NoMore),
    ];
    for (deps_args, expected) in cases {
        let (extra_deps, _) = build_graph_prerequisites("config_host", &deps_args, &TargetArgs::default());
        assert_eq!(extra_deps, expected);
    }
}

#[test]
fn build_graph_prerequisites_all_targets_test() {
    let cases = [
        (TargetArgs { all_targets: true, target: None }, None),
        (TargetArgs { all_targets: false, target: None }, Some("default_config_host")),
        (TargetArgs { all_targets: false, target: Some(String::from("provided_config_host")) }, Some("provided_config_host")),
    ];
    let deps_args = DepsArgs::default();
    for (target_args, expected) in cases {
        let (_, target) = build_graph_prerequisites("default_config_host", &deps_args, &target_args);
        assert_eq!(target, expected);
    }
}

#[test]
fn no_extra_deps_follows_no_edge_at_all() {
    let graph = graph_of(1, vec![(1, vec![cand(2, DependencyKind::Normal)])], ExtraDeps::NoMore);
    assert_eq!(graph.nodes.len(), 1);
    assert_eq!(graph.graph.edge_count(), 0);
}

#[test]
fn extra_deps_allow_their_kinds() {
    assert!(ExtraDeps::All.allows(DependencyKind::Development));
    assert!(!ExtraDeps::NoMore.allows(DependencyKind::Normal));
    assert!(ExtraDeps::Build.allows(DependencyKind::Normal));
    assert!(ExtraDeps::Build.allows(DependencyKind::Build));
    assert!(!ExtraDeps::Build.allows(DependencyKind::Development));
    assert!(ExtraDeps::Dev.allows(DependencyKind::Development));
    assert!(!ExtraDeps::Dev.allows(DependencyKind::Build));
}

#[test]
fn filter_dependencies_keeps_matching_allowed_kinds_on_the_target() {
    let unix: cargo_platform::Platform = "cfg(unix)".parse().unwrap();
    let candidates = vec![
        cand(1, DependencyKind::Normal),
        DependencyCandidate { package: 2, matches_package: false, kind: DependencyKind::Normal, target: None },
        cand(3, DependencyKind::Development),
        DependencyCandidate { package: 4, matches_package: true, kind: DependencyKind::Normal, target: Some(unix.clone()) },
    ];
    let no_target = config(ExtraDeps::Build);
    assert_eq!(filter_dependencies(&candidates, &no_target), vec![(1, DependencyKind::Normal), (4, DependencyKind::Normal)]);
    assert_eq!(filter_dependencies(&candidates, &config(ExtraDeps::NoMore)), vec![]);
    let unknown_cfgs = GraphConfiguration { target: Some(String::from("x86_64-unknown-linux-gnu")), cfgs: None, extra_deps: ExtraDeps::Dev };
    assert_eq!(filter_dependencies(&candidates, &unknown_cfgs), vec![(1, DependencyKind::Normal), (3, DependencyKind::Development)]);
    let on_unix = GraphConfiguration {
        target: Some(String::from("x86_64-unknown-linux-gnu")),
        cfgs: Some(vec!["unix".parse().unwrap()]),
        extra_deps: ExtraDeps::Build,
    };
    assert_eq!(filter_dependencies(&candidates, &on_unix), vec![(1, DependencyKind::Normal), (4, DependencyKind::Normal)]);
    let on_windows = GraphConfiguration {
        target: Some(String::from("x86_64-pc-windows-msvc")),
        cfgs: Some(vec!["windows".parse().unwrap()]),
        extra_deps: ExtraDeps::Build,
    };
    assert_eq!(filter_dependencies(&candidates, &on_windows), vec![(1, DependencyKind::Normal)]);
}

#[test]
fn build_graph_follows_only_allowed_edges() {
    let graph = graph_of(
        1,
        vec![
            (1, vec![cand(2, DependencyKind::Normal), cand(3, DependencyKind::Development)]),
            (3, vec![cand(4, DependencyKind::Normal)]),
        ],
        ExtraDeps::Build,
    );
    let mut keys: Vec<u64> = graph.nodes.keys().cloned().collect();
    keys.sort();
    assert_eq!(keys, vec![1, 2]);
    assert_eq!(graph.graph[petgraph::graph::NodeIndex::new(0)], 1);
    assert_eq!(graph.graph.edge_count(), 1);
    let all = graph_of(
        1,
        vec![
            (1, vec![cand(2, DependencyKind::Normal), cand(3, DependencyKind::Development)]),
            (3, vec![cand(4, DependencyKind::Normal), cand(1, DependencyKind::Build)]),
        ],
        ExtraDeps::All,
    );
    let keys: HashSet<u64> = all.nodes.keys().cloned().collect();
    assert_eq!(keys, [1, 2, 3, 4].into_iter().collect());
    assert_eq!(all.graph.edge_count(), 4);
    let weights: Vec<DependencyKind> = all.graph.edge_weights().map(|w| code_to_kind(*w)).collect();
    assert_eq!(weights.iter().filter(|k| **k == DependencyKind::Build).count(), 1);
}

#[test]
fn args_default_is_plain() {
    let args = Args::default();
    assert!(!args.all && !args.invert && args.format.is_empty());
}

#[test]
fn dependency_matches_by_name_and_requirement() {
    assert!(matches_ignoring_source("serde", "^1.0", "serde", "1.0.200"));
    assert!(matches_ignoring_source("serde", "*", "serde", "0.9.0"));
    assert!(!matches_ignoring_source("serde", "^1.0", "serde", "2.0.0"));
    assert!(!matches_ignoring_source("serde", "^1.0", "serde_json", "1.0.0"));
    assert!(!matches_ignoring_source("serde", "not a requirement", "serde", "1.0.0"));
}

#[test]
fn deps_not_replaced_keeps_first_of_each_package() {
    let declared = vec![
        (Some(3u64), DependencyKind::Normal),
        (None, DependencyKind::Normal),
        (Some(5u64), DependencyKind::Development),
        (Some(3u64), DependencyKind::Build),
        (Some(4u64), DependencyKind::Build),
    ];
    assert_eq!(deps_not_replaced(&declared, true), vec![3, 5, 4]);
    assert_eq!(deps_not_replaced(&declared, false), vec![3, 4]);
}

#[test]
fn dependency_resolves_to_the_last_matching_package() {
    let packages = vec![
        (1u64, "serde".to_string(), "1.0.1".to_string()),
        (2u64, "serde".to_string(), "1.0.5".to_string()),
        (3u64, "serde".to_string(), "2.0.0".to_string()),
        (4u64, "rand".to_string(), "0.8.0".to_string()),
    ];
    assert_eq!(to_cargo_metadata_package_id("serde", "^1", &packages), Some(2));
    assert_eq!(to_cargo_metadata_package_id("serde", "^3", &packages), None);
    assert_eq!(to_cargo_metadata_package_id("rand", "*", &packages), Some(4));
}

#[test]
fn query_resolve_test() {
    let packages = vec![
        (1u64, "cargo_metadata".to_string(), "0.14.0".to_string()),
        (2u64, "cargo_metadata".to_string(), "0.14.1".to_string()),
        (3u64, "serde".to_string(), "1.0.0".to_string()),
    ];
    assert_eq!(query_resolve("cargo_metadata:0.14.1", &packages), Some(2));
    assert_eq!(query_resolve("cargo_metadata@0.14.0", &packages), Some(1));
    assert_eq!(query_resolve("cargo_metadata", &packages), Some(2));
    assert_eq!(query_resolve("cargo_metadata:9.9.9", &packages), None);
    assert_eq!(query_resolve("rand", &packages), None);
}
