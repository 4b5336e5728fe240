//! The dependency graph of a package: which dependency kinds are followed,
//! for which target, and the graph itself.

use vstd::prelude::*;
use crate::report::DependencyKind;
use std::collections::HashMap;
use petgraph::visit::EdgeRef;
use crate::sums::{set_sum, lemma_set_sum_insert, lemma_set_sum_subset};

verus! {

broadcast use vstd::std_specs::hash::group_hash_axioms;

/// Which dependencies besides the normal ones are followed.
#[derive(Clone, Copy, Debug, PartialEq, Eq, Structural)]
pub enum ExtraDeps {
    All,
    Build,
    Dev,
    NoMore,
}

impl ExtraDeps {
    /// Whether dependencies of the kind are followed.
    pub open spec fn spec_allows(&self, dependency_kind: DependencyKind) -> bool {
        match (*self, dependency_kind) {
            (ExtraDeps::All, _) => true,
            (ExtraDeps::NoMore, _) => false,
            (_, DependencyKind::Normal) => true,
            (ExtraDeps::Build, DependencyKind::Build) => true,
            (ExtraDeps::Dev, DependencyKind::Development) => true,
            _ => false,
        }
    }

    /// Whether dependencies of the kind are followed: all kinds for `All`,
    /// none for `NoMore`, otherwise normal dependencies and the chosen
    /// extra kind.
    pub fn allows(&self, dependency_kind: DependencyKind) -> (r: bool)
        ensures
            r == self.spec_allows(dependency_kind),
    {
        match (self, dependency_kind) {
            (ExtraDeps::All, _) => true,
            (ExtraDeps::NoMore, _) => false,
            (_, DependencyKind::Normal) => true,
            (ExtraDeps::Build, DependencyKind::Build) => true,
            (ExtraDeps::Dev, DependencyKind::Development) => true,
            _ => false,
        }
    }
}

/// The arguments that choose the extra dependencies.
#[derive(Clone, Copy, Debug, Default, PartialEq, Eq)]
pub struct DepsArgs {
    pub all_deps: bool,
    pub build_deps: bool,
    pub dev_deps: bool,
}

/// The arguments that choose the target platform.
#[derive(Clone, Debug, Default, PartialEq, Eq)]
pub struct TargetArgs {
    pub all_targets: bool,
    pub target: Option<String>,
}

/// The extra dependencies that the arguments choose: `all_deps` wins over
/// `build_deps`, which wins over `dev_deps`.
pub open spec fn spec_extra_deps(deps_args: DepsArgs) -> ExtraDeps {
    if deps_args.all_deps {
        ExtraDeps::All
    } else if deps_args.build_deps {
        ExtraDeps::Build
    } else if deps_args.dev_deps {
        ExtraDeps::Dev
    } else {
        ExtraDeps::NoMore
    }
}

/// The extra dependencies to follow, and the target platform: none for all
/// targets, else the given target, else the host.
pub fn build_graph_prerequisites<'a>(
    config_host: &'a str,
    deps_args: &'a DepsArgs,
    target_args: &'a TargetArgs,
) -> (r: (ExtraDeps, Option<&'a str>))
    ensures
        r.0 == spec_extra_deps(*deps_args),
        target_args.all_targets ==> r.1 is None,
        !target_args.all_targets ==> (r.1 matches Some(t) && t@ == match target_args.target {
            Some(s) => s@,
            None => config_host@,
        }),
{
    let extra_deps = if deps_args.all_deps {
        ExtraDeps::All
    } else if deps_args.build_deps {
        ExtraDeps::Build
    } else if deps_args.dev_deps {
        ExtraDeps::Dev
    } else {
        ExtraDeps::NoMore
    };
    let target = if target_args.all_targets {
        None
    } else {
        match &target_args.target {
            Some(t) => Some(t.as_str()),
            None => Some(config_host),
        }
    };
    (extra_deps, target)
}


// ---------------------------------------------------------------------------
// The graph of the `petgraph` crate

/// A directed graph of the `petgraph` crate.
#[verifier::external_type_specification]
#[verifier::external_body]
#[verifier::reject_recursive_types(N)]
#[verifier::reject_recursive_types(E)]
#[verifier::reject_recursive_types(Ty)]
#[verifier::reject_recursive_types(Ix)]
pub struct ExPetGraph<N, E, Ty, Ix>(petgraph::Graph<N, E, Ty, Ix>);

/// The marker type of directed graphs of the `petgraph` crate.
#[verifier::external_type_specification]
#[verifier::external_body]
pub struct ExPetDirected(petgraph::Directed);

/// The node weights of a graph, by node index.
pub uninterp spec fn graph_nodes(g: petgraph::Graph<u64, u8>) -> Seq<u64>;

/// The edges of a graph, as source index, target index and weight, in the
/// order in which they were added.
pub uninterp spec fn graph_edges(g: petgraph::Graph<u64, u8>) -> Seq<(usize, usize, u8)>;

/// The direction in which edges are followed.
#[derive(Clone, Copy, Debug, PartialEq, Eq, Structural)]
pub enum EdgeDirection {
    /// From a package to what depends on it.
    Incoming,
    /// From a package to its dependencies.
    Outgoing,
}

/// The edges at node `n` in a direction, most recently added first, each
/// as the node at its other end and its weight.
pub open spec fn incident(edges: Seq<(usize, usize, u8)>, n: usize, dir: EdgeDirection) -> Seq<
    (usize, u8),
>
    decreases edges.len(),
{
    if edges.len() == 0 {
        Seq::empty()
    } else {
        let (a, b, w) = edges.last();
        let rest = incident(edges.drop_last(), n, dir);
        match dir {
            EdgeDirection::Outgoing => if a == n {
                seq![(b, w)] + rest
            } else {
                rest
            },
            EdgeDirection::Incoming => if b == n {
                seq![(a, w)] + rest
            } else {
                rest
            },
        }
    }
}

/// Calls `petgraph::Graph::new`: a graph without nodes and edges.
#[verifier::external_body]
fn graph_new() -> (g: petgraph::Graph<u64, u8>)
    ensures
        graph_nodes(g) == Seq::<u64>::empty(),
        graph_edges(g) == Seq::<(usize, usize, u8)>::empty(),
{
    petgraph::Graph::new()
}

/// Calls `petgraph::Graph::add_node`: the node is added after the others,
/// and its index is returned. The crate panics when the index would reach
/// the largest `u32`, which `requires` leaves out.
#[verifier::external_body]
fn graph_add_node(g: &mut petgraph::Graph<u64, u8>, weight: u64) -> (i: usize)
    requires
        graph_nodes(*old(g)).len() + 1 < u32::MAX,
    ensures
        i == graph_nodes(*old(g)).len(),
        graph_nodes(*final(g)) == graph_nodes(*old(g)).push(weight),
        graph_edges(*final(g)) == graph_edges(*old(g)),
{
    g.add_node(weight).index()
}

/// Calls `petgraph::Graph::add_edge`: the edge is added after the others.
/// The crate panics for node indices out of bounds and when the edge index
/// would reach the largest `u32`, which `requires` leaves out.
#[verifier::external_body]
fn graph_add_edge(g: &mut petgraph::Graph<u64, u8>, a: usize, b: usize, weight: u8)
    requires
        a < graph_nodes(*old(g)).len(),
        b < graph_nodes(*old(g)).len(),
        graph_edges(*old(g)).len() + 1 < u32::MAX,
    ensures
        graph_nodes(*final(g)) == graph_nodes(*old(g)),
        graph_edges(*final(g)) == graph_edges(*old(g)).push((a, b, weight)),
{
    g.add_edge(petgraph::graph::NodeIndex::new(a), petgraph::graph::NodeIndex::new(b), weight);
}

/// Calls `petgraph::Graph::edges_directed` and lists, for each edge at the
/// node in the direction, the node at its other end and its weight. For a
/// directed graph the crate yields the edges whose source (outgoing) or
/// target (incoming) is the node, most recently added first.
#[verifier::external_body]
pub(crate) fn graph_edges_directed(g: &petgraph::Graph<u64, u8>, n: usize, dir: EdgeDirection) -> (r: Vec<
    (usize, u8),
>)
    requires
        n < graph_nodes(*g).len(),
    ensures
        r@ == incident(graph_edges(*g), n, dir),
{
    let d = match dir {
        EdgeDirection::Incoming => petgraph::Direction::Incoming,
        EdgeDirection::Outgoing => petgraph::Direction::Outgoing,
    };
    g.edges_directed(petgraph::graph::NodeIndex::new(n), d).map(
        |e| match dir {
            EdgeDirection::Incoming => (e.source().index(), *e.weight()),
            EdgeDirection::Outgoing => (e.target().index(), *e.weight()),
        },
    ).collect()
}

/// Calls the indexing of `petgraph::Graph` by node: the weight of the node.
#[verifier::external_body]
pub(crate) fn graph_node_weight(g: &petgraph::Graph<u64, u8>, i: usize) -> (w: u64)
    requires
        i < graph_nodes(*g).len(),
    ensures
        w == graph_nodes(*g)[i as int],
{
    g[petgraph::graph::NodeIndex::new(i)]
}

// ---------------------------------------------------------------------------
// The dependency graph

/// The code of a dependency kind as an edge weight.
pub open spec fn kind_code(k: DependencyKind) -> u8 {
    match k {
        DependencyKind::Normal => 0,
        DependencyKind::Development => 1,
        DependencyKind::Build => 2,
    }
}

/// The dependency kind of an edge weight.
pub open spec fn code_kind(c: u8) -> DependencyKind {
    if c == 0 {
        DependencyKind::Normal
    } else if c == 1 {
        DependencyKind::Development
    } else {
        DependencyKind::Build
    }
}

fn kind_to_code(k: DependencyKind) -> (c: u8)
    ensures
        c == kind_code(k),
        code_kind(c) == k,
{
    match k {
        DependencyKind::Normal => 0,
        DependencyKind::Development => 1,
        DependencyKind::Build => 2,
    }
}

/// The dependency kind of an edge weight.
pub fn code_to_kind(c: u8) -> (k: DependencyKind)
    ensures
        k == code_kind(c),
{
    if c == 0 {
        DependencyKind::Normal
    } else if c == 1 {
        DependencyKind::Development
    } else {
        DependencyKind::Build
    }
}

/// Representation of the package dependency graph: packages, by their
/// keys, are the node weights, and each edge goes from a package to one of
/// its dependencies, weighted by the code of the dependency kind.
pub struct PackageGraph {
    pub graph: petgraph::Graph<u64, u8>,
    pub nodes: HashMap<u64, usize>,
}

impl PackageGraph {
    /// The packages of the graph, by node index.
    pub open spec fn packages(&self) -> Seq<u64> {
        graph_nodes(self.graph)
    }

    /// The edges of the graph, in the order in which they were added.
    pub open spec fn edges(&self) -> Seq<(usize, usize, u8)> {
        graph_edges(self.graph)
    }

    /// Each package is at most once a node, `nodes` finds the node of each
    /// package, and every edge joins nodes and carries a kind code.
    pub open spec fn wf(&self) -> bool {
        &&& forall|k: u64| #[trigger]
            self.nodes@.contains_key(k) ==> self.nodes@[k] < self.packages().len()
                && self.packages()[self.nodes@[k] as int] == k
        &&& forall|i: int|
            0 <= i < self.packages().len() ==> #[trigger] self.nodes@.contains_key(self.packages()[i])
                && self.nodes@[self.packages()[i]] == i
        &&& forall|e: int|
            0 <= e < self.edges().len() ==> (#[trigger] self.edges()[e]).0 < self.packages().len()
                && self.edges()[e].1 < self.packages().len() && self.edges()[e].2 < 3
    }
}


// ---------------------------------------------------------------------------
// Platforms of the `cargo-platform` crate

/// A target platform of the `cargo-platform` crate: a name or a `cfg`
/// expression.
#[verifier::external_type_specification]
#[verifier::external_body]
pub struct ExPlatform(cargo_platform::Platform);

/// A `cfg` value of the `cargo-platform` crate.
#[verifier::external_type_specification]
#[verifier::external_body]
pub struct ExCfg(cargo_platform::Cfg);

/// Whether the platform matches the target name and `cfg` values.
pub uninterp spec fn platform_matches_target(
    platform: cargo_platform::Platform,
    target: Seq<char>,
    cfgs: Seq<cargo_platform::Cfg>,
) -> bool;

/// Calls `cargo_platform::Platform::matches`, which compares a named
/// platform with the target name and evaluates a `cfg` expression against
/// the `cfg` values; its result depends on these arguments alone.
#[verifier::external_body]
fn platform_matches(platform: &cargo_platform::Platform, target: &str, cfgs: &[cargo_platform::Cfg]) -> (r:
    bool)
    ensures
        r == platform_matches_target(*platform, target@, cfgs@),
{
    platform.matches(target, cfgs)
}

/// A dependency that a package declares, together with the package that it
/// was resolved to.
#[derive(Clone, Debug)]
pub struct DependencyCandidate {
    /// The key of the resolved package.
    pub package: u64,
    /// Whether the declared dependency matches the resolved package by
    /// name and version requirement, its source left aside; false where
    /// the package could not be looked up.
    pub matches_package: bool,
    pub kind: DependencyKind,
    /// The platform that the dependency is limited to, if any.
    pub target: Option<cargo_platform::Platform>,
}

/// What decides which declared dependencies become edges.
pub struct GraphConfiguration {
    /// The target platform, or nothing for all targets.
    pub target: Option<String>,
    /// The `cfg` values of the target, where they could be had.
    pub cfgs: Option<Vec<cargo_platform::Cfg>>,
    pub extra_deps: ExtraDeps,
}

/// A declared dependency becomes an edge: it matches the resolved
/// package, its kind is followed, and, where it is limited to a platform
/// and a target is chosen, the platform matches the target; a limited
/// dependency never matches a chosen target whose `cfg` values are
/// missing.
pub open spec fn candidate_kept(c: DependencyCandidate, config: GraphConfiguration) -> bool {
    &&& c.matches_package
    &&& config.extra_deps.spec_allows(c.kind)
    &&& match c.target {
        None => true,
        Some(p) => match config.target {
            None => true,
            Some(t) => match config.cfgs {
                None => false,
                Some(cfgs) => platform_matches_target(p, t@, cfgs@),
            },
        },
    }
}

/// The edges that the candidates give, in order: each kept candidate as
/// its package and kind.
pub open spec fn kept_dependencies(cands: Seq<DependencyCandidate>, config: GraphConfiguration) -> Seq<
    (u64, DependencyKind),
>
    decreases cands.len(),
{
    if cands.len() == 0 {
        Seq::empty()
    } else {
        let rest = kept_dependencies(cands.drop_last(), config);
        if candidate_kept(cands.last(), config) {
            rest.push((cands.last().package, cands.last().kind))
        } else {
            rest
        }
    }
}

/// At most as many edges as candidates.
pub proof fn lemma_kept_len(cands: Seq<DependencyCandidate>, config: GraphConfiguration)
    ensures
        kept_dependencies(cands, config).len() <= cands.len(),
    decreases cands.len(),
{
    if cands.len() > 0 {
        lemma_kept_len(cands.drop_last(), config);
    }
}

/// The declared dependencies that become edges, each as its package and
/// kind, in order.
pub fn filter_dependencies(candidates: &Vec<DependencyCandidate>, config: &GraphConfiguration) -> (r: Vec<
    (u64, DependencyKind),
>)
    ensures
        r@ == kept_dependencies(candidates@, *config),
{
    let mut r: Vec<(u64, DependencyKind)> = Vec::new();
    let mut i: usize = 0;
    proof {
        assert(candidates@.take(0) =~= Seq::<DependencyCandidate>::empty());
    }
    while i < candidates.len()
        invariant
            i <= candidates.len(),
            r@ == kept_dependencies(candidates@.take(i as int), *config),
        decreases candidates.len() - i,
    {
        let c = &candidates[i];
        let platform_ok = match &c.target {
            None => true,
            Some(p) => match &config.target {
                None => true,
                Some(t) => match &config.cfgs {
                    None => false,
                    Some(cfgs) => platform_matches(p, t.as_str(), cfgs.as_slice()),
                },
            },
        };
        if c.matches_package && config.extra_deps.allows(c.kind) && platform_ok {
            r.push((c.package, c.kind));
        }
        proof {
            let t = candidates@.take(i + 1);
            assert(t.drop_last() =~= candidates@.take(i as int));
            assert(t.last() == candidates@[i as int]);
        }
        i = i + 1;
    }
    proof {
        assert(candidates@.take(candidates@.len() as int) =~= candidates@);
    }
    r
}

// ---------------------------------------------------------------------------
// Declared dependencies

/// What `semver` answers to whether the version requirement with the
/// first text matches the version with the second text: nothing where
/// either text does not parse.
pub uninterp spec fn version_req_matches(req: Seq<char>, version: Seq<char>) -> Option<bool>;

/// Parses the texts with `semver::VersionReq::parse` and
/// `semver::Version::parse` and calls `semver::VersionReq::matches`.
/// Trusted to return `version_req_matches(req@, version@)`: the answer
/// depends on the two texts alone.
#[verifier::external_body]
fn req_matches_version(req: &str, version: &str) -> (r: Option<bool>)
    ensures
        r == version_req_matches(req@, version@),
{
    let req = semver::VersionReq::parse(req).ok()?;
    let version = semver::Version::parse(version).ok()?;
    Some(req.matches(&version))
}

/// Whether a declared dependency, given by its name and version
/// requirement, matches a package, given by its name and version, the
/// source of the package left aside.
pub fn matches_ignoring_source(
    dependency_name: &str,
    dependency_req: &str,
    package_name: &str,
    package_version: &str,
) -> (r: bool)
    ensures
        r == (package_name@ == dependency_name@ && version_req_matches(dependency_req@, package_version@)
            == Some(true)),
{
    if !crate::text::str_is(package_name, dependency_name) {
        return false;
    }
    match req_matches_version(dependency_req, package_version) {
        Some(m) => m,
        None => false,
    }
}

/// The package that a declared dependency resolves to: the last of the
/// packages (each its key, name and version) that it matches.
pub open spec fn spec_resolve_dependency(
    name: Seq<char>,
    req: Seq<char>,
    packages: Seq<(u64, Seq<char>, Seq<char>)>,
) -> Option<u64>
    decreases packages.len(),
{
    if packages.len() == 0 {
        None
    } else {
        let p = packages.last();
        if p.1 == name && version_req_matches(req, p.2) == Some(true) {
            Some(p.0)
        } else {
            spec_resolve_dependency(name, req, packages.drop_last())
        }
    }
}

/// The packages by key, name and version, as texts.
pub open spec fn packages_view(packages: Seq<(u64, String, String)>) -> Seq<(u64, Seq<char>, Seq<char>)> {
    packages.map_values(|p: (u64, String, String)| (p.0, p.1@, p.2@))
}

/// The package that a declared dependency, given by its name and version
/// requirement, resolves to: the last of the packages (each its key, name
/// and version) that it matches.
pub fn to_cargo_metadata_package_id(
    dependency_name: &str,
    dependency_req: &str,
    packages: &Vec<(u64, String, String)>,
) -> (r: Option<u64>)
    ensures
        r == spec_resolve_dependency(dependency_name@, dependency_req@, packages_view(packages@)),
{
    let ghost all = packages_view(packages@);
    let mut k = packages.len();
    assert(all.take(k as int) =~= all);
    while k > 0
        invariant
            k <= packages.len(),
            all == packages_view(packages@),
            spec_resolve_dependency(dependency_name@, dependency_req@, all)
                == spec_resolve_dependency(dependency_name@, dependency_req@, all.take(k as int)),
        decreases k,
    {
        let p = &packages[k - 1];
        proof {
            assert(all.take(k as int).drop_last() =~= all.take(k as int - 1));
            assert(all.take(k as int).last() == (p.0, p.1@, p.2@));
        }
        if matches_ignoring_source(dependency_name, dependency_req, p.1.as_str(), p.2.as_str()) {
            return Some(p.0);
        }
        k = k - 1;
    }
    None
}

/// The position of the first `:` or `@` in a package query, or its end.
pub open spec fn query_separator(q: Seq<char>, i: int) -> int
    decreases q.len() - i,
{
    if i < 0 || i >= q.len() {
        q.len() as int
    } else if q[i] == ':' || q[i] == '@' {
        i
    } else {
        query_separator(q, i + 1)
    }
}

proof fn lemma_query_separator(q: Seq<char>, i: int)
    requires
        0 <= i <= q.len(),
    ensures
        i <= query_separator(q, i) <= q.len(),
    decreases q.len() - i,
{
    if i < q.len() && q[i] != ':' && q[i] != '@' {
        lemma_query_separator(q, i + 1);
    }
}

/// The package name of a query: the text before the first `:` or `@`.
pub open spec fn query_name(q: Seq<char>) -> Seq<char> {
    q.subrange(0, query_separator(q, 0))
}

/// The version of a query: the text after the first `:` or `@`, if any.
pub open spec fn query_version(q: Seq<char>) -> Option<Seq<char>> {
    let p = query_separator(q, 0);
    if p < q.len() {
        Some(q.subrange(p + 1, q.len() as int))
    } else {
        None
    }
}

/// The package that a query names: the last of the packages (each its key,
/// name and version) with the query's name and, where the query gives one,
/// its version.
pub open spec fn spec_query_resolve(q: Seq<char>, packages: Seq<(u64, Seq<char>, Seq<char>)>) -> Option<u64>
    decreases packages.len(),
{
    if packages.len() == 0 {
        None
    } else {
        let p = packages.last();
        if p.1 == query_name(q) && match query_version(q) {
            None => true,
            Some(v) => p.2 == v,
        } {
            Some(p.0)
        } else {
            spec_query_resolve(q, packages.drop_last())
        }
    }
}

/// The package that a query `name`, `name:version` or `name@version`
/// names among the packages (each its key, name and version): the last
/// one with that name and, where the query gives one, that version.
pub fn query_resolve(query: &str, packages: &Vec<(u64, String, String)>) -> (r: Option<u64>)
    ensures
        r == spec_query_resolve(query@, packages_view(packages@)),
{
    let q = crate::text::chars_of(query);
    let mut sep: usize = 0;
    while sep < q.len() && q[sep] != ':' && q[sep] != '@'
        invariant
            q@ == query@,
            sep <= q.len(),
            query_separator(q@, sep as int) == query_separator(q@, 0),
        decreases q.len() - sep,
    {
        sep = sep + 1;
    }
    proof {
        lemma_query_separator(q@, 0);
    }
    let name = query.substring_char(0, sep);
    let version = if sep < q.len() {
        Some(query.substring_char(sep + 1, q.len()))
    } else {
        None
    };
    assert(name@ == query_name(query@));
    assert(match version {
        Some(v) => query_version(query@) == Some(v@),
        None => query_version(query@) is None,
    });
    let ghost all = packages_view(packages@);
    let mut k = packages.len();
    assert(all.take(k as int) =~= all);
    while k > 0
        invariant
            k <= packages.len(),
            all == packages_view(packages@),
            name@ == query_name(query@),
            match version {
                Some(v) => query_version(query@) == Some(v@),
                None => query_version(query@) is None,
            },
            spec_query_resolve(query@, all) == spec_query_resolve(query@, all.take(k as int)),
        decreases k,
    {
        let p = &packages[k - 1];
        proof {
            assert(all.take(k as int).drop_last() =~= all.take(k as int - 1));
            assert(all.take(k as int).last() == (p.0, p.1@, p.2@));
        }
        let version_ok = match version {
            None => true,
            Some(v) => crate::text::str_is(p.2.as_str(), v),
        };
        if crate::text::str_is(p.1.as_str(), name) && version_ok {
            return Some(p.0);
        }
        k = k - 1;
    }
    None
}

/// The packages that the declared dependencies resolve to, each once, in
/// order: a dependency that resolves to no package is left out, and so is
/// a development dependency of a package other than the root.
pub open spec fn spec_deps_not_replaced(declared: Seq<(Option<u64>, DependencyKind)>, is_root_package: bool) -> Seq<u64>
    decreases declared.len(),
{
    if declared.len() == 0 {
        Seq::empty()
    } else {
        let r = spec_deps_not_replaced(declared.drop_last(), is_root_package);
        match declared.last().0 {
            None => r,
            Some(id) => if (declared.last().1 == DependencyKind::Development && !is_root_package)
                || r.contains(id) {
                r
            } else {
                r.push(id)
            },
        }
    }
}

/// The packages that a package's declared dependencies resolve to, each
/// once, in order; `declared` holds, for each declared dependency, the key
/// of the package it resolves to, if any, and its kind.
pub fn deps_not_replaced(declared: &Vec<(Option<u64>, DependencyKind)>, is_root_package: bool) -> (r:
    Vec<u64>)
    ensures
        r@ == spec_deps_not_replaced(declared@, is_root_package),
        r@.no_duplicates(),
{
    let mut out: Vec<u64> = Vec::new();
    let mut i: usize = 0;
    while i < declared.len()
        invariant
            i <= declared.len(),
            out@ == spec_deps_not_replaced(declared@.take(i as int), is_root_package),
            out@.no_duplicates(),
        decreases declared.len() - i,
    {
        proof {
            assert(declared@.take(i as int + 1).drop_last() =~= declared@.take(i as int));
        }
        let (resolved, kind) = declared[i];
        match resolved {
            None => {},
            Some(id) => {
                let skip = kind == DependencyKind::Development && !is_root_package;
                if !skip && !contains_u64(&out, id) {
                    out.push(id);
                }
            },
        }
        i = i + 1;
    }
    proof {
        assert(declared@.take(declared@.len() as int) =~= declared@);
    }
    out
}

/// Whether `v` holds `k`.
pub(crate) fn contains_u64(v: &Vec<u64>, k: u64) -> (r: bool)
    ensures
        r == v@.contains(k),
{
    let mut i: usize = 0;
    while i < v.len()
        invariant
            i <= v.len(),
            forall|j: int| 0 <= j < i ==> v@[j] != k,
        decreases v.len() - i,
    {
        if v[i] == k {
            return true;
        }
        i = i + 1;
    }
    false
}

// ---------------------------------------------------------------------------
// Building the graph

/// The edges that leave node `i`, in the order in which they were added,
/// each as its target and weight.
pub open spec fn out_seq(edges: Seq<(usize, usize, u8)>, i: usize) -> Seq<(usize, u8)>
    decreases edges.len(),
{
    if edges.len() == 0 {
        Seq::empty()
    } else {
        let rest = out_seq(edges.drop_last(), i);
        if edges.last().0 == i {
            rest.push((edges.last().1, edges.last().2))
        } else {
            rest
        }
    }
}

/// Edges as the packages they reach and their kinds.
pub open spec fn view_targets(s: Seq<(usize, u8)>, packages: Seq<u64>) -> Seq<(u64, DependencyKind)> {
    s.map_values(|e: (usize, u8)| (packages[e.0 as int], code_kind(e.1)))
}

/// The dependencies of a package in the graph: the kept candidates that
/// the map gives it, none where it gives none.
pub open spec fn deps_of(
    m: Map<u64, Vec<DependencyCandidate>>,
    config: GraphConfiguration,
    k: u64,
) -> Seq<(u64, DependencyKind)> {
    if m.contains_key(k) {
        kept_dependencies(m[k]@, config)
    } else {
        Seq::empty()
    }
}

proof fn lemma_out_seq_push(edges: Seq<(usize, usize, u8)>, e: (usize, usize, u8), i: usize)
    ensures
        out_seq(edges.push(e), i) == if e.0 == i {
            out_seq(edges, i).push((e.1, e.2))
        } else {
            out_seq(edges, i)
        },
{
    assert(edges.push(e).drop_last() =~= edges);
}

proof fn lemma_out_seq_absent(edges: Seq<(usize, usize, u8)>, i: usize)
    requires
        forall|e: int| 0 <= e < edges.len() ==> (#[trigger] edges[e]).0 != i,
    ensures
        out_seq(edges, i) == Seq::<(usize, u8)>::empty(),
    decreases edges.len(),
{
    if edges.len() > 0 {
        let rest = edges.drop_last();
        assert forall|e: int| 0 <= e < rest.len() implies (#[trigger] rest[e]).0 != i by {
            assert(rest[e] == edges[e]);
        }
        lemma_out_seq_absent(rest, i);
        assert(edges[edges.len() - 1] == edges.last());
    }
}

proof fn lemma_out_seq_bounded(edges: Seq<(usize, usize, u8)>, i: usize, bound: nat)
    requires
        forall|e: int| 0 <= e < edges.len() ==> (#[trigger] edges[e]).1 < bound,
    ensures
        forall|k: int| 0 <= k < out_seq(edges, i).len() ==> (#[trigger] out_seq(edges, i)[k]).0 < bound,
    decreases edges.len(),
{
    if edges.len() > 0 {
        let rest = edges.drop_last();
        assert forall|e: int| 0 <= e < rest.len() implies (#[trigger] rest[e]).1 < bound by {
            assert(rest[e] == edges[e]);
        }
        lemma_out_seq_bounded(rest, i, bound);
        assert(edges[edges.len() - 1] == edges.last());
        let o = out_seq(edges, i);
        let ro = out_seq(rest, i);
        assert forall|k: int| 0 <= k < o.len() implies (#[trigger] o[k]).0 < bound by {
            if k < ro.len() {
                assert(o[k] == ro[k]);
            }
        }
    }
}

/// Adds an edge from node `index` to the package of the dependency, and
/// first, where the package is not a node yet, its node, which is also
/// put on the pending packages.
pub fn add_graph_node_if_not_present_and_edge(
    dependency_kind: DependencyKind,
    dependency_package_id: u64,
    graph: &mut PackageGraph,
    index: usize,
    pending_packages: &mut Vec<u64>,
)
    requires
        old(graph).wf(),
        index < old(graph).packages().len(),
        old(graph).packages().len() + 1 < u32::MAX,
        old(graph).edges().len() + 1 < u32::MAX,
    ensures
        final(graph).wf(),
        final(graph).edges() == old(graph).edges().push(
            (index, final(graph).nodes@[dependency_package_id], kind_code(dependency_kind)),
        ),
        old(graph).nodes@.contains_key(dependency_package_id) ==> {
            &&& final(graph).packages() == old(graph).packages()
            &&& final(graph).nodes@ == old(graph).nodes@
            &&& final(pending_packages)@ == old(pending_packages)@
        },
        !old(graph).nodes@.contains_key(dependency_package_id) ==> {
            &&& final(graph).packages() == old(graph).packages().push(dependency_package_id)
            &&& final(graph).nodes@ == old(graph).nodes@.insert(
                dependency_package_id,
                old(graph).packages().len() as usize,
            )
            &&& final(pending_packages)@ == old(pending_packages)@.push(dependency_package_id)
        },
{
    let dependency_index = match graph.nodes.get(&dependency_package_id) {
        Some(i) => *i,
        None => {
            pending_packages.push(dependency_package_id);
            let i = graph_add_node(&mut graph.graph, dependency_package_id);
            graph.nodes.insert(dependency_package_id, i);
            i
        },
    };
    let code = kind_to_code(dependency_kind);
    graph_add_edge(&mut graph.graph, index, dependency_index, code);
    proof {
        let g = *graph;
        let og = *old(graph);
        assert forall|e: int| 0 <= e < g.edges().len() implies (#[trigger] g.edges()[e]).0
            < g.packages().len() && g.edges()[e].1 < g.packages().len() && g.edges()[e].2 < 3 by {
            if e < og.edges().len() {
                assert(g.edges()[e] == og.edges()[e]);
            }
        }
        assert forall|i: int| 0 <= i < g.packages().len() implies #[trigger] g.nodes@.contains_key(
            g.packages()[i],
        ) && g.nodes@[g.packages()[i]] == i by {
            if i < og.packages().len() {
                assert(g.packages()[i] == og.packages()[i]);
                assert(og.nodes@.contains_key(og.packages()[i]));
            }
        }
    }
}


/// The packages reached through edges keep their place when nodes are
/// added after them.
proof fn lemma_view_targets_prefix(s: Seq<(usize, u8)>, p: Seq<u64>, q: Seq<u64>)
    requires
        p.len() <= q.len(),
        q.take(p.len() as int) == p,
        forall|k: int| 0 <= k < s.len() ==> (#[trigger] s[k]).0 < p.len(),
    ensures
        view_targets(s, q) == view_targets(s, p),
{
    assert forall|k: int| 0 <= k < s.len() implies view_targets(s, q)[k] == view_targets(s, p)[k] by {
        assert(s[k].0 < p.len());
        assert(q.take(p.len() as int)[s[k].0 as int] == q[s[k].0 as int]);
    }
    assert(view_targets(s, q) =~= view_targets(s, p));
}

/// Adds the edges from a package to its dependencies, and the nodes of
/// the dependencies that are not nodes yet, which are also put on the
/// pending packages in the order in which they were first met.
pub fn add_package_dependencies_to_graph(
    package_dependencies: &HashMap<u64, Vec<DependencyCandidate>>,
    package_id: u64,
    config: &GraphConfiguration,
    graph: &mut PackageGraph,
    pending_packages: &mut Vec<u64>,
)
    requires
        old(graph).wf(),
        old(graph).nodes@.contains_key(package_id),
        out_seq(old(graph).edges(), old(graph).nodes@[package_id]) == Seq::<(usize, u8)>::empty(),
        old(graph).packages().len() + deps_of(package_dependencies@, *config, package_id).len() + 1
            < u32::MAX,
        old(graph).edges().len() + deps_of(package_dependencies@, *config, package_id).len() + 1
            < u32::MAX,
    ensures
        final(graph).wf(),
        ({
            let og = *old(graph);
            let g = *final(graph);
            let idx = og.nodes@[package_id];
            let n0 = og.packages().len();
            let deps = deps_of(package_dependencies@, *config, package_id);
            &&& g.nodes@[package_id] == idx
            &&& n0 <= g.packages().len() <= n0 + deps.len()
            &&& g.packages().take(n0 as int) == og.packages()
            &&& g.edges().len() == og.edges().len() + deps.len()
            &&& g.edges().take(og.edges().len() as int) == og.edges()
            &&& view_targets(out_seq(g.edges(), idx), g.packages()) == deps
            &&& forall|i: usize| #![trigger out_seq(g.edges(), i)] i < n0 && i != idx ==> out_seq(g.edges(), i) == out_seq(og.edges(), i)
            &&& forall|i: usize| #![trigger out_seq(g.edges(), i)] n0 <= i < g.packages().len() ==> out_seq(g.edges(), i) == Seq::<(usize, u8)>::empty()
            &&& forall|j: int|
                n0 <= j < g.packages().len() ==> #[trigger] reached_from(g.edges(), j, og.edges().len() as int, idx)
            &&& final(pending_packages)@ == old(pending_packages)@ + g.packages().subrange(n0 as int, g.packages().len() as int)
        }),
{
    let ghost og = *graph;
    let ghost pend0 = pending_packages@;
    let ghost n0 = og.packages().len();
    let ghost e0 = og.edges();
    let index = *graph.nodes.get(&package_id).unwrap();
    let dependencies: Vec<(u64, DependencyKind)> = match package_dependencies.get(&package_id) {
        Some(candidates) => filter_dependencies(candidates, config),
        None => Vec::new(),
    };
    let ghost deps = dependencies@;
    proof {
        assert(deps == deps_of(package_dependencies@, *config, package_id));
        assert(og.packages().take(n0 as int) =~= og.packages());
        assert(e0.take(e0.len() as int) =~= e0);
        assert(view_targets(out_seq(e0, index), og.packages()) =~= deps.take(0));
        assert(pend0 + og.packages().subrange(n0 as int, n0 as int) =~= pend0);
    }
    let mut t: usize = 0;
    while t < dependencies.len()
        invariant
            graph.wf(),
            og.wf(),
            index == og.nodes@[package_id],
            index < n0,
            graph.nodes@.contains_key(package_id),
            graph.nodes@[package_id] == index,
            dependencies@ == deps,
            t <= deps.len(),
            n0 == og.packages().len(),
            n0 <= graph.packages().len() <= n0 + t,
            graph.packages().take(n0 as int) == og.packages(),
            og.packages().len() + deps.len() + 1 < u32::MAX,
            og.edges().len() + deps.len() + 1 < u32::MAX,
            e0 == og.edges(),
            graph.edges().len() == e0.len() + t,
            graph.edges().take(e0.len() as int) == e0,
            view_targets(out_seq(graph.edges(), index), graph.packages()) == deps.take(t as int),
            forall|i: usize| #![trigger out_seq(graph.edges(), i)] i < n0 && i != index ==> out_seq(graph.edges(), i) == out_seq(e0, i),
            forall|i: usize| #![trigger out_seq(graph.edges(), i)] n0 <= i < graph.packages().len() ==> out_seq(graph.edges(), i) == Seq::<(usize, u8)>::empty(),
            forall|j: int|
                n0 <= j < graph.packages().len() ==> #[trigger] reached_from(graph.edges(), j, e0.len() as int, index),
            pending_packages@ == pend0 + graph.packages().subrange(n0 as int, graph.packages().len() as int),
        decreases deps.len() - t,
    {
        let ghost g1 = *graph;
        let ghost pend1 = pending_packages@;
        let (dependency, kind) = dependencies[t];
        add_graph_node_if_not_present_and_edge(kind, dependency, graph, index, pending_packages);
        proof {
            let g2 = *graph;
            let n1 = g1.packages().len();
            let n2 = g2.packages().len();
            let new_edge = (index, g2.nodes@[dependency], kind_code(kind));
            assert(g2.edges() == g1.edges().push(new_edge));
            assert(g2.packages().take(n1 as int) =~= g1.packages());
            assert(g2.packages().take(n0 as int) =~= og.packages()) by {
                assert(g2.packages().take(n0 as int) =~= g1.packages().take(n0 as int));
            }
            assert(g2.edges().take(e0.len() as int) =~= e0) by {
                assert(g2.edges().take(e0.len() as int) =~= g1.edges().take(e0.len() as int));
            }
            assert(g2.nodes@.contains_key(package_id));
            assert(g2.nodes@[package_id] == index) by {
                assert(og.packages()[index as int] == package_id);
                assert(g2.packages()[index as int] == g1.packages()[index as int]);
                assert(g1.nodes@.contains_key(g1.packages()[index as int]));
            }
            // the edges out of `index`
            lemma_out_seq_push(g1.edges(), new_edge, index);
            lemma_out_seq_bounded(g1.edges(), index, n1 as nat);
            lemma_view_targets_prefix(out_seq(g1.edges(), index), g1.packages(), g2.packages());
            assert(g2.nodes@.contains_key(dependency));
            assert(g2.packages()[g2.nodes@[dependency] as int] == dependency);
            assert(code_kind(kind_code(kind)) == kind);
            assert(deps.take(t + 1) =~= deps.take(t as int).push(deps[t as int]));
            assert(view_targets(out_seq(g2.edges(), index), g2.packages()) =~= deps.take(t + 1));
            // the edges out of other nodes
            assert forall|i: usize| #![trigger out_seq(g2.edges(), i)] i < n0 && i != index implies out_seq(g2.edges(), i) == out_seq(e0, i) by {
                lemma_out_seq_push(g1.edges(), new_edge, i);
            }
            assert forall|i: usize| #![trigger out_seq(g2.edges(), i)] n0 <= i < n2 implies out_seq(g2.edges(), i) == Seq::<(usize, u8)>::empty() by {
                lemma_out_seq_push(g1.edges(), new_edge, i);
                if i >= n1 {
                    assert forall|e: int| 0 <= e < g1.edges().len() implies (#[trigger] g1.edges()[e]).0 != i by {
                        assert(g1.edges()[e].0 < n1);
                    }
                    lemma_out_seq_absent(g1.edges(), i);
                }
            }
            assert forall|j: int| n0 <= j < n2 implies #[trigger] reached_from(g2.edges(), j, e0.len() as int, index) by {
                if j < n1 {
                    assert(reached_from(g1.edges(), j, e0.len() as int, index));
                    let e = choose|e: int|
                        #![trigger g1.edges()[e]]
                        e0.len() <= e < g1.edges().len() && g1.edges()[e].1 == j && g1.edges()[e].0 == index;
                    assert(g2.edges()[e] == g1.edges()[e]);
                } else {
                    assert(j == n1);
                    assert(g2.nodes@[dependency] == n1);
                    assert(g2.edges()[g1.edges().len() as int] == new_edge);
                }
            }
            if n2 > n1 {
                assert(g2.packages().subrange(n0 as int, n2 as int) =~= g1.packages().subrange(n0 as int, n1 as int).push(dependency));
                assert(pending_packages@ =~= pend0 + g2.packages().subrange(n0 as int, n2 as int));
            } else {
                assert(g2.packages().subrange(n0 as int, n2 as int) =~= g1.packages().subrange(n0 as int, n1 as int));
            }
        }
        t = t + 1;
    }
    proof {
        assert(deps.take(deps.len() as int) =~= deps);
    }
}

/// Node `j` is the target of an edge from node `src`, among the edges from
/// position `lo` on.
pub open spec fn reached_from(edges: Seq<(usize, usize, u8)>, j: int, lo: int, src: usize) -> bool {
    exists|e: int| #![trigger edges[e]] lo <= e < edges.len() && edges[e].1 == j && edges[e].0 == src
}

/// Node `j` is the target of an edge from an earlier node.
pub open spec fn reached_earlier(edges: Seq<(usize, usize, u8)>, j: int) -> bool {
    exists|e: int| #![trigger edges[e]] 0 <= e < edges.len() && edges[e].1 == j && edges[e].0 < j
}

/// The step of the candidate count: the candidates of a package.
pub open spec fn candidate_len(m: Map<u64, Vec<DependencyCandidate>>) -> spec_fn(u64) -> int {
    |k: u64|
        if m.contains_key(k) {
            m[k]@.len() as int
        } else {
            0int
        }
}

/// The number of declared dependencies over all packages.
pub open spec fn candidate_count(m: Map<u64, Vec<DependencyCandidate>>) -> int {
    set_sum(m.dom(), candidate_len(m))
}

/// The graph of a root package: the root is the first node; each node has,
/// in order, an edge to each of its kept dependencies, of its kind; and
/// each other node is reached by an edge from an earlier node.
pub open spec fn is_dependency_graph(
    g: PackageGraph,
    root: u64,
    m: Map<u64, Vec<DependencyCandidate>>,
    config: GraphConfiguration,
) -> bool {
    &&& g.wf()
    &&& g.packages().len() >= 1
    &&& g.packages()[0] == root
    &&& forall|i: int|
        0 <= i < g.packages().len() ==> view_targets(out_seq(g.edges(), i as usize), g.packages())
            == deps_of(m, config, #[trigger] g.packages()[i])
    &&& forall|j: int| 1 <= j < g.packages().len() ==> #[trigger] reached_earlier(g.edges(), j)
}

/// Builds the graph of the packages that the root depends on, directly or
/// through others: packages are added as they are first met, and the
/// dependencies of each are added when it is taken from the pending
/// packages, most recently met first.
pub fn build_graph(
    root_package_id: u64,
    package_dependencies: &HashMap<u64, Vec<DependencyCandidate>>,
    config: &GraphConfiguration,
) -> (g: PackageGraph)
    requires
        candidate_count(package_dependencies@) + 2 < u32::MAX,
    ensures
        is_dependency_graph(g, root_package_id, package_dependencies@, *config),
{
    let ghost m = package_dependencies@;
    let ghost f = candidate_len(m);
    let ghost total = candidate_count(m);
    let mut graph = PackageGraph { graph: graph_new(), nodes: HashMap::new() };
    let root_index = graph_add_node(&mut graph.graph, root_package_id);
    graph.nodes.insert(root_package_id, root_index);
    let mut pending_packages: Vec<u64> = Vec::new();
    pending_packages.push(root_package_id);
    let ghost mut processed: Set<u64> = Set::empty();
    proof {
        assert(processed.intersect(m.dom()) =~= Set::<u64>::empty());
        crate::sums::lemma_set_sum_empty(f);
        assert forall|k: u64| #[trigger] f(k) >= 0 by {}
        lemma_set_sum_subset(Set::<u64>::empty(), m.dom(), f);
        assert(graph.packages() =~= seq![root_package_id]);
        assert(graph.edges() =~= Seq::<(usize, usize, u8)>::empty());
        assert(out_seq(graph.edges(), 0) =~= Seq::<(usize, u8)>::empty());
        assert(pending_packages@ =~= seq![root_package_id]);
    }
    while pending_packages.len() > 0
        invariant
            m == package_dependencies@,
            f == candidate_len(m),
            total == candidate_count(m),
            total + 2 < u32::MAX,
            m.dom().finite(),
            forall|k: u64| #[trigger] f(k) >= 0,
            graph.wf(),
            graph.packages().len() >= 1,
            graph.packages()[0] == root_package_id,
            processed.finite(),
            forall|k: u64| processed.contains(k) ==> #[trigger] graph.nodes@.contains_key(k),
            forall|i: int|
                0 <= i < graph.packages().len() && processed.contains(#[trigger] graph.packages()[i])
                    ==> view_targets(out_seq(graph.edges(), i as usize), graph.packages()) == deps_of(
                    m,
                    *config,
                    graph.packages()[i],
                ),
            forall|i: int|
                0 <= i < graph.packages().len() && !processed.contains(#[trigger] graph.packages()[i])
                    ==> out_seq(graph.edges(), i as usize) == Seq::<(usize, u8)>::empty()
                    && pending_packages@.contains(graph.packages()[i]),
            forall|j: int| 1 <= j < graph.packages().len() ==> #[trigger] reached_earlier(graph.edges(), j),
            pending_packages@.no_duplicates(),
            forall|k: int|
                0 <= k < pending_packages@.len() ==> graph.nodes@.contains_key(
                    #[trigger] pending_packages@[k],
                ) && !processed.contains(pending_packages@[k]),
            graph.edges().len() <= set_sum(processed.intersect(m.dom()), f),
            set_sum(processed.intersect(m.dom()), f) <= total,
            graph.packages().len() <= graph.edges().len() + 1,
        decreases total - graph.edges().len() + pending_packages.len(),
    {
        let ghost g1 = graph;
        let ghost pend1 = pending_packages@;
        let package_id = pending_packages.pop().unwrap();
        let ghost deps = deps_of(m, *config, package_id);
        let ghost idx = g1.nodes@[package_id];
        proof {
            assert(pend1[pend1.len() - 1] == package_id);
            assert(g1.nodes@.contains_key(package_id));
            assert(!processed.contains(package_id));
            assert(g1.packages()[idx as int] == package_id);
            if m.contains_key(package_id) {
                lemma_kept_len(m[package_id]@, *config);
                assert(processed.intersect(m.dom()).insert(package_id) =~= processed.insert(package_id).intersect(m.dom()));
                lemma_set_sum_insert(processed.intersect(m.dom()), package_id, f);
                lemma_set_sum_subset(processed.insert(package_id).intersect(m.dom()), m.dom(), f);
            } else {
                assert(processed.intersect(m.dom()) =~= processed.insert(package_id).intersect(m.dom()));
            }
            assert(deps.len() <= f(package_id));
        }
        add_package_dependencies_to_graph(
            package_dependencies,
            package_id,
            config,
            &mut graph,
            &mut pending_packages,
        );
        proof {
            let g2 = graph;
            let n1 = g1.packages().len();
            let n2 = g2.packages().len();
            let p2 = processed.insert(package_id);
            assert forall|i: int| 0 <= i < n1 implies #[trigger] g2.packages()[i] == g1.packages()[i] by {
                assert(g2.packages().take(n1 as int)[i] == g2.packages()[i]);
            }
            assert forall|e: int| 0 <= e < g1.edges().len() implies #[trigger] g2.edges()[e] == g1.edges()[e] by {
                assert(g2.edges().take(g1.edges().len() as int)[e] == g2.edges()[e]);
            }
            assert forall|i: int|
                0 <= i < n2 && p2.contains(#[trigger] g2.packages()[i])
                    implies view_targets(out_seq(g2.edges(), i as usize), g2.packages()) == deps_of(m, *config, g2.packages()[i]) by {
                if i < n1 {
                    assert(g2.packages()[i] == g1.packages()[i]);
                    if i != idx {
                        assert(g1.nodes@.contains_key(g1.packages()[i]));
                        assert(processed.contains(g1.packages()[i]));
                        assert(out_seq(g2.edges(), i as usize) == out_seq(g1.edges(), i as usize));
                        lemma_out_seq_bounded(g1.edges(), i as usize, n1 as nat);
                        lemma_view_targets_prefix(out_seq(g1.edges(), i as usize), g1.packages(), g2.packages());
                    }
                } else {
                    assert(g2.nodes@.contains_key(g2.packages()[i]));
                    assert(g2.nodes@[g2.packages()[i]] == i);
                    if processed.contains(g2.packages()[i]) {
                        assert(g1.nodes@.contains_key(g2.packages()[i]));
                        let k = g1.nodes@[g2.packages()[i]];
                        assert(g1.packages()[k as int] == g2.packages()[i]);
                        assert(g2.packages()[k as int] == g1.packages()[k as int]);
                    }
                    assert(g2.packages()[i] != package_id) by {
                        assert(g2.packages()[idx as int] == g1.packages()[idx as int]);
                    }
                }
            }
            assert forall|i: int|
                0 <= i < n2 && !p2.contains(#[trigger] g2.packages()[i])
                    implies out_seq(g2.edges(), i as usize) == Seq::<(usize, u8)>::empty()
                    && pending_packages@.contains(g2.packages()[i]) by {
                if i < n1 {
                    assert(g2.packages()[i] == g1.packages()[i]);
                    assert(i != idx);
                    assert(out_seq(g2.edges(), i as usize) == out_seq(g1.edges(), i as usize));
                    assert(pend1.contains(g1.packages()[i]));
                    let k = choose|k: int| 0 <= k < pend1.len() && pend1[k] == g1.packages()[i];
                    assert(k != pend1.len() - 1);
                    assert(pending_packages@[k] == pend1[k]);
                } else {
                    assert(pending_packages@[pend1.len() - 1 + (i - n1)] == g2.packages()[i]);
                }
            }
            assert forall|j: int| 1 <= j < n2 implies #[trigger] reached_earlier(g2.edges(), j) by {
                if j < n1 {
                    assert(reached_earlier(g1.edges(), j));
                    let e = choose|e: int|
                        #![trigger g1.edges()[e]]
                        0 <= e < g1.edges().len() && g1.edges()[e].1 == j && g1.edges()[e].0 < j;
                    assert(g2.edges()[e] == g1.edges()[e]);
                } else {
                    assert(reached_from(g2.edges(), j, g1.edges().len() as int, idx));
                    let e = choose|e: int|
                        #![trigger g2.edges()[e]]
                        g1.edges().len() <= e < g2.edges().len() && g2.edges()[e].1 == j && g2.edges()[e].0 == idx;
                    assert(idx < n1);
                }
            }
            let pend2 = pending_packages@;
            let fresh = g2.packages().subrange(n1 as int, n2 as int);
            assert(pend2 == pend1.drop_last() + fresh);
            assert forall|k: int| 0 <= k < pend2.len() implies g2.nodes@.contains_key(
                #[trigger] pend2[k],
            ) && !p2.contains(pend2[k]) by {
                if k < pend1.len() - 1 {
                    assert(pend2[k] == pend1[k]);
                    assert(g1.nodes@.contains_key(pend1[k]));
                    let i = g1.nodes@[pend1[k]];
                    assert(g2.packages()[i as int] == g1.packages()[i as int]);
                    assert(pend1[k] != package_id);
                } else {
                    let i = n1 + (k - (pend1.len() - 1));
                    assert(pend2[k] == g2.packages()[i]);
                    assert(g2.nodes@.contains_key(g2.packages()[i]));
                    assert(g2.nodes@[g2.packages()[i]] == i);
                    if processed.contains(pend2[k]) || pend2[k] == package_id {
                        assert(g1.nodes@.contains_key(pend2[k]));
                        let i1 = g1.nodes@[pend2[k]];
                        assert(g2.packages()[i1 as int] == g1.packages()[i1 as int]);
                    }
                }
            }
            assert(pend2.no_duplicates()) by {
                assert forall|a: int, b: int| 0 <= a < pend2.len() && 0 <= b < pend2.len() && a != b implies pend2[a] != pend2[b] by {
                    if a < pend1.len() - 1 && b < pend1.len() - 1 {
                        assert(pend2[a] == pend1[a] && pend2[b] == pend1[b]);
                    } else if a >= pend1.len() - 1 && b >= pend1.len() - 1 {
                        let ia = n1 + (a - (pend1.len() - 1));
                        let ib = n1 + (b - (pend1.len() - 1));
                        assert(pend2[a] == g2.packages()[ia] && pend2[b] == g2.packages()[ib]);
                        assert(g2.nodes@.contains_key(g2.packages()[ia]));
                        assert(g2.nodes@.contains_key(g2.packages()[ib]));
                    } else {
                        let (x, y) = if a < b { (a, b) } else { (b, a) };
                        let iy = n1 + (y - (pend1.len() - 1));
                        assert(pend2[x] == pend1[x]);
                        assert(pend2[y] == g2.packages()[iy]);
                        assert(g1.nodes@.contains_key(pend1[x]));
                        let i1 = g1.nodes@[pend1[x]];
                        assert(g2.packages()[i1 as int] == g1.packages()[i1 as int]);
                        assert(g2.nodes@.contains_key(g2.packages()[iy]));
                    }
                }
            }
            assert forall|k: u64| p2.contains(k) implies #[trigger] g2.nodes@.contains_key(k) by {
                if k != package_id {
                    assert(g1.nodes@.contains_key(k));
                    let i1 = g1.nodes@[k];
                    assert(g2.packages()[i1 as int] == g1.packages()[i1 as int]);
                }
            }
            assert(g2.packages()[0] == g1.packages()[0]);
            processed = p2;
        }
    }
    proof {
        assert forall|i: int| 0 <= i < graph.packages().len() implies view_targets(
            out_seq(graph.edges(), i as usize),
            graph.packages(),
        ) == deps_of(m, *config, #[trigger] graph.packages()[i]) by {
            if !processed.contains(graph.packages()[i]) {
                assert(pending_packages@.contains(graph.packages()[i]));
            }
        }
    }
    graph
}


/// No package is two nodes.
pub proof fn lemma_packages_distinct(g: PackageGraph)
    requires
        g.wf(),
    ensures
        g.packages().no_duplicates(),
        g.packages().to_set().len() == g.packages().len(),
        g.nodes@.dom().subset_of(g.packages().to_set()),
{
    let p = g.packages();
    assert forall|i: int, j: int| 0 <= i < p.len() && 0 <= j < p.len() && i != j implies p[i] != p[j] by {
        assert(g.nodes@.contains_key(p[i]));
        assert(g.nodes@.contains_key(p[j]));
    }
    p.unique_seq_to_set();
    assert forall|k: u64| g.nodes@.dom().contains(k) implies p.to_set().contains(k) by {
        assert(g.nodes@.contains_key(k));
        assert(p[g.nodes@[k] as int] == k);
    }
}

} // verus!
