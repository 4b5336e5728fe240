//! The reports of a scan: for each package of the tree its dependencies
//! and its statistics.

use vstd::prelude::*;
use std::collections::HashSet;
use crate::graph::{code_kind, code_to_kind, graph_edges_directed, graph_node_weight, incident, EdgeDirection, PackageGraph};
use crate::report::{
    DependencyKind, PackageInfo, QuickReportEntry, QuickSafetyReport, ReportEntry, SafetyReport,
    UnsafeInfo,
};
use crate::scan::{
    entry_points_forbid_unsafe, list_files_used_but_not_scanned, scanned_keys, summed_block,
    sums_fit, unsafe_stats, GeigerContext, PackageMetrics,
};
use crate::scan::forbid::{all_files_forbid, package_forbids_unsafe};
use crate::tree::{deps_of_kind, edge_deps, lemma_deps_of_kind_members};

verus! {

broadcast use vstd::std_specs::hash::group_hash_axioms;

/// The dependencies of a package, of every kind.
pub open spec fn all_deps(p: PackageInfo) -> Seq<u64> {
    p.dependencies@ + p.dev_dependencies@ + p.build_dependencies@
}

/// The entry of a package of the graph: its dependencies of each kind, in
/// the order in which its edges are walked (most recent first), and its
/// statistics where it has any.
pub open spec fn entry_is(g: PackageGraph, ctx: Map<u64, PackageMetrics>, e: (PackageInfo, Option<&PackageMetrics>)) -> bool {
    let pkg = e.0.id;
    &&& g.nodes@.contains_key(pkg)
    &&& e.0.dependencies@ == edge_deps(g, pkg, EdgeDirection::Outgoing, DependencyKind::Normal)
    &&& e.0.dev_dependencies@ == edge_deps(g, pkg, EdgeDirection::Outgoing, DependencyKind::Development)
    &&& e.0.build_dependencies@ == edge_deps(g, pkg, EdgeDirection::Outgoing, DependencyKind::Build)
    &&& (e.1 is None <==> !ctx.contains_key(pkg))
    &&& (e.1 matches Some(m) ==> *m == ctx[pkg])
}

/// The package is the package of a visited node.
pub open spec fn dep_visited(g: PackageGraph, visited: Set<usize>, d: u64) -> bool {
    exists|x: usize| #[trigger] visited.contains(x) && g.packages()[x as int] == d
}

/// The package has an entry.
pub open spec fn has_entry(r: Seq<(PackageInfo, Option<&PackageMetrics>)>, d: u64) -> bool {
    exists|j: int| 0 <= j < r.len() && #[trigger] r[j].0.id == d
}

/// Finitely many indices below `n` are at most `n`.
proof fn lemma_indices_bound(s: Set<usize>, n: int)
    requires
        s.finite(),
        0 <= n,
        forall|x: usize| #[trigger] s.contains(x) ==> x < n,
    ensures
        s.len() <= n,
{
    let f = |u: usize| u as int;
    let y = s.map(f);
    assert(vstd::relations::injective_on(f, s));
    vstd::set_lib::lemma_map_size(s, y, f);
    vstd::set_lib::lemma_int_range(0, n);
    assert(y.subset_of(vstd::set_lib::set_int_range(0, n))) by {
        assert forall|i: int| y.contains(i) implies vstd::set_lib::set_int_range(0, n).contains(i) by {
            let u = choose|u: usize| s.contains(u) && f(u) == i;
        }
    }
    vstd::set_lib::lemma_len_subset(y, vstd::set_lib::set_int_range(0, n));
}

/// The pending nodes and the visited nodes after the edges `inc` of a
/// package are followed, in order: each node not visited before is marked
/// visited and put on the pending nodes.
pub open spec fn push_new(stack: Seq<usize>, visited: Set<usize>, inc: Seq<(usize, u8)>) -> (Seq<usize>, Set<usize>)
    decreases inc.len(),
{
    if inc.len() == 0 {
        (stack, visited)
    } else {
        let (s, v) = push_new(stack, visited, inc.drop_last());
        let o = inc.last().0;
        if v.contains(o) {
            (s, v)
        } else {
            (s.push(o), v.insert(o))
        }
    }
}

/// The packages that the walk meets, in order, from the pending nodes
/// `stack` and the visited nodes `visited`: it takes the most recently
/// pending node, follows its outgoing edges as `push_new` does, and goes on
/// while nodes are pending (for at most `fuel` steps).
pub open spec fn walk_ids(g: PackageGraph, stack: Seq<usize>, visited: Set<usize>, fuel: nat) -> Seq<u64>
    decreases fuel,
{
    if fuel == 0 || stack.len() == 0 {
        Seq::empty()
    } else {
        let x = stack.last();
        let next = push_new(stack.drop_last(), visited, incident(g.edges(), x, EdgeDirection::Outgoing));
        seq![g.packages()[x as int]] + walk_ids(g, next.0, next.1, (fuel - 1) as nat)
    }
}

/// The packages of the report of the tree from the root, in the order of
/// the walk that starts with the root pending and nothing visited; a
/// package is met again where an edge leads back to the root, which is
/// not marked visited at the start.
pub open spec fn package_walk_ids(g: PackageGraph, root: u64) -> Seq<u64> {
    walk_ids(g, seq![g.nodes@[root]], Set::empty(), g.packages().len() + 1)
}

/// The packages of the entries, in order.
pub open spec fn entry_ids(pm: Seq<(PackageInfo, Option<&PackageMetrics>)>) -> Seq<u64> {
    pm.map_values(|e: (PackageInfo, Option<&PackageMetrics>)| e.0.id)
}

/// Adds a dependency to the package's list of its kind (to none where its
/// kind is not known), and puts its node on the pending nodes the first
/// time it is met.
pub fn add_dependency_to_package_info(
    graph: &PackageGraph,
    dependency_index: usize,
    dependency_kind: Option<DependencyKind>,
    indices: &mut Vec<usize>,
    package_info: &mut PackageInfo,
    visited: &mut HashSet<usize>,
)
    requires
        graph.wf(),
        dependency_index < graph.packages().len(),
    ensures
        final(visited)@ == old(visited)@.insert(dependency_index),
        final(indices)@ == if old(visited)@.contains(dependency_index) {
            old(indices)@
        } else {
            old(indices)@.push(dependency_index)
        },
        final(package_info).id == old(package_info).id,
        final(package_info).dependencies@ == if dependency_kind == Some(DependencyKind::Normal) {
            old(package_info).dependencies@.push(graph.packages()[dependency_index as int])
        } else {
            old(package_info).dependencies@
        },
        final(package_info).dev_dependencies@ == if dependency_kind == Some(DependencyKind::Development) {
            old(package_info).dev_dependencies@.push(graph.packages()[dependency_index as int])
        } else {
            old(package_info).dev_dependencies@
        },
        final(package_info).build_dependencies@ == if dependency_kind == Some(DependencyKind::Build) {
            old(package_info).build_dependencies@.push(graph.packages()[dependency_index as int])
        } else {
            old(package_info).build_dependencies@
        },
{
    if visited.insert(dependency_index) {
        indices.push(dependency_index);
    }
    let dependency_package_id = graph_node_weight(&graph.graph, dependency_index);
    match dependency_kind {
        Some(kind) => package_info.push_dependency(dependency_package_id, kind),
        None => {},
    }
}

/// The entries of the packages of the tree from the root, the root first:
/// each package taken from the pending nodes, most recently met first,
/// gets an entry, and each dependency of an entry has an entry.
pub fn package_metrics<'a>(
    geiger_context: &'a GeigerContext,
    graph: &PackageGraph,
    root_package_id: u64,
) -> (r: Vec<(PackageInfo, Option<&'a PackageMetrics>)>)
    requires
        graph.wf(),
        graph.nodes@.contains_key(root_package_id),
    ensures
        r@.len() >= 1,
        r@[0].0.id == root_package_id,
        entry_ids(r@) == package_walk_ids(*graph, root_package_id),
        forall|i: int| 0 <= i < r@.len() ==> entry_is(*graph, geiger_context.package_id_to_metrics@, #[trigger] r@[i]),
        forall|i: int, k: int|
            #![trigger all_deps(r@[i].0)[k]]
            0 <= i < r@.len() && 0 <= k < all_deps(r@[i].0).len() ==> has_entry(r@, all_deps(r@[i].0)[k]),
{
    let ghost g = *graph;
    let ghost ctx = geiger_context.package_id_to_metrics@;
    let ghost n = graph.packages().len();
    let mut package_metrics: Vec<(PackageInfo, Option<&'a PackageMetrics>)> = Vec::new();
    let root_index = *graph.nodes.get(&root_package_id).unwrap();
    let mut indices: Vec<usize> = Vec::new();
    indices.push(root_index);
    let mut visited: HashSet<usize> = HashSet::new();
    let ghost mut fuel: nat = (n + 1) as nat;
    proof {
        assert(visited@ =~= Set::<usize>::empty());
        assert(indices@ =~= seq![root_index]);
        assert(entry_ids(package_metrics@) =~= Seq::<u64>::empty());
        assert(Seq::<u64>::empty() + package_walk_ids(g, root_package_id) =~= package_walk_ids(
            g,
            root_package_id,
        ));
    }
    while indices.len() > 0
        invariant
            g == *graph,
            ctx == geiger_context.package_id_to_metrics@,
            g.wf(),
            n == g.packages().len(),
            root_index == g.nodes@[root_package_id],
            g.nodes@.contains_key(root_package_id),
            forall|k: int| 0 <= k < indices@.len() ==> #[trigger] indices@[k] < n,
            forall|x: usize| #[trigger] visited@.contains(x) ==> x < n,
            visited@.finite(),
            forall|x: usize| #[trigger] visited@.contains(x) ==> indices@.contains(x) || exists|i: int|
                0 <= i < package_metrics@.len() && package_metrics@[i].0.id == g.packages()[x as int],
            forall|i: int| 0 <= i < package_metrics@.len() ==> entry_is(g, ctx, #[trigger] package_metrics@[i]),
            forall|i: int, k: int|
                #![trigger all_deps(package_metrics@[i].0)[k]]
                0 <= i < package_metrics@.len() && 0 <= k < all_deps(package_metrics@[i].0).len() ==> dep_visited(g, visited@, all_deps(package_metrics@[i].0)[k]),
            package_metrics@.len() == 0 ==> indices@ == seq![root_index],
            package_metrics@.len() > 0 ==> package_metrics@[0].0.id == root_package_id,
            fuel >= n - visited@.len() + indices@.len(),
            visited@.len() <= n,
            package_walk_ids(g, root_package_id) == entry_ids(package_metrics@) + walk_ids(
                g,
                indices@,
                visited@,
                fuel,
            ),
        decreases n - visited@.len() + indices@.len(),
    {
        proof {
            lemma_indices_bound(visited@, n as int);
        }
        let ghost pm0 = package_metrics@;
        let ghost v0 = visited@;
        let ghost ix0 = indices@;
        let index = indices.pop().unwrap();
        let package_id = graph_node_weight(&graph.graph, index);
        let mut package_info = PackageInfo::new(package_id);
        let edges = graph_edges_directed(&graph.graph, index, EdgeDirection::Outgoing);
        let ghost inc = edges@;
        proof {
            crate::tree::lemma_incident_ends(g.edges(), index, EdgeDirection::Outgoing, n);
            assert(g.nodes@.contains_key(package_id));
            assert(g.nodes@[package_id] == index);
            assert(inc.take(0) =~= Seq::<(usize, u8)>::empty());
        }
        let ghost base = ix0.drop_last();
        let mut t: usize = 0;
        while t < edges.len()
            invariant
                g == *graph,
                g.wf(),
                n == g.packages().len(),
                edges@ == inc,
                inc == incident(g.edges(), index, EdgeDirection::Outgoing),
                forall|j: int| 0 <= j < inc.len() ==> (#[trigger] inc[j]).0 < n,
                t <= inc.len(),
                package_info.id == package_id,
                package_info.dependencies@ == deps_of_kind(inc.take(t as int), g.packages(), DependencyKind::Normal),
                package_info.dev_dependencies@ == deps_of_kind(inc.take(t as int), g.packages(), DependencyKind::Development),
                package_info.build_dependencies@ == deps_of_kind(inc.take(t as int), g.packages(), DependencyKind::Build),
                v0.subset_of(visited@),
                forall|j: int| 0 <= j < t ==> visited@.contains(#[trigger] inc[j].0),
                forall|x: usize| #[trigger] visited@.contains(x) ==> x < n,
                visited@.finite(),
                forall|x: usize| #[trigger] visited@.contains(x) ==> v0.contains(x) || indices@.contains(x),
                forall|k: int| 0 <= k < indices@.len() ==> #[trigger] indices@[k] < n,
                base == ix0.drop_last(),
                base.len() <= indices@.len(),
                forall|k: int| 0 <= k < base.len() ==> #[trigger] indices@[k] == base[k],
                forall|k: int| base.len() <= k < indices@.len() ==> !v0.contains(#[trigger] indices@[k]),
                indices@.len() - base.len() == visited@.len() - v0.len(),
                indices@ == push_new(base, v0, inc.take(t as int)).0,
                visited@ == push_new(base, v0, inc.take(t as int)).1,
            decreases inc.len() - t,
        {
            let (other, weight) = edges[t];
            let ghost ixb = indices@;
            let ghost vb = visited@;
            add_dependency_to_package_info(graph, other, Some(code_to_kind(weight)), &mut indices, &mut package_info, &mut visited);
            proof {
                let tk = inc.take(t + 1);
                assert(tk.drop_last() =~= inc.take(t as int));
                assert(tk.last() == inc[t as int]);
                assert forall|x: usize| #[trigger] visited@.contains(x) implies v0.contains(x) || indices@.contains(x) by {
                    if x == other && !vb.contains(x) {
                        assert(indices@[indices@.len() - 1] == x);
                    } else if !v0.contains(x) {
                        assert(ixb.contains(x));
                        let k = choose|k: int| 0 <= k < ixb.len() && ixb[k] == x;
                        assert(indices@[k] == ixb[k]);
                    }
                }
                assert forall|k: int| base.len() <= k < indices@.len() implies !v0.contains(#[trigger] indices@[k]) by {
                    if k < ixb.len() {
                        assert(indices@[k] == ixb[k]);
                    } else {
                        assert(indices@[k] == other);
                        assert(!vb.contains(other));
                    }
                }
                if !vb.contains(other) {
                    assert(vb.insert(other).len() == vb.len() + 1);
                } else {
                    assert(vb.insert(other) =~= vb);
                }
                assert(push_new(base, v0, tk) == {
                    let (s0, w0) = push_new(base, v0, inc.take(t as int));
                    if w0.contains(other) {
                        (s0, w0)
                    } else {
                        (s0.push(other), w0.insert(other))
                    }
                });
            }
            t = t + 1;
        }
        let m = geiger_context.package_id_to_metrics.get(&package_id);
        let ghost entry = (package_info, m);
        package_metrics.push((package_info, m));
        proof {
            assert(inc.take(inc.len() as int) =~= inc);
            assert(package_metrics@[pm0.len() as int] == entry);
            assert(entry_is(g, ctx, entry));
            assert forall|i: int| 0 <= i < package_metrics@.len() implies entry_is(g, ctx, #[trigger] package_metrics@[i]) by {
                if i < pm0.len() {
                    assert(package_metrics@[i] == pm0[i]);
                }
            }
            // the dependencies of the new entry were visited
            lemma_deps_of_kind_members(inc, g.packages(), DependencyKind::Normal);
            lemma_deps_of_kind_members(inc, g.packages(), DependencyKind::Development);
            lemma_deps_of_kind_members(inc, g.packages(), DependencyKind::Build);
            assert forall|i: int, k: int|
                #![trigger all_deps(package_metrics@[i].0)[k]]
                0 <= i < package_metrics@.len() && 0 <= k < all_deps(package_metrics@[i].0).len() implies dep_visited(g, visited@, all_deps(package_metrics@[i].0)[k]) by {
                if i < pm0.len() {
                    assert(package_metrics@[i] == pm0[i]);
                    assert(dep_visited(g, v0, all_deps(pm0[i].0)[k]));
                    let x = choose|x: usize| #[trigger] v0.contains(x) && g.packages()[x as int] == all_deps(pm0[i].0)[k];
                    assert(visited@.contains(x));
                } else {
                    let p = package_info;
                    let d = all_deps(p)[k];
                    let nd = p.dependencies@.len();
                    let dd = p.dev_dependencies@.len();
                    let (kind, kk) = if k < nd {
                        (DependencyKind::Normal, k)
                    } else if k < nd + dd {
                        (DependencyKind::Development, k - nd)
                    } else {
                        (DependencyKind::Build, k - nd - dd)
                    };
                    let seq_k = deps_of_kind(inc, g.packages(), kind);
                    assert(seq_k[kk] == d);
                    let j = choose|j: int| #![trigger inc[j]] 0 <= j < inc.len() && seq_k[kk] == g.packages()[inc[j].0 as int];
                    assert(visited@.contains(inc[j].0));
                    assert(all_deps(p) =~= p.dependencies@ + p.dev_dependencies@ + p.build_dependencies@);
                }
            }
            assert forall|x: usize| #[trigger] visited@.contains(x) implies indices@.contains(x) || exists|i: int|
                0 <= i < package_metrics@.len() && package_metrics@[i].0.id == g.packages()[x as int] by {
                if x == index {
                    assert(package_metrics@[pm0.len() as int].0.id == g.packages()[x as int]);
                } else if v0.contains(x) {
                    if ix0.contains(x) {
                        let k = choose|k: int| 0 <= k < ix0.len() && ix0[k] == x;
                        if k == ix0.len() - 1 {
                            assert(ix0[k] == index);
                        } else {
                            assert(base[k] == ix0[k]);
                            assert(indices@[k] == x);
                        }
                    } else {
                        let i = choose|i: int| 0 <= i < pm0.len() && pm0[i].0.id == g.packages()[x as int];
                        assert(package_metrics@[i] == pm0[i]);
                    }
                }
            }
            if pm0.len() == 0 {
                assert(index == root_index);
                assert(g.packages()[root_index as int] == root_package_id);
            } else {
                assert(package_metrics@[0] == pm0[0]);
            }
            assert(visited@.len() <= n) by {
                lemma_indices_bound(visited@, n as int);
            }
            // the walk took the pending node `index` and followed its edges
            assert(v0.len() <= n);
            assert(fuel > 0);
            assert(ix0.last() == index);
            assert(ix0.drop_last() == base);
            assert(inc.take(inc.len() as int) =~= inc);
            let next = push_new(base, v0, inc);
            assert(indices@ == next.0 && visited@ == next.1);
            assert(walk_ids(g, ix0, v0, fuel) == seq![g.packages()[index as int]] + walk_ids(
                g,
                indices@,
                visited@,
                (fuel - 1) as nat,
            ));
            assert(entry_ids(package_metrics@) =~= entry_ids(pm0).push(package_id));
            assert(entry_ids(package_metrics@) + walk_ids(g, indices@, visited@, (fuel - 1) as nat)
                =~= entry_ids(pm0) + walk_ids(g, ix0, v0, fuel));
            fuel = (fuel - 1) as nat;
        }
    }
    proof {
        assert(entry_ids(package_metrics@) + walk_ids(g, indices@, visited@, fuel) =~= entry_ids(
            package_metrics@,
        ));
        assert forall|i: int, k: int|
            #![trigger all_deps(package_metrics@[i].0)[k]]
            0 <= i < package_metrics@.len() && 0 <= k < all_deps(package_metrics@[i].0).len() implies has_entry(package_metrics@, all_deps(package_metrics@[i].0)[k]) by {
            assert(dep_visited(g, visited@, all_deps(package_metrics@[i].0)[k]));
            let x = choose|x: usize| #[trigger] visited@.contains(x) && g.packages()[x as int] == all_deps(package_metrics@[i].0)[k];
            assert(visited@.contains(x));
            let j = choose|j: int| 0 <= j < package_metrics@.len() && package_metrics@[j].0.id == g.packages()[x as int];
            assert(package_metrics@[j].0.id == all_deps(package_metrics@[i].0)[k]);
        }
    }
    package_metrics
}


/// What a walk through the packages of the tree from the root gives: the
/// root first, the packages in the order of the walk, a correct entry for
/// each package, and an entry for each dependency of an entry.
pub open spec fn is_package_walk(
    g: PackageGraph,
    ctx: Map<u64, PackageMetrics>,
    root: u64,
    r: Seq<(PackageInfo, Option<&PackageMetrics>)>,
) -> bool {
    &&& r.len() >= 1
    &&& r[0].0.id == root
    &&& entry_ids(r) == package_walk_ids(g, root)
    &&& forall|i: int| 0 <= i < r.len() ==> entry_is(g, ctx, #[trigger] r[i])
    &&& forall|i: int, k: int|
        #![trigger all_deps(r[i].0)[k]]
        0 <= i < r.len() && 0 <= k < all_deps(r[i].0).len() ==> has_entry(r, all_deps(r[i].0)[k])
}

/// The statistics of a package with the given files.
pub open spec fn stats_of(m: PackageMetrics, rs: Set<u64>) -> UnsafeInfo {
    UnsafeInfo {
        used: summed_block(m.rs_path_to_metrics@, m.rs_path_to_metrics@.dom().intersect(rs)),
        unused: summed_block(m.rs_path_to_metrics@, m.rs_path_to_metrics@.dom().difference(rs)),
        forbids_unsafe: entry_points_forbid_unsafe(m.rs_path_to_metrics@),
    }
}

/// The report entries of the entries with statistics, in order.
pub open spec fn report_packages(pm: Seq<(PackageInfo, Option<&PackageMetrics>)>, rs: Set<u64>) -> Seq<ReportEntry>
    decreases pm.len(),
{
    if pm.len() == 0 {
        Seq::empty()
    } else {
        let rest = report_packages(pm.drop_last(), rs);
        match pm.last().1 {
            Some(m) => rest.push(ReportEntry { package: pm.last().0, unsafety: stats_of(*m, rs) }),
            None => rest,
        }
    }
}

/// The quick report entries of the entries with statistics, in order.
pub open spec fn quick_report_packages(pm: Seq<(PackageInfo, Option<&PackageMetrics>)>) -> Seq<QuickReportEntry>
    decreases pm.len(),
{
    if pm.len() == 0 {
        Seq::empty()
    } else {
        let rest = quick_report_packages(pm.drop_last());
        match pm.last().1 {
            Some(m) => rest.push(QuickReportEntry { package: pm.last().0, forbids_unsafe: all_files_forbid(m.rs_path_to_metrics@) }),
            None => rest,
        }
    }
}

/// The packages of the entries without statistics, in order.
pub open spec fn ids_without_metrics(pm: Seq<(PackageInfo, Option<&PackageMetrics>)>) -> Seq<u64>
    decreases pm.len(),
{
    if pm.len() == 0 {
        Seq::empty()
    } else {
        let rest = ids_without_metrics(pm.drop_last());
        match pm.last().1 {
            Some(_) => rest,
            None => rest.push(pm.last().0.id),
        }
    }
}

/// The report of the default scan: an entry with its statistics for each
/// package of the tree that has statistics, the packages without, and the
/// files used by the build that were never scanned.
pub fn scan_to_report(
    graph: &PackageGraph,
    root_package_id: u64,
    geiger_context: &GeigerContext,
    rs_files_used: &HashSet<u64>,
) -> (r: SafetyReport)
    requires
        graph.wf(),
        graph.nodes@.contains_key(root_package_id),
        forall|k: u64| #[trigger] geiger_context.package_id_to_metrics@.contains_key(k) ==> sums_fit(
            geiger_context.package_id_to_metrics@[k].rs_path_to_metrics@,
        ),
    ensures
        exists|pm: Seq<(PackageInfo, Option<&PackageMetrics>)>|
            is_package_walk(*graph, geiger_context.package_id_to_metrics@, root_package_id, pm)
                && r.packages@ == report_packages(pm, rs_files_used@)
                && r.packages_without_metrics@ == ids_without_metrics(pm),
        r.used_but_not_scanned_files@.no_duplicates(),
        r.used_but_not_scanned_files@.to_set() == rs_files_used@.difference(
            scanned_keys(geiger_context.package_id_to_metrics@),
        ),
{
    let ghost ctx = geiger_context.package_id_to_metrics@;
    let mut pm = package_metrics(geiger_context, graph, root_package_id);
    let ghost all = pm@;
    let mut packages: Vec<ReportEntry> = Vec::new();
    let mut packages_without_metrics: Vec<u64> = Vec::new();
    let mut i: usize = 0;
    proof {
        assert(all.take(0) =~= Seq::<(PackageInfo, Option<&PackageMetrics>)>::empty());
        assert(all.skip(0) =~= all);
        assert(all.len() == pm.len());
    }
    while pm.len() > 0
        invariant
            i <= all.len(),
            all.len() <= usize::MAX,
            pm@ == all.skip(i as int),
            ctx == geiger_context.package_id_to_metrics@,
            forall|j: int| 0 <= j < all.len() ==> entry_is(*graph, ctx, #[trigger] all[j]),
            forall|k: u64| #[trigger] ctx.contains_key(k) ==> sums_fit(ctx[k].rs_path_to_metrics@),
            packages@ == report_packages(all.take(i as int), rs_files_used@),
            packages_without_metrics@ == ids_without_metrics(all.take(i as int)),
        decreases pm.len(),
    {
        let (package, pack_metrics) = pm.remove(0);
        proof {
            assert(all[i as int] == all.skip(i as int)[0]);
            assert(pm@ =~= all.skip(i + 1));
            let t = all.take(i + 1);
            assert(t.drop_last() =~= all.take(i as int));
            assert(t.last() == all[i as int]);
            assert(entry_is(*graph, ctx, all[i as int]));
        }
        match pack_metrics {
            None => {
                packages_without_metrics.push(package.id);
            },
            Some(m) => {
                proof {
                    assert(ctx.contains_key(package.id));
                }
                let unsafety = unsafe_stats(m, rs_files_used);
                packages.push(ReportEntry { package, unsafety });
            },
        }
        i = i + 1;
    }
    proof {
        assert(all.take(i as int) =~= all);
    }
    let used_but_not_scanned_files = list_files_used_but_not_scanned(geiger_context, rs_files_used);
    SafetyReport { packages, packages_without_metrics, used_but_not_scanned_files }
}

/// The report of the scan for packages that forbid `unsafe`: for each
/// package of the tree that has statistics, whether all its files forbid
/// unsafe code, and the packages without statistics.
pub fn scan_forbid_to_report(
    graph: &PackageGraph,
    root_package_id: u64,
    geiger_context: &GeigerContext,
) -> (r: QuickSafetyReport)
    requires
        graph.wf(),
        graph.nodes@.contains_key(root_package_id),
    ensures
        exists|pm: Seq<(PackageInfo, Option<&PackageMetrics>)>|
            is_package_walk(*graph, geiger_context.package_id_to_metrics@, root_package_id, pm)
                && r.packages@ == quick_report_packages(pm)
                && r.packages_without_metrics@ == ids_without_metrics(pm),
{
    let ghost ctx = geiger_context.package_id_to_metrics@;
    let mut pm = package_metrics(geiger_context, graph, root_package_id);
    let ghost all = pm@;
    let mut packages: Vec<QuickReportEntry> = Vec::new();
    let mut packages_without_metrics: Vec<u64> = Vec::new();
    let mut i: usize = 0;
    proof {
        assert(all.take(0) =~= Seq::<(PackageInfo, Option<&PackageMetrics>)>::empty());
        assert(all.skip(0) =~= all);
        assert(all.len() == pm.len());
    }
    while pm.len() > 0
        invariant
            i <= all.len(),
            all.len() <= usize::MAX,
            pm@ == all.skip(i as int),
            packages@ == quick_report_packages(all.take(i as int)),
            packages_without_metrics@ == ids_without_metrics(all.take(i as int)),
        decreases pm.len(),
    {
        let (package, pack_metrics) = pm.remove(0);
        proof {
            assert(all[i as int] == all.skip(i as int)[0]);
            assert(pm@ =~= all.skip(i + 1));
            let t = all.take(i + 1);
            assert(t.drop_last() =~= all.take(i as int));
            assert(t.last() == all[i as int]);
        }
        match pack_metrics {
            None => {
                packages_without_metrics.push(package.id);
            },
            Some(m) => {
                let forbids_unsafe = package_forbids_unsafe(m);
                packages.push(QuickReportEntry { package, forbids_unsafe });
            },
        }
        i = i + 1;
    }
    proof {
        assert(all.take(i as int) =~= all);
    }
    QuickSafetyReport { packages, packages_without_metrics }
}

} // verus!
