//! The dependency tree as text lines: a line for each package and a header
//! for each group of extra dependencies, each with the vines that draw the
//! tree in front of it.

use vstd::prelude::*;
use std::collections::HashSet;
use crate::format::{
    get_tree_symbols_for_output_format, symbols_are, Charset, OutputFormat, Prefix, TreeSymbols,
};
use crate::format::print_config::PrintConfig;
use crate::graph::{code_kind, graph_edges_directed, incident, EdgeDirection, PackageGraph};
use crate::report::DependencyKind;
use crate::text::{decimal, push_decimal};

verus! {

broadcast use vstd::std_specs::hash::group_hash_axioms;

/// A line of the dependency tree.
#[derive(Clone, Debug, PartialEq, Eq)]
pub enum TextTreeLine {
    /// A line for a package.
    Package { id: u64, tree_vines: String },
    /// A header before a group of extra dependencies, such as
    /// `[build-dependencies]`.
    ExtraDepsGroup { kind: DependencyKind, tree_vines: String },
}

/// A line of the dependency tree, by its text.
pub enum TextTreeLineView {
    Package { id: u64, tree_vines: Seq<char> },
    ExtraDepsGroup { kind: DependencyKind, tree_vines: Seq<char> },
}

impl View for TextTreeLine {
    type V = TextTreeLineView;

    open spec fn view(&self) -> TextTreeLineView {
        match self {
            TextTreeLine::Package { id, tree_vines } => TextTreeLineView::Package {
                id: *id,
                tree_vines: tree_vines@,
            },
            TextTreeLine::ExtraDepsGroup { kind, tree_vines } => TextTreeLineView::ExtraDepsGroup {
                kind: *kind,
                tree_vines: tree_vines@,
            },
        }
    }
}

/// The lines of a tree, by their text.
pub open spec fn lines_view(lines: Seq<TextTreeLine>) -> Seq<TextTreeLineView> {
    lines.map_values(|l: TextTreeLine| l@)
}

// ---------------------------------------------------------------------------
// Vines

/// The character set of the tree symbols of an output format.
pub open spec fn charset_of(output_format: OutputFormat) -> Charset {
    if output_format == OutputFormat::Ascii {
        Charset::Ascii
    } else {
        Charset::Utf8
    }
}

/// The vertical line.
pub open spec fn down_symbol(c: Charset) -> Seq<char> {
    match c {
        Charset::Utf8 => "│"@,
        Charset::Ascii => "|"@,
    }
}

/// The branch to an entry that has siblings after it.
pub open spec fn tee_symbol(c: Charset) -> Seq<char> {
    match c {
        Charset::Utf8 => "├"@,
        Charset::Ascii => "|"@,
    }
}

/// The branch to the last entry.
pub open spec fn ell_symbol(c: Charset) -> Seq<char> {
    match c {
        Charset::Utf8 => "└"@,
        Charset::Ascii => "`"@,
    }
}

/// The horizontal line.
pub open spec fn right_symbol(c: Charset) -> Seq<char> {
    match c {
        Charset::Utf8 => "─"@,
        Charset::Ascii => "-"@,
    }
}

proof fn lemma_symbols(t: TreeSymbols, c: Charset)
    requires
        symbols_are(t, c),
    ensures
        t.down@ == down_symbol(c),
        t.tee@ == tee_symbol(c),
        t.ell@ == ell_symbol(c),
        t.right@ == right_symbol(c),
{
}

/// The vines that continue past a line: for each level above, a vertical
/// line where more entries follow on that level, a space where none do,
/// and three spaces.
pub open spec fn continue_vines(levels: Seq<bool>, down: Seq<char>) -> Seq<char>
    decreases levels.len(),
{
    if levels.len() == 0 {
        Seq::empty()
    } else {
        continue_vines(levels.drop_last(), down) + (if levels.last() {
            down
        } else {
            " "@
        }) + "   "@
    }
}

/// The vines of the levels above a line are four characters per level,
/// from the outermost level in: a vertical line where more entries follow
/// on that level, a space where none do, then three spaces.
pub proof fn law_continue_vines_per_level(levels: Seq<bool>, down: Seq<char>, k: int)
    requires
        down.len() == 1,
        0 <= k < levels.len(),
    ensures
        continue_vines(levels, down).len() == 4 * levels.len(),
        continue_vines(levels, down).subrange(4 * k, 4 * k + 4) == (if levels[k] {
            down
        } else {
            " "@
        }) + "   "@,
    decreases levels.len(),
{
    reveal_strlit(" ");
    reveal_strlit("   ");
    lemma_continue_vines_len(levels.drop_last(), down);
    let head = continue_vines(levels.drop_last(), down);
    let piece = (if levels.last() {
        down
    } else {
        " "@
    }) + "   "@;
    assert(continue_vines(levels, down) == head + piece);
    if k + 1 < levels.len() {
        law_continue_vines_per_level(levels.drop_last(), down, k);
        assert((head + piece).subrange(4 * k, 4 * k + 4) =~= head.subrange(4 * k, 4 * k + 4));
    } else {
        assert((head + piece).subrange(4 * k, 4 * k + 4) =~= piece);
    }
}

proof fn lemma_continue_vines_len(levels: Seq<bool>, down: Seq<char>)
    requires
        down.len() == 1,
    ensures
        continue_vines(levels, down).len() == 4 * levels.len(),
    decreases levels.len(),
{
    reveal_strlit(" ");
    reveal_strlit("   ");
    if levels.len() > 0 {
        lemma_continue_vines_len(levels.drop_last(), down);
    }
}

/// The text in front of a package at the given levels: its depth and a
/// space for `Depth`; for `Indent` the vines of the levels above and a
/// branch (a tee where siblings follow, an ell for the last one), two
/// horizontal lines and a space; nothing otherwise, nor at the root.
pub open spec fn spec_tree_vines(levels: Seq<bool>, prefix: Prefix, c: Charset) -> Seq<char> {
    match prefix {
        Prefix::Depth => decimal(levels.len()) + " "@,
        Prefix::Indent => if levels.len() == 0 {
            Seq::empty()
        } else {
            continue_vines(levels.drop_last(), down_symbol(c)) + (if levels.last() {
                tee_symbol(c)
            } else {
                ell_symbol(c)
            }) + right_symbol(c) + right_symbol(c) + " "@
        },
        Prefix::NoPrefix => Seq::empty(),
    }
}

/// Appends the continuing vines of the first `n` levels.
fn push_continue_vines(buffer: &mut String, levels: &Vec<bool>, n: usize, tree_symbols: &TreeSymbols)
    requires
        n <= levels.len(),
    ensures
        final(buffer)@ == old(buffer)@ + continue_vines(levels@.take(n as int), tree_symbols.down@),
{
    let ghost c = tree_symbols.down@;
    proof {
        assert(levels@.take(0) =~= Seq::<bool>::empty());
        assert(old(buffer)@ + continue_vines(Seq::<bool>::empty(), c) =~= old(buffer)@);
    }
    let mut i: usize = 0;
    while i < n
        invariant
            i <= n <= levels.len(),
            c == tree_symbols.down@,
            buffer@ == old(buffer)@ + continue_vines(levels@.take(i as int), c),
        decreases n - i,
    {
        let ghost before = buffer@;
        if levels[i] {
            buffer.append(tree_symbols.down);
        } else {
            buffer.append(" ");
        }
        buffer.append("   ");
        proof {
            let t = levels@.take(i + 1);
            assert(t.drop_last() =~= levels@.take(i as int));
            assert(t.last() == levels@[i as int]);
            assert(buffer@ =~= old(buffer)@ + continue_vines(t, c));
        }
        i = i + 1;
    }
}

/// The vines in front of a package line at the given levels.
pub fn construct_tree_vines_string(levels_continue: &Vec<bool>, print_config: &PrintConfig) -> (r:
    String)
    ensures
        r@ == spec_tree_vines(
            levels_continue@,
            print_config.prefix,
            charset_of(print_config.output_format),
        ),
{
    let tree_symbols = get_tree_symbols_for_output_format(print_config.output_format);
    let ghost c = charset_of(print_config.output_format);
    proof {
        lemma_symbols(tree_symbols, c);
    }
    match print_config.prefix {
        Prefix::Depth => {
            let mut s = String::new();
            push_decimal(&mut s, levels_continue.len() as u64);
            s.append(" ");
            proof {
                assert(s@ =~= decimal(levels_continue@.len()) + " "@);
            }
            s
        },
        Prefix::Indent => {
            let mut buffer = String::new();
            let n = levels_continue.len();
            if n > 0 {
                push_continue_vines(&mut buffer, levels_continue, n - 1, &tree_symbols);
                if levels_continue[n - 1] {
                    buffer.append(tree_symbols.tee);
                } else {
                    buffer.append(tree_symbols.ell);
                }
                buffer.append(tree_symbols.right);
                buffer.append(tree_symbols.right);
                buffer.append(" ");
                proof {
                    assert(levels_continue@.take(n - 1) =~= levels_continue@.drop_last());
                    assert(buffer@ =~= spec_tree_vines(levels_continue@, Prefix::Indent, c));
                }
            } else {
                proof {
                    assert(buffer@ =~= Seq::<char>::empty());
                }
            }
            buffer
        },
        Prefix::NoPrefix => {
            let s = String::new();
            proof {
                assert(s@ =~= Seq::<char>::empty());
            }
            s
        },
    }
}

/// Before a group of extra dependencies, a header line with the vines of
/// the levels above; nothing before normal dependencies.
pub fn push_extra_deps_group_text_tree_line_for_non_normal_dependencies(
    dep_kind: DependencyKind,
    levels_continue: &Vec<bool>,
    tree_symbols: &TreeSymbols,
    text_tree_lines: &mut Vec<TextTreeLine>,
)
    ensures
        lines_view(final(text_tree_lines)@) == lines_view(old(text_tree_lines)@) + if dep_kind
            == DependencyKind::Normal {
            Seq::<TextTreeLineView>::empty()
        } else {
            seq![
                TextTreeLineView::ExtraDepsGroup {
                    kind: dep_kind,
                    tree_vines: continue_vines(levels_continue@, tree_symbols.down@),
                },
            ]
        },
{
    match dep_kind {
        DependencyKind::Normal => {
            proof {
                assert(lines_view(text_tree_lines@) =~= lines_view(text_tree_lines@)
                    + Seq::<TextTreeLineView>::empty());
            }
        },
        _ => {
            let mut tree_vines = String::new();
            push_continue_vines(
                &mut tree_vines,
                levels_continue,
                levels_continue.len(),
                tree_symbols,
            );
            proof {
                assert(levels_continue@.take(levels_continue@.len() as int) =~= levels_continue@);
            }
            let ghost before = text_tree_lines@;
            text_tree_lines.push(TextTreeLine::ExtraDepsGroup { kind: dep_kind, tree_vines });
            proof {
                assert(lines_view(text_tree_lines@) =~= lines_view(before) + seq![
                    TextTreeLineView::ExtraDepsGroup {
                        kind: dep_kind,
                        tree_vines: continue_vines(levels_continue@, tree_symbols.down@),
                    },
                ]);
            }
        },
    }
}


// ---------------------------------------------------------------------------
// The dependencies of a package, by kind

/// `x` inserted before the first element that is not smaller.
pub open spec fn insert_sorted(s: Seq<u64>, x: u64) -> Seq<u64>
    decreases s.len(),
{
    if s.len() == 0 {
        seq![x]
    } else if x <= s[0] {
        seq![x] + s
    } else {
        seq![s[0]] + insert_sorted(s.drop_first(), x)
    }
}

/// The keys in ascending order (insertion sort).
pub open spec fn sort_keys(s: Seq<u64>) -> Seq<u64>
    decreases s.len(),
{
    if s.len() == 0 {
        s
    } else {
        insert_sorted(sort_keys(s.drop_last()), s.last())
    }
}

/// Where the first `j` elements are smaller than `x` and the next one, if
/// any, is not, inserting `x` puts it at `j`.
proof fn lemma_insert_sorted_at(s: Seq<u64>, x: u64, j: int)
    requires
        0 <= j <= s.len(),
        forall|k: int| 0 <= k < j ==> s[k] < x,
        j < s.len() ==> x <= s[j],
    ensures
        insert_sorted(s, x) == s.take(j) + seq![x] + s.skip(j),
    decreases s.len(),
{
    if s.len() == 0 {
        assert(s.take(j) + seq![x] + s.skip(j) =~= seq![x]);
    } else if j == 0 {
        assert(s.take(j) + seq![x] + s.skip(j) =~= seq![x] + s);
    } else {
        lemma_insert_sorted_at(s.drop_first(), x, j - 1);
        assert(s.take(j) + seq![x] + s.skip(j) =~= seq![s[0]] + (s.drop_first().take(j - 1)
            + seq![x] + s.drop_first().skip(j - 1)));
    }
}

/// Inserting keeps the elements and adds `x` once.
proof fn lemma_insert_sorted_elements(s: Seq<u64>, x: u64)
    ensures
        insert_sorted(s, x).len() == s.len() + 1,
        insert_sorted(s, x).to_multiset() == s.to_multiset().insert(x),
    decreases s.len(),
{
    broadcast use vstd::seq_lib::group_seq_properties;
    broadcast use vstd::multiset::group_multiset_axioms;

    if s.len() == 0 {
        assert(seq![x] =~= Seq::<u64>::empty().push(x));
        assert(s =~= Seq::<u64>::empty());
    } else if x <= s[0] {
        vstd::seq_lib::lemma_multiset_commutative(seq![x], s);
        assert(seq![x] =~= Seq::<u64>::empty().push(x));
    } else {
        lemma_insert_sorted_elements(s.drop_first(), x);
        vstd::seq_lib::lemma_multiset_commutative(seq![s[0]], insert_sorted(s.drop_first(), x));
        vstd::seq_lib::lemma_multiset_commutative(seq![s[0]], s.drop_first());
        assert(seq![s[0]] + s.drop_first() =~= s);
        assert(seq![s[0]] =~= Seq::<u64>::empty().push(s[0]));
    }
}

/// Sorting keeps the elements.
pub proof fn lemma_sort_keys_elements(s: Seq<u64>)
    ensures
        sort_keys(s).len() == s.len(),
        sort_keys(s).to_multiset() == s.to_multiset(),
    decreases s.len(),
{
    broadcast use vstd::seq_lib::group_seq_properties;

    if s.len() > 0 {
        lemma_sort_keys_elements(s.drop_last());
        lemma_insert_sorted_elements(sort_keys(s.drop_last()), s.last());
        assert(s.drop_last().push(s.last()) =~= s);
    }
}

/// An element of the sorted keys is one of the keys.
pub proof fn lemma_sort_keys_contains(s: Seq<u64>, x: u64)
    requires
        sort_keys(s).contains(x),
    ensures
        s.contains(x),
{
    broadcast use vstd::seq_lib::group_seq_properties;
    broadcast use vstd::multiset::group_multiset_axioms;

    lemma_sort_keys_elements(s);
    assert(sort_keys(s).to_multiset().count(x) > 0);
}

/// Inserts `x` into the ordered keys `v` before the first key that is not
/// smaller.
fn insert_key(v: &mut Vec<u64>, x: u64)
    ensures
        final(v)@ == insert_sorted(old(v)@, x),
{
    let mut j: usize = 0;
    while j < v.len() && v[j] < x
        invariant
            j <= v.len(),
            v@ == old(v)@,
            forall|k: int| 0 <= k < j ==> v@[k] < x,
        decreases v.len() - j,
    {
        j = j + 1;
    }
    proof {
        lemma_insert_sorted_at(v@, x, j as int);
    }
    v.insert(j, x);
    proof {
        assert(v@ =~= old(v)@.take(j as int) + seq![x] + old(v)@.skip(j as int));
    }
}

/// Sorts the keys in ascending order.
pub fn sort_keys_in_place(v: &mut Vec<u64>)
    ensures
        final(v)@ == sort_keys(old(v)@),
{
    let mut sorted: Vec<u64> = Vec::new();
    let mut i: usize = 0;
    proof {
        assert(old(v)@.take(0) =~= Seq::<u64>::empty());
    }
    while i < v.len()
        invariant
            i <= v.len(),
            v@ == old(v)@,
            sorted@ == sort_keys(v@.take(i as int)),
        decreases v.len() - i,
    {
        insert_key(&mut sorted, v[i]);
        proof {
            let t = v@.take(i + 1);
            assert(t.drop_last() =~= v@.take(i as int));
            assert(t.last() == v@[i as int]);
        }
        i = i + 1;
    }
    proof {
        assert(v@.take(v@.len() as int) =~= v@);
    }
    *v = sorted;
}

/// The packages at the other ends of the edges whose weight is the code of
/// `kind`, in the order of the edges.
pub open spec fn deps_of_kind(inc: Seq<(usize, u8)>, packages: Seq<u64>, kind: DependencyKind) -> Seq<
    u64,
>
    decreases inc.len(),
{
    if inc.len() == 0 {
        Seq::empty()
    } else {
        let rest = deps_of_kind(inc.drop_last(), packages, kind);
        if code_kind(inc.last().1) == kind {
            rest.push(packages[inc.last().0 as int])
        } else {
            rest
        }
    }
}

/// The packages next to a package in the direction, along edges of the
/// kind, in ascending order.
pub open spec fn kind_deps(g: PackageGraph, pkg: u64, dir: EdgeDirection, kind: DependencyKind) -> Seq<
    u64,
> {
    sort_keys(deps_of_kind(incident(g.edges(), g.nodes@[pkg], dir), g.packages(), kind))
}

/// The packages next to a package in the direction, split by the kind of
/// the edge into normal, build and development dependencies, each in the
/// order of the edges.
pub fn construct_dependency_type_nodes(graph: &PackageGraph, package: u64, direction: EdgeDirection) -> (r: (
    Vec<u64>,
    Vec<u64>,
    Vec<u64>,
))
    requires
        graph.wf(),
        graph.nodes@.contains_key(package),
    ensures
        r.0@ == deps_of_kind(
            incident(graph.edges(), graph.nodes@[package], direction),
            graph.packages(),
            DependencyKind::Normal,
        ),
        r.1@ == deps_of_kind(
            incident(graph.edges(), graph.nodes@[package], direction),
            graph.packages(),
            DependencyKind::Build,
        ),
        r.2@ == deps_of_kind(
            incident(graph.edges(), graph.nodes@[package], direction),
            graph.packages(),
            DependencyKind::Development,
        ),
{
    let index = *graph.nodes.get(&package).unwrap();
    let edges = graph_edges_directed(&graph.graph, index, direction);
    let ghost inc = edges@;
    proof {
        lemma_incident_ends(graph.edges(), index, direction, graph.packages().len());
    }
    let mut normal: Vec<u64> = Vec::new();
    let mut build: Vec<u64> = Vec::new();
    let mut development: Vec<u64> = Vec::new();
    let mut i: usize = 0;
    proof {
        assert(inc.take(0) =~= Seq::<(usize, u8)>::empty());
    }
    while i < edges.len()
        invariant
            graph.wf(),
            edges@ == inc,
            inc == incident(graph.edges(), index, direction),
            forall|j: int| 0 <= j < inc.len() ==> (#[trigger] inc[j]).0 < graph.packages().len(),
            i <= edges.len(),
            normal@ == deps_of_kind(inc.take(i as int), graph.packages(), DependencyKind::Normal),
            build@ == deps_of_kind(inc.take(i as int), graph.packages(), DependencyKind::Build),
            development@ == deps_of_kind(
                inc.take(i as int),
                graph.packages(),
                DependencyKind::Development,
            ),
        decreases edges.len() - i,
    {
        let (other, weight) = edges[i];
        assert(inc[i as int].0 < graph.packages().len());
        let dependency = crate::graph::graph_node_weight(&graph.graph, other);
        let kind = crate::graph::code_to_kind(weight);
        match kind {
            DependencyKind::Normal => normal.push(dependency),
            DependencyKind::Build => build.push(dependency),
            DependencyKind::Development => development.push(dependency),
        }
        proof {
            let t = inc.take(i + 1);
            assert(t.drop_last() =~= inc.take(i as int));
            assert(t.last() == inc[i as int]);
        }
        i = i + 1;
    }
    proof {
        assert(inc.take(inc.len() as int) =~= inc);
    }
    (normal, build, development)
}

/// The edge that a direction leaves a node by: its source when going out,
/// its target when going in.
pub open spec fn edge_from(e: (usize, usize, u8), dir: EdgeDirection) -> usize {
    match dir {
        EdgeDirection::Outgoing => e.0,
        EdgeDirection::Incoming => e.1,
    }
}

/// The node that a direction reaches by an edge.
pub open spec fn edge_to(e: (usize, usize, u8), dir: EdgeDirection) -> usize {
    match dir {
        EdgeDirection::Outgoing => e.1,
        EdgeDirection::Incoming => e.0,
    }
}

/// Some edge leaves node `n` in the direction towards node `o`, with
/// weight `w`.
pub open spec fn has_edge(edges: Seq<(usize, usize, u8)>, n: usize, dir: EdgeDirection, o: usize, w: u8) -> bool {
    exists|e: int|
        #![trigger edges[e]]
        0 <= e < edges.len() && edge_from(edges[e], dir) == n && edge_to(edges[e], dir) == o
            && edges[e].2 == w
}

/// Each entry of the edges at a node comes from an edge that leaves the
/// node in the direction, and its other end is below the bound that all
/// ends are below.
pub proof fn lemma_incident_ends(edges: Seq<(usize, usize, u8)>, n: usize, dir: EdgeDirection, bound: nat)
    requires
        forall|e: int|
            0 <= e < edges.len() ==> (#[trigger] edges[e]).0 < bound && edges[e].1 < bound,
    ensures
        forall|j: int|
            0 <= j < incident(edges, n, dir).len() ==> (#[trigger] incident(edges, n, dir)[j]).0
                < bound && has_edge(edges, n, dir, incident(edges, n, dir)[j].0, incident(edges, n, dir)[j].1),
    decreases edges.len(),
{
    if edges.len() > 0 {
        let rest = edges.drop_last();
        lemma_incident_ends(rest, n, dir, bound);
        let inc = incident(edges, n, dir);
        let inc_rest = incident(rest, n, dir);
        let last = edges.last();
        assert(edges[edges.len() - 1] == last);
        assert forall|j: int| 0 <= j < inc.len() implies (#[trigger] inc[j]).0 < bound && has_edge(edges, n, dir, inc[j].0, inc[j].1) by {
            let k = if edge_from(last, dir) == n { j - 1 } else { j };
            if edge_from(last, dir) == n && j == 0 {
                assert(inc[0] == (edge_to(last, dir), last.2));
            } else {
                assert(inc[j] == inc_rest[k]);
                assert(has_edge(rest, n, dir, inc_rest[k].0, inc_rest[k].1));
                let e = choose|e: int|
                    #![trigger rest[e]]
                    0 <= e < rest.len() && edge_from(rest[e], dir) == n && edge_to(rest[e], dir)
                        == inc_rest[k].0 && rest[e].2 == inc_rest[k].1;
                assert(edges[e] == rest[e]);
            }
        }
    }
}


// ---------------------------------------------------------------------------
// The walk

/// The line of a package at the given levels.
pub open spec fn package_line(cfg: PrintConfig, pkg: u64, levels: Seq<bool>) -> TextTreeLineView {
    TextTreeLineView::Package {
        id: pkg,
        tree_vines: spec_tree_vines(levels, cfg.prefix, charset_of(cfg.output_format)),
    }
}

/// The header before a group of dependencies of the kind: only with
/// indented output, and only for extra dependencies.
pub open spec fn group_header(cfg: PrintConfig, kind: DependencyKind, levels: Seq<bool>) -> Seq<
    TextTreeLineView,
> {
    if cfg.prefix == Prefix::Indent && kind != DependencyKind::Normal {
        seq![
            TextTreeLineView::ExtraDepsGroup {
                kind,
                tree_vines: continue_vines(levels, down_symbol(charset_of(cfg.output_format))),
            },
        ]
    } else {
        Seq::empty()
    }
}

/// The lines of the walk from a package, and the packages visited after
/// it. The package gets its line. It is expanded when every occurrence is
/// shown (`all`) or when it was not visited before, and then come its
/// normal, build and development dependencies, in turn. `fuel` bounds the
/// depth; where it runs out a package is not expanded.
pub open spec fn walk_node(
    g: PackageGraph,
    cfg: PrintConfig,
    pkg: u64,
    visited: Set<u64>,
    levels: Seq<bool>,
    fuel: nat,
) -> (Seq<TextTreeLineView>, Set<u64>)
    decreases fuel, 0nat, 0int,
{
    let new = cfg.all || !visited.contains(pkg);
    let v0 = if cfg.all {
        visited
    } else {
        visited.insert(pkg)
    };
    let line = package_line(cfg, pkg, levels);
    if !new || fuel == 0 {
        (seq![line], v0)
    } else {
        let f = (fuel - 1) as nat;
        let dir = cfg.direction;
        let (a, v1) = walk_kind(
            g,
            cfg,
            DependencyKind::Normal,
            kind_deps(g, pkg, dir, DependencyKind::Normal),
            v0,
            levels,
            f,
        );
        let (b, v2) = walk_kind(
            g,
            cfg,
            DependencyKind::Build,
            kind_deps(g, pkg, dir, DependencyKind::Build),
            v1,
            levels,
            f,
        );
        let (c, v3) = walk_kind(
            g,
            cfg,
            DependencyKind::Development,
            kind_deps(g, pkg, dir, DependencyKind::Development),
            v2,
            levels,
            f,
        );
        (seq![line] + a + b + c, v3)
    }
}

/// The lines of the walk through the dependencies of one kind: nothing
/// where there are none, else the group header and the walk from each.
pub open spec fn walk_kind(
    g: PackageGraph,
    cfg: PrintConfig,
    kind: DependencyKind,
    deps: Seq<u64>,
    visited: Set<u64>,
    levels: Seq<bool>,
    fuel: nat,
) -> (Seq<TextTreeLineView>, Set<u64>)
    decreases fuel, 2nat, 0int,
{
    if deps.len() == 0 {
        (Seq::empty(), visited)
    } else {
        let (l, v) = walk_list(g, cfg, deps, 0, visited, levels, fuel);
        (group_header(cfg, kind, levels) + l, v)
    }
}

/// The lines of the walks from the dependencies from position `i` on, each
/// one level deeper, the level marked as continued where more follow.
pub open spec fn walk_list(
    g: PackageGraph,
    cfg: PrintConfig,
    deps: Seq<u64>,
    i: int,
    visited: Set<u64>,
    levels: Seq<bool>,
    fuel: nat,
) -> (Seq<TextTreeLineView>, Set<u64>)
    decreases fuel, 1nat, deps.len() - i,
{
    if i < 0 || i >= deps.len() {
        (Seq::empty(), visited)
    } else {
        let (a, v1) = walk_node(g, cfg, deps[i], visited, levels.push(i + 1 < deps.len()), fuel);
        let (b, v2) = walk_list(g, cfg, deps, i + 1, v1, levels, fuel);
        (a + b, v2)
    }
}

/// The walk from a package starts with the line of that package at its
/// levels.
pub proof fn law_walk_starts_with_package_line(
    g: PackageGraph,
    cfg: PrintConfig,
    pkg: u64,
    visited: Set<u64>,
    levels: Seq<bool>,
    fuel: nat,
)
    ensures
        walk_node(g, cfg, pkg, visited, levels, fuel).0.len() > 0,
        walk_node(g, cfg, pkg, visited, levels, fuel).0[0] == package_line(cfg, pkg, levels),
{
}

/// Among the dependencies of one kind, sorted, the one at position `i`
/// gets its line one level deeper, that level marked as continued exactly
/// when a sibling follows it. With indented output its branch is the tee
/// where a sibling follows and the ell for the last one, after the vines of
/// the levels above.
pub proof fn law_sibling_branch(
    g: PackageGraph,
    cfg: PrintConfig,
    deps: Seq<u64>,
    i: int,
    visited: Set<u64>,
    levels: Seq<bool>,
    fuel: nat,
)
    requires
        0 <= i < deps.len(),
    ensures
        walk_list(g, cfg, deps, i, visited, levels, fuel).0.len() > 0,
        walk_list(g, cfg, deps, i, visited, levels, fuel).0[0] == package_line(
            cfg,
            deps[i],
            levels.push(i + 1 < deps.len()),
        ),
        cfg.prefix == Prefix::Indent ==> walk_list(g, cfg, deps, i, visited, levels, fuel).0[0]
            == (TextTreeLineView::Package {
            id: deps[i],
            tree_vines: continue_vines(levels, down_symbol(charset_of(cfg.output_format))) + (if i + 1
                < deps.len() {
                tee_symbol(charset_of(cfg.output_format))
            } else {
                ell_symbol(charset_of(cfg.output_format))
            }) + right_symbol(charset_of(cfg.output_format)) + right_symbol(
                charset_of(cfg.output_format),
            ) + " "@,
        }),
{
    let lv = levels.push(i + 1 < deps.len());
    law_walk_starts_with_package_line(g, cfg, deps[i], visited, lv, fuel);
    let (a, v1) = walk_node(g, cfg, deps[i], visited, lv, fuel);
    let (b, v2) = walk_list(g, cfg, deps, i + 1, v1, levels, fuel);
    assert(walk_list(g, cfg, deps, i, visited, levels, fuel).0 == a + b);
    assert((a + b)[0] == a[0]);
    assert(lv.drop_last() =~= levels);
    assert(lv.last() == (i + 1 < deps.len()));
}

/// Along every edge that leaves `reach` in the direction, the other end is
/// in `reach` too and has a lower rank.
pub open spec fn ranked(g: PackageGraph, dir: EdgeDirection, reach: Set<u64>, rank: spec_fn(u64) -> nat) -> bool {
    forall|e: int|
        #![trigger g.edges()[e]]
        0 <= e < g.edges().len() && reach.contains(g.packages()[edge_from(g.edges()[e], dir) as int])
            ==> reach.contains(g.packages()[edge_to(g.edges()[e], dir) as int]) && rank(
            g.packages()[edge_from(g.edges()[e], dir) as int],
        ) > rank(g.packages()[edge_to(g.edges()[e], dir) as int])
}

/// No cycle can be reached from the root in the direction.
pub open spec fn acyclic_from(g: PackageGraph, dir: EdgeDirection, root: u64) -> bool {
    exists|p: (Set<u64>, spec_fn(u64) -> nat)| p.0.contains(root) && ranked(g, dir, p.0, p.1)
}

/// Each element of the dependencies of a kind is the package at the other
/// end of an entry.
pub proof fn lemma_deps_of_kind_members(inc: Seq<(usize, u8)>, packages: Seq<u64>, kind: DependencyKind)
    ensures
        forall|k: int|
            0 <= k < deps_of_kind(inc, packages, kind).len() ==> exists|j: int|
                #![trigger inc[j]]
                0 <= j < inc.len() && (#[trigger] deps_of_kind(inc, packages, kind)[k])
                    == packages[inc[j].0 as int],
    decreases inc.len(),
{
    if inc.len() > 0 {
        let rest = inc.drop_last();
        lemma_deps_of_kind_members(rest, packages, kind);
        let d = deps_of_kind(inc, packages, kind);
        let dr = deps_of_kind(rest, packages, kind);
        assert forall|k: int| 0 <= k < d.len() implies exists|j: int|
            #![trigger inc[j]]
            0 <= j < inc.len() && (#[trigger] d[k]) == packages[inc[j].0 as int] by {
            if k < dr.len() {
                assert(d[k] == dr[k]);
                let j = choose|j: int|
                    #![trigger rest[j]]
                    0 <= j < rest.len() && dr[k] == packages[rest[j].0 as int];
                assert(inc[j] == rest[j]);
            } else {
                assert(inc[inc.len() - 1] == inc.last());
            }
        }
    }
}

/// The dependencies of a package, in the order of the edges.
pub open spec fn edge_deps(g: PackageGraph, pkg: u64, dir: EdgeDirection, kind: DependencyKind) -> Seq<u64> {
    deps_of_kind(incident(g.edges(), g.nodes@[pkg], dir), g.packages(), kind)
}

/// The dependencies of a package are packages of the graph; inside a
/// ranked reach they are in the reach too, ranked below the package.
proof fn lemma_children(
    g: PackageGraph,
    pkg: u64,
    dir: EdgeDirection,
    kind: DependencyKind,
    reach: Set<u64>,
    rank: spec_fn(u64) -> nat,
)
    requires
        g.wf(),
        g.nodes@.contains_key(pkg),
    ensures
        forall|k: int|
            0 <= k < edge_deps(g, pkg, dir, kind).len() ==> g.nodes@.contains_key(
                #[trigger] edge_deps(g, pkg, dir, kind)[k],
            ) && (ranked(g, dir, reach, rank) && reach.contains(pkg) ==> reach.contains(
                edge_deps(g, pkg, dir, kind)[k],
            ) && rank(pkg) > rank(edge_deps(g, pkg, dir, kind)[k])),
{
    let n = g.nodes@[pkg];
    let inc = incident(g.edges(), n, dir);
    let d = deps_of_kind(inc, g.packages(), kind);
    lemma_incident_ends(g.edges(), n, dir, g.packages().len());
    lemma_deps_of_kind_members(inc, g.packages(), kind);
    assert forall|k: int| 0 <= k < d.len() implies g.nodes@.contains_key(
        #[trigger] d[k],
    ) && (ranked(g, dir, reach, rank) && reach.contains(pkg) ==> reach.contains(
        d[k],
    ) && rank(pkg) > rank(d[k])) by {
        let j = choose|j: int|
            #![trigger inc[j]]
            0 <= j < inc.len() && d[k] == g.packages()[inc[j].0 as int];
        assert(inc[j].0 < g.packages().len());
        assert(g.nodes@.contains_key(g.packages()[inc[j].0 as int]));
        assert(has_edge(g.edges(), n, dir, inc[j].0, inc[j].1));
        let e = choose|e: int|
            #![trigger g.edges()[e]]
            0 <= e < g.edges().len() && edge_from(g.edges()[e], dir) == n && edge_to(g.edges()[e], dir)
                == inc[j].0 && g.edges()[e].2 == inc[j].1;
        assert(g.packages()[n as int] == pkg);
    }
}

/// The dependencies of an expanded package are ready for the walk one
/// level deeper, with the package among the ancestors.
proof fn lemma_children_ready(
    g: PackageGraph,
    cfg: PrintConfig,
    pkg: u64,
    visited: Set<u64>,
    ancestors: Seq<u64>,
    reach: Set<u64>,
    rank: spec_fn(u64) -> nat,
    kind: DependencyKind,
)
    requires
        walk_ready(g, cfg, pkg, visited, ancestors, reach, rank),
    ensures
        forall|k: int|
            0 <= k < edge_deps(g, pkg, cfg.direction, kind).len() ==> g.nodes@.contains_key(
                #[trigger] edge_deps(g, pkg, cfg.direction, kind)[k],
            ) && (cfg.all ==> reach.contains(edge_deps(g, pkg, cfg.direction, kind)[k]) && forall|i: int|
                0 <= i < ancestors.push(pkg).len() ==> rank(#[trigger] ancestors.push(pkg)[i]) > rank(
                    edge_deps(g, pkg, cfg.direction, kind)[k],
                )),
{
    lemma_children(g, pkg, cfg.direction, kind, reach, rank);
    let d = edge_deps(g, pkg, cfg.direction, kind);
    let anc = ancestors.push(pkg);
    assert forall|k: int| 0 <= k < d.len() implies g.nodes@.contains_key(#[trigger] d[k]) && (cfg.all
        ==> reach.contains(d[k]) && forall|i: int| 0 <= i < anc.len() ==> rank(#[trigger] anc[i]) > rank(d[k])) by {
        if cfg.all {
            assert forall|i: int| 0 <= i < anc.len() implies rank(#[trigger] anc[i]) > rank(d[k]) by {
                if i < ancestors.len() {
                    assert(anc[i] == ancestors[i]);
                }
            }
        }
    }
}

/// Distinct packages of the graph are no more than its nodes.
proof fn lemma_distinct_packages_bound(g: PackageGraph, s: Seq<u64>)
    requires
        g.wf(),
        s.no_duplicates(),
        forall|i: int| 0 <= i < s.len() ==> g.nodes@.contains_key(#[trigger] s[i]),
    ensures
        s.len() <= g.packages().len(),
{
    let p = g.packages();
    assert(p.no_duplicates()) by {
        assert forall|i: int, j: int| 0 <= i < p.len() && 0 <= j < p.len() && i != j implies p[i]
            != p[j] by {
            assert(g.nodes@.contains_key(p[i]));
            assert(g.nodes@.contains_key(p[j]));
        }
    }
    assert(s.to_set().subset_of(p.to_set())) by {
        assert forall|x: u64| s.to_set().contains(x) implies p.to_set().contains(x) by {
            let i = choose|i: int| 0 <= i < s.len() && s[i] == x;
            assert(g.nodes@.contains_key(s[i]));
            assert(p[g.nodes@[x] as int] == x);
        }
    }
    s.unique_seq_to_set();
    p.unique_seq_to_set();
    vstd::seq_lib::seq_to_set_is_finite(p);
    vstd::set_lib::lemma_len_subset(s.to_set(), p.to_set());
}

/// What the walk from a package needs: the package and its ancestors are
/// packages of the graph, the ancestors distinct; without `all` the
/// ancestors are visited; with `all` the package is in a ranked reach,
/// below each ancestor.
pub open spec fn walk_ready(
    g: PackageGraph,
    cfg: PrintConfig,
    pkg: u64,
    visited: Set<u64>,
    ancestors: Seq<u64>,
    reach: Set<u64>,
    rank: spec_fn(u64) -> nat,
) -> bool {
    &&& g.wf()
    &&& g.nodes@.contains_key(pkg)
    &&& ancestors.no_duplicates()
    &&& forall|i: int| 0 <= i < ancestors.len() ==> g.nodes@.contains_key(#[trigger] ancestors[i])
    &&& !cfg.all ==> forall|i: int| 0 <= i < ancestors.len() ==> visited.contains(#[trigger] ancestors[i])
    &&& cfg.all ==> ranked(g, cfg.direction, reach, rank) && reach.contains(pkg) && forall|i: int|
        0 <= i < ancestors.len() ==> rank(#[trigger] ancestors[i]) > rank(pkg)
}

/// The lines of the tree from a package: its line, then, where it is
/// expanded, the walks through its normal, build and development
/// dependencies.
pub fn walk_dependency_node(
    graph: &PackageGraph,
    print_config: &PrintConfig,
    package: u64,
    visited_deps: &mut HashSet<u64>,
    levels_continue: &mut Vec<bool>,
    Ghost(ancestors): Ghost<Seq<u64>>,
    Ghost(reach): Ghost<Set<u64>>,
    Ghost(rank): Ghost<spec_fn(u64) -> nat>,
) -> (r: Vec<TextTreeLine>)
    requires
        walk_ready(*graph, *print_config, package, old(visited_deps)@, ancestors, reach, rank),
        ancestors.len() == old(levels_continue).len(),
    ensures
        (lines_view(r@), final(visited_deps)@) == walk_node(
            *graph,
            *print_config,
            package,
            old(visited_deps)@,
            old(levels_continue)@,
            (graph.packages().len() - ancestors.len()) as nat,
        ),
        final(levels_continue)@ == old(levels_continue)@,
        old(visited_deps)@.subset_of(final(visited_deps)@),
    decreases graph.packages().len() - ancestors.len(), 1int,
{
    proof {
        lemma_distinct_packages_bound(*graph, ancestors);
    }
    let ghost v_in = visited_deps@;
    let ghost levels = levels_continue@;
    let new = print_config.all || visited_deps.insert(package);
    let tree_vines = construct_tree_vines_string(levels_continue, print_config);
    let ghost line = package_line(*print_config, package, levels);
    let mut all_out: Vec<TextTreeLine> = Vec::new();
    all_out.push(TextTreeLine::Package { id: package, tree_vines });
    proof {
        assert(lines_view(all_out@) =~= seq![line]);
    }
    if !new {
        return all_out;
    }
    let ghost anc = ancestors.push(package);
    let ghost v0 = visited_deps@;
    proof {
        assert(!ancestors.contains(package)) by {
            if ancestors.contains(package) {
                let i = choose|i: int| 0 <= i < ancestors.len() && ancestors[i] == package;
                if print_config.all {
                    assert(rank(ancestors[i]) > rank(package));
                } else {
                    assert(v_in.contains(ancestors[i]));
                }
            }
        }
        assert(anc.no_duplicates()) by {
            assert forall|i: int, j: int| 0 <= i < anc.len() && 0 <= j < anc.len() && i != j implies anc[i]
                != anc[j] by {
                if i < ancestors.len() && j < ancestors.len() {
                    assert(anc[i] == ancestors[i] && anc[j] == ancestors[j]);
                } else if i < ancestors.len() {
                    assert(anc[i] == ancestors[i]);
                } else if j < ancestors.len() {
                    assert(anc[j] == ancestors[j]);
                }
            }
        }
        assert forall|i: int| 0 <= i < anc.len() implies graph.nodes@.contains_key(#[trigger] anc[i]) by {
            if i < ancestors.len() {
                assert(anc[i] == ancestors[i]);
            }
        }
        lemma_distinct_packages_bound(*graph, anc);
        if !print_config.all {
            assert forall|i: int| 0 <= i < anc.len() implies v0.contains(#[trigger] anc[i]) by {
                if i < ancestors.len() {
                    assert(anc[i] == ancestors[i]);
                }
            }
        }
        lemma_children_ready(*graph, *print_config, package, v_in, ancestors, reach, rank, DependencyKind::Normal);
        lemma_children_ready(*graph, *print_config, package, v_in, ancestors, reach, rank, DependencyKind::Build);
        lemma_children_ready(*graph, *print_config, package, v_in, ancestors, reach, rank, DependencyKind::Development);
    }
    let (mut normal, mut build, mut development) = construct_dependency_type_nodes(
        graph,
        package,
        print_config.direction,
    );
    proof {
        assert(normal@ == edge_deps(*graph, package, print_config.direction, DependencyKind::Normal));
        assert(build@ == edge_deps(*graph, package, print_config.direction, DependencyKind::Build));
        assert(development@ == edge_deps(
            *graph,
            package,
            print_config.direction,
            DependencyKind::Development,
        ));
    }
    let mut normal_out = walk_dependency_kind(
        graph,
        print_config,
        DependencyKind::Normal,
        &mut normal,
        visited_deps,
        levels_continue,
        Ghost(anc),
        Ghost(reach),
        Ghost(rank),
    );
    let ghost v1 = visited_deps@;
    proof {
        if !print_config.all {
            assert forall|i: int| 0 <= i < anc.len() implies v1.contains(#[trigger] anc[i]) by {
                assert(v0.contains(anc[i]));
            }
        }
    }
    let mut build_out = walk_dependency_kind(
        graph,
        print_config,
        DependencyKind::Build,
        &mut build,
        visited_deps,
        levels_continue,
        Ghost(anc),
        Ghost(reach),
        Ghost(rank),
    );
    let ghost v2 = visited_deps@;
    proof {
        if !print_config.all {
            assert forall|i: int| 0 <= i < anc.len() implies v2.contains(#[trigger] anc[i]) by {
                assert(v1.contains(anc[i]));
            }
        }
    }
    let mut dev_out = walk_dependency_kind(
        graph,
        print_config,
        DependencyKind::Development,
        &mut development,
        visited_deps,
        levels_continue,
        Ghost(anc),
        Ghost(reach),
        Ghost(rank),
    );
    let ghost a = lines_view(normal_out@);
    let ghost b = lines_view(build_out@);
    let ghost c = lines_view(dev_out@);
    all_out.append(&mut normal_out);
    all_out.append(&mut build_out);
    all_out.append(&mut dev_out);
    proof {
        assert(lines_view(all_out@) =~= seq![line] + a + b + c);
    }
    all_out
}

/// The lines of the walk through the dependencies of one kind, which are
/// sorted in ascending order first: nothing where there are none, else the
/// group header (indented output, extra dependencies) and the walk from
/// each, one level deeper.
pub fn walk_dependency_kind(
    graph: &PackageGraph,
    print_config: &PrintConfig,
    dep_kind: DependencyKind,
    deps: &mut Vec<u64>,
    visited_deps: &mut HashSet<u64>,
    levels_continue: &mut Vec<bool>,
    Ghost(ancestors): Ghost<Seq<u64>>,
    Ghost(reach): Ghost<Set<u64>>,
    Ghost(rank): Ghost<spec_fn(u64) -> nat>,
) -> (r: Vec<TextTreeLine>)
    requires
        graph.wf(),
        ancestors.len() == old(levels_continue).len() + 1,
        ancestors.len() <= graph.packages().len(),
        ancestors.no_duplicates(),
        forall|i: int| 0 <= i < ancestors.len() ==> graph.nodes@.contains_key(#[trigger] ancestors[i]),
        !print_config.all ==> forall|i: int|
            0 <= i < ancestors.len() ==> old(visited_deps)@.contains(#[trigger] ancestors[i]),
        print_config.all ==> ranked(*graph, print_config.direction, reach, rank),
        forall|k: int|
            0 <= k < old(deps).len() ==> graph.nodes@.contains_key(#[trigger] old(deps)@[k]) && (
            print_config.all ==> reach.contains(old(deps)@[k]) && forall|i: int|
                0 <= i < ancestors.len() ==> rank(#[trigger] ancestors[i]) > rank(old(deps)@[k])),
    ensures
        final(deps)@ == sort_keys(old(deps)@),
        (lines_view(r@), final(visited_deps)@) == walk_kind(
            *graph,
            *print_config,
            dep_kind,
            sort_keys(old(deps)@),
            old(visited_deps)@,
            old(levels_continue)@,
            (graph.packages().len() - ancestors.len()) as nat,
        ),
        final(levels_continue)@ == old(levels_continue)@,
        old(visited_deps)@.subset_of(final(visited_deps)@),
    decreases graph.packages().len() - ancestors.len() + 1, 0int,
{
    let ghost fuel = (graph.packages().len() - ancestors.len()) as nat;
    let ghost unsorted = deps@;
    if deps.len() == 0 {
        proof {
            assert(lines_view(Seq::<TextTreeLine>::empty()) =~= Seq::<TextTreeLineView>::empty());
        }
        return Vec::new();
    }
    sort_keys_in_place(deps);
    proof {
        lemma_sort_keys_elements(unsorted);
        assert forall|k: int| 0 <= k < deps@.len() implies graph.nodes@.contains_key(#[trigger] deps@[k]) && (
        print_config.all ==> reach.contains(deps@[k]) && forall|i: int|
            0 <= i < ancestors.len() ==> rank(#[trigger] ancestors[i]) > rank(deps@[k])) by {
            assert(sort_keys(unsorted).contains(deps@[k]));
            lemma_sort_keys_contains(unsorted, deps@[k]);
        }
    }
    let ghost sorted = deps@;
    let ghost v0 = visited_deps@;
    let ghost levels = levels_continue@;
    let tree_symbols = get_tree_symbols_for_output_format(print_config.output_format);
    proof {
        lemma_symbols(tree_symbols, charset_of(print_config.output_format));
    }
    let mut text_tree_lines: Vec<TextTreeLine> = Vec::new();
    if let Prefix::Indent = print_config.prefix {
        push_extra_deps_group_text_tree_line_for_non_normal_dependencies(
            dep_kind,
            levels_continue,
            &tree_symbols,
            &mut text_tree_lines,
        );
    }
    proof {
        assert(lines_view(text_tree_lines@) =~= group_header(*print_config, dep_kind, levels));
    }
    let mut i: usize = 0;
    while i < deps.len()
        invariant
            graph.wf(),
            ancestors.len() == levels.len() + 1,
            ancestors.len() <= graph.packages().len(),
            ancestors.no_duplicates(),
            forall|j: int| 0 <= j < ancestors.len() ==> graph.nodes@.contains_key(#[trigger] ancestors[j]),
            !print_config.all ==> forall|j: int|
                0 <= j < ancestors.len() ==> v0.contains(#[trigger] ancestors[j]),
            print_config.all ==> ranked(*graph, print_config.direction, reach, rank),
            forall|k: int|
                0 <= k < sorted.len() ==> graph.nodes@.contains_key(#[trigger] sorted[k]) && (
                print_config.all ==> reach.contains(sorted[k]) && forall|j: int|
                    0 <= j < ancestors.len() ==> rank(#[trigger] ancestors[j]) > rank(sorted[k])),
            fuel == graph.packages().len() - ancestors.len(),
            deps@ == sorted,
            sorted.len() > 0,
            i <= deps.len(),
            levels_continue@ == levels,
            v0.subset_of(visited_deps@),
            lines_view(text_tree_lines@) + walk_list(
                *graph,
                *print_config,
                sorted,
                i as int,
                visited_deps@,
                levels,
                fuel,
            ).0 == group_header(*print_config, dep_kind, levels) + walk_list(
                *graph,
                *print_config,
                sorted,
                0,
                v0,
                levels,
                fuel,
            ).0,
            walk_list(*graph, *print_config, sorted, i as int, visited_deps@, levels, fuel).1
                == walk_list(*graph, *print_config, sorted, 0, v0, levels, fuel).1,
        decreases deps.len() - i,
    {
        let ghost vi = visited_deps@;
        let ghost before = lines_view(text_tree_lines@);
        let continues = i + 1 < deps.len();
        levels_continue.push(continues);
        let dependency = deps[i];
        proof {
            assert(graph.nodes@.contains_key(sorted[i as int]));
            if !print_config.all {
                assert forall|j: int| 0 <= j < ancestors.len() implies vi.contains(#[trigger] ancestors[j]) by {
                    assert(v0.contains(ancestors[j]));
                }
            }
        }
        let mut out = walk_dependency_node(
            graph,
            print_config,
            dependency,
            visited_deps,
            levels_continue,
            Ghost(ancestors),
            Ghost(reach),
            Ghost(rank),
        );
        levels_continue.pop();
        let ghost a = lines_view(out@);
        text_tree_lines.append(&mut out);
        proof {
            assert(levels_continue@ =~= levels);
            assert(lines_view(text_tree_lines@) =~= before + a);
            let w = walk_list(*graph, *print_config, sorted, i as int, vi, levels, fuel);
            let wn = walk_list(*graph, *print_config, sorted, i + 1, visited_deps@, levels, fuel);
            assert(w.0 == a + wn.0);
            assert(before + a + wn.0 =~= before + (a + wn.0));
        }
        i = i + 1;
    }
    proof {
        assert(walk_list(*graph, *print_config, sorted, i as int, visited_deps@, levels, fuel).0
            =~= Seq::<TextTreeLineView>::empty());
        assert(lines_view(text_tree_lines@) =~= lines_view(text_tree_lines@) + Seq::<TextTreeLineView>::empty());
    }
    text_tree_lines
}

/// The lines of the dependency tree from the root: printed in order they
/// draw the tree.
pub fn walk_dependency_tree(graph: &PackageGraph, print_config: &PrintConfig, root_package_id: u64) -> (r:
    Vec<TextTreeLine>)
    requires
        graph.wf(),
        graph.nodes@.contains_key(root_package_id),
        print_config.all ==> acyclic_from(*graph, print_config.direction, root_package_id),
    ensures
        lines_view(r@) == walk_node(
            *graph,
            *print_config,
            root_package_id,
            Set::empty(),
            Seq::empty(),
            graph.packages().len(),
        ).0,
{
    let mut visited_deps: HashSet<u64> = HashSet::new();
    let mut levels_continue: Vec<bool> = Vec::new();
    let ghost p = choose|p: (Set<u64>, spec_fn(u64) -> nat)|
        p.0.contains(root_package_id) && ranked(*graph, print_config.direction, p.0, p.1);
    let index = *graph.nodes.get(&root_package_id).unwrap();
    let node = crate::graph::graph_node_weight(&graph.graph, index);
    proof {
        assert(visited_deps@ =~= Set::<u64>::empty());
        assert(levels_continue@ =~= Seq::<bool>::empty());
    }
    walk_dependency_node(
        graph,
        print_config,
        node,
        &mut visited_deps,
        &mut levels_continue,
        Ghost(Seq::empty()),
        Ghost(p.0),
        Ghost(p.1),
    )
}


/// Every package line of the lines is about a package of the graph.
pub open spec fn lines_in_graph(g: PackageGraph, ls: Seq<TextTreeLineView>) -> bool {
    forall|j: int|
        0 <= j < ls.len() ==> (#[trigger] ls[j] matches TextTreeLineView::Package { id, .. }
            ==> g.nodes@.contains_key(id))
}

proof fn lemma_lines_in_graph_add(g: PackageGraph, a: Seq<TextTreeLineView>, b: Seq<TextTreeLineView>)
    requires
        lines_in_graph(g, a),
        lines_in_graph(g, b),
    ensures
        lines_in_graph(g, a + b),
{
    assert forall|j: int| 0 <= j < (a + b).len() implies (#[trigger] (a + b)[j] matches TextTreeLineView::Package { id, .. }
        ==> g.nodes@.contains_key(id)) by {
        if j < a.len() {
            assert((a + b)[j] == a[j]);
        } else {
            assert((a + b)[j] == b[j - a.len()]);
        }
    }
}

/// The walk from a package of the graph shows packages of the graph only.
pub proof fn lemma_walk_node_in_graph(
    g: PackageGraph,
    cfg: PrintConfig,
    pkg: u64,
    visited: Set<u64>,
    levels: Seq<bool>,
    fuel: nat,
)
    requires
        g.wf(),
        g.nodes@.contains_key(pkg),
    ensures
        lines_in_graph(g, walk_node(g, cfg, pkg, visited, levels, fuel).0),
    decreases fuel, 0nat, 0int,
{
    let new = cfg.all || !visited.contains(pkg);
    let v0 = if cfg.all {
        visited
    } else {
        visited.insert(pkg)
    };
    let line = package_line(cfg, pkg, levels);
    assert(lines_in_graph(g, seq![line]));
    if new && fuel > 0 {
        let f = (fuel - 1) as nat;
        let dir = cfg.direction;
        lemma_kind_deps_in_graph(g, pkg, dir, DependencyKind::Normal);
        lemma_kind_deps_in_graph(g, pkg, dir, DependencyKind::Build);
        lemma_kind_deps_in_graph(g, pkg, dir, DependencyKind::Development);
        let (a, v1) = walk_kind(g, cfg, DependencyKind::Normal, kind_deps(g, pkg, dir, DependencyKind::Normal), v0, levels, f);
        let (b, v2) = walk_kind(g, cfg, DependencyKind::Build, kind_deps(g, pkg, dir, DependencyKind::Build), v1, levels, f);
        let (c, v3) = walk_kind(g, cfg, DependencyKind::Development, kind_deps(g, pkg, dir, DependencyKind::Development), v2, levels, f);
        lemma_walk_kind_in_graph(g, cfg, DependencyKind::Normal, kind_deps(g, pkg, dir, DependencyKind::Normal), v0, levels, f);
        lemma_walk_kind_in_graph(g, cfg, DependencyKind::Build, kind_deps(g, pkg, dir, DependencyKind::Build), v1, levels, f);
        lemma_walk_kind_in_graph(g, cfg, DependencyKind::Development, kind_deps(g, pkg, dir, DependencyKind::Development), v2, levels, f);
        lemma_lines_in_graph_add(g, seq![line], a);
        lemma_lines_in_graph_add(g, seq![line] + a, b);
        lemma_lines_in_graph_add(g, seq![line] + a + b, c);
    }
}

proof fn lemma_kind_deps_in_graph(g: PackageGraph, pkg: u64, dir: EdgeDirection, kind: DependencyKind)
    requires
        g.wf(),
        g.nodes@.contains_key(pkg),
    ensures
        forall|k: int| 0 <= k < kind_deps(g, pkg, dir, kind).len() ==> g.nodes@.contains_key(#[trigger] kind_deps(g, pkg, dir, kind)[k]),
{
    lemma_children(g, pkg, dir, kind, Set::empty(), |x: u64| 0nat);
    let d = edge_deps(g, pkg, dir, kind);
    assert forall|k: int| 0 <= k < kind_deps(g, pkg, dir, kind).len() implies g.nodes@.contains_key(#[trigger] kind_deps(g, pkg, dir, kind)[k]) by {
        let x = kind_deps(g, pkg, dir, kind)[k];
        assert(sort_keys(d).contains(x));
        lemma_sort_keys_contains(d, x);
        let m = choose|m: int| 0 <= m < d.len() && d[m] == x;
        assert(g.nodes@.contains_key(d[m]));
    }
}

proof fn lemma_walk_kind_in_graph(
    g: PackageGraph,
    cfg: PrintConfig,
    kind: DependencyKind,
    deps: Seq<u64>,
    visited: Set<u64>,
    levels: Seq<bool>,
    fuel: nat,
)
    requires
        g.wf(),
        forall|k: int| 0 <= k < deps.len() ==> g.nodes@.contains_key(#[trigger] deps[k]),
    ensures
        lines_in_graph(g, walk_kind(g, cfg, kind, deps, visited, levels, fuel).0),
    decreases fuel, 2nat, 0int,
{
    if deps.len() > 0 {
        lemma_walk_list_in_graph(g, cfg, deps, 0, visited, levels, fuel);
        let h = group_header(cfg, kind, levels);
        assert(lines_in_graph(g, h));
        lemma_lines_in_graph_add(g, h, walk_list(g, cfg, deps, 0, visited, levels, fuel).0);
    } else {
        assert(lines_in_graph(g, Seq::<TextTreeLineView>::empty()));
    }
}

proof fn lemma_walk_list_in_graph(
    g: PackageGraph,
    cfg: PrintConfig,
    deps: Seq<u64>,
    i: int,
    visited: Set<u64>,
    levels: Seq<bool>,
    fuel: nat,
)
    requires
        g.wf(),
        forall|k: int| 0 <= k < deps.len() ==> g.nodes@.contains_key(#[trigger] deps[k]),
    ensures
        lines_in_graph(g, walk_list(g, cfg, deps, i, visited, levels, fuel).0),
    decreases fuel, 1nat, deps.len() - i,
{
    if i < 0 || i >= deps.len() {
        assert(lines_in_graph(g, Seq::<TextTreeLineView>::empty()));
    } else {
        let (a, v1) = walk_node(g, cfg, deps[i], visited, levels.push(i + 1 < deps.len()), fuel);
        lemma_walk_node_in_graph(g, cfg, deps[i], visited, levels.push(i + 1 < deps.len()), fuel);
        lemma_walk_list_in_graph(g, cfg, deps, i + 1, v1, levels, fuel);
        lemma_lines_in_graph_add(g, a, walk_list(g, cfg, deps, i + 1, v1, levels, fuel).0);
    }
}

} // verus!
