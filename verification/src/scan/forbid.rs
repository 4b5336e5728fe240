//! The output of the scan that only reports whether crates forbid unsafe
//! code.

use vstd::prelude::*;
use vstd::string::StringExecFns;
use std::collections::HashMap;
use vstd::std_specs::hash::spec_hash_map_iter;
use vstd::std_specs::iter::IteratorSpec;
use crate::format::{get_kind_group_name, spec_kind_group_name, EmojiSymbols, OutputFormat, StyledText, SymbolKind, TextStyle, emoji_view};
use crate::format::pattern::{chunks_view, display_text, PackageDisplayInfo, Pattern};
use crate::format::print_config::PrintConfig;
use crate::format::table::{line_view, lines_of, plain, spec_will_emoji};
use crate::graph::PackageGraph;
use crate::scan::{GeigerContext, PackageMetrics, RsFileMetricsWrapper, ScanResult};
use crate::scan::default::symbol_key_line;
use crate::tree::{acyclic_from, lines_in_graph, lines_view, walk_dependency_tree, walk_node, TextTreeLine, TextTreeLineView};

verus! {

broadcast use vstd::std_specs::hash::group_hash_axioms;

/// The key of the scan: what the lock and the question mark mean.
pub open spec fn forbid_key_lines(will_emoji: bool, output_format: OutputFormat) -> Seq<Seq<(Seq<char>, TextStyle)>> {
    seq![
        seq![plain(""@)],
        seq![plain("Symbols:"@)],
        symbol_key_line(will_emoji, output_format, SymbolKind::Lock, ""@, "All entry point .rs files declare #![forbid(unsafe_code)]."@),
        symbol_key_line(will_emoji, output_format, SymbolKind::QuestionMark, ""@, "This crate may use unsafe code."@),
        seq![plain(""@)],
    ]
}

fn push_line(lines: &mut Vec<Vec<StyledText>>, l: Vec<StyledText>)
    ensures
        lines_of(final(lines)@) == lines_of(old(lines)@).push(line_view(l@)),
{
    lines.push(l);
    proof {
        assert(lines_of(lines@) =~= lines_of(old(lines)@).push(line_view(l@)));
    }
}

fn text_line(s: &str) -> (l: Vec<StyledText>)
    ensures
        line_view(l@) == seq![plain(s@)],
{
    let mut l: Vec<StyledText> = Vec::new();
    l.push(StyledText { text: s.to_owned(), style: TextStyle::Plain });
    proof {
        assert(line_view(l@) =~= seq![plain(s@)]);
    }
    l
}

fn key_line(emoji_symbols: &EmojiSymbols, kind: SymbolKind, text: &str) -> (l: Vec<StyledText>)
    ensures
        line_view(l@) == symbol_key_line(emoji_symbols.spec_will_output_emoji(), emoji_symbols.format(), kind, ""@, text@),
{
    let symbol = emoji_symbols.emoji(kind);
    let mut l: Vec<StyledText> = Vec::new();
    l.push(StyledText { text: "    ".to_owned(), style: TextStyle::Plain });
    let mut padded = String::new();
    crate::text::push_padded(&mut padded, symbol.text.as_str(), 2);
    l.push(StyledText { text: padded, style: symbol.style });
    let mut rest = " = ".to_owned();
    rest.append(text);
    l.push(StyledText { text: rest, style: TextStyle::Plain });
    proof {
        assert(padded@ =~= crate::text::pad_right(symbol.text@, 2));
        assert(""@ + " = "@ =~= " = "@) by {
            reveal_strlit("");
        }
        assert(line_view(l@) =~= symbol_key_line(
            emoji_symbols.spec_will_output_emoji(),
            emoji_symbols.format(),
            kind,
            ""@,
            text@,
        ));
    }
    l
}

/// The key of the scan.
pub fn construct_key_lines(emoji_symbols: &EmojiSymbols) -> (r: Vec<Vec<StyledText>>)
    ensures
        lines_of(r@) == forbid_key_lines(emoji_symbols.spec_will_output_emoji(), emoji_symbols.format()),
{
    let mut output_key_lines: Vec<Vec<StyledText>> = Vec::new();
    proof {
        assert(lines_of(output_key_lines@) =~= Seq::<Seq<(Seq<char>, TextStyle)>>::empty());
    }
    push_line(&mut output_key_lines, text_line(""));
    push_line(&mut output_key_lines, text_line("Symbols:"));
    let forbids = "All entry point .rs files declare #![forbid(unsafe_code)].";
    let unknown = "This crate may use unsafe code.";
    push_line(&mut output_key_lines, key_line(emoji_symbols, SymbolKind::Lock, forbids));
    push_line(&mut output_key_lines, key_line(emoji_symbols, SymbolKind::QuestionMark, unknown));
    push_line(&mut output_key_lines, text_line(""));
    proof {
        assert(lines_of(output_key_lines@) =~= forbid_key_lines(
            emoji_symbols.spec_will_output_emoji(),
            emoji_symbols.format(),
        ));
    }
    output_key_lines
}

/// The name of a package in the pattern.
pub fn format_package_name(info: &PackageDisplayInfo, pattern: &Pattern) -> (r: String)
    ensures
        r@ == display_text(chunks_view(pattern.chunks@), *info),
{
    pattern.display(info)
}

/// Every file of the package declares `forbid(unsafe_code)`.
pub open spec fn all_files_forbid(m: Map<u64, RsFileMetricsWrapper>) -> bool {
    forall|k: u64| #[trigger] m.contains_key(k) ==> m[k].metrics.forbids_unsafe
}

/// Whether every file of the package declares `forbid(unsafe_code)`.
pub fn package_forbids_unsafe(package_metrics: &PackageMetrics) -> (r: bool)
    ensures
        r == all_files_forbid(package_metrics.rs_path_to_metrics@),
{
    let ghost m = package_metrics.rs_path_to_metrics@;
    let ghost s = spec_hash_map_iter(&package_metrics.rs_path_to_metrics).remaining();
    let mut all = true;
    for entry in it: package_metrics.rs_path_to_metrics.iter()
        invariant
            m == package_metrics.rs_path_to_metrics@,
            s == spec_hash_map_iter(&package_metrics.rs_path_to_metrics).remaining(),
            it.seq() == s,
            all == (forall|j: int| 0 <= j < it.index() ==> (#[trigger] s[j]).1.metrics.forbids_unsafe),
    {
        let (k, w) = entry;
        if !w.metrics.forbids_unsafe {
            all = false;
        }
    }
    proof {
        if all {
            assert forall|k: u64| #[trigger] m.contains_key(k) implies m[k].metrics.forbids_unsafe by {
                assert(s.contains((&k, &m[k])));
                let j = choose|j: int| 0 <= j < s.len() && s[j] == (&k, &m[k]);
            }
        }
        if !all {
            let j = choose|j: int| 0 <= j < s.len() && !(#[trigger] s[j]).1.metrics.forbids_unsafe;
            assert(m.contains_key(*s[j].0));
            assert(m[*s[j].0] == *s[j].1);
        }
    }
    all
}

/// The line of a package: its symbol, a space, the tree vines and its
/// name, green where every file forbids unsafe code, red elsewhere (also
/// where the package has no statistics).
pub open spec fn forbid_package_line(
    will_emoji: bool,
    output_format: OutputFormat,
    forbids: bool,
    vines: Seq<char>,
    name: Seq<char>,
) -> Seq<(Seq<char>, TextStyle)> {
    let symbol = emoji_view(
        will_emoji,
        output_format,
        if forbids {
            SymbolKind::Lock
        } else {
            SymbolKind::QuestionMark
        },
    );
    seq![symbol, plain(" "@ + vines), (name, if forbids { TextStyle::Green } else { TextStyle::Red })]
}

/// Whether a package forbids unsafe code in every file; not where it has
/// no statistics.
pub open spec fn spec_package_forbids(ctx: Map<u64, PackageMetrics>, k: u64) -> bool {
    ctx.contains_key(k) && all_files_forbid(ctx[k].rs_path_to_metrics@)
}

/// Appends the line of a package.
pub fn handle_package_text_tree_line(
    package_info: &PackageDisplayInfo,
    emoji_symbols: &EmojiSymbols,
    geiger_ctx: &GeigerContext,
    package_id: u64,
    print_config: &PrintConfig,
    scan_output_lines: &mut Vec<Vec<StyledText>>,
    tree_vines: String,
)
    ensures
        lines_of(final(scan_output_lines)@) == lines_of(old(scan_output_lines)@).push(
            forbid_package_line(
                emoji_symbols.spec_will_output_emoji(),
                emoji_symbols.format(),
                spec_package_forbids(geiger_ctx.package_id_to_metrics@, package_id),
                tree_vines@,
                display_text(chunks_view(print_config.format.chunks@), *package_info),
            ),
        ),
{
    let sym_lock = emoji_symbols.emoji(SymbolKind::Lock);
    let sym_qmark = emoji_symbols.emoji(SymbolKind::QuestionMark);
    let name = format_package_name(package_info, &print_config.format);
    let package_forbids_unsafe = match geiger_ctx.package_id_to_metrics.get(&package_id) {
        None => false,
        Some(package_metric) => package_forbids_unsafe(package_metric),
    };
    let (symbol, name) = if package_forbids_unsafe {
        (sym_lock, StyledText { text: name, style: TextStyle::Green })
    } else {
        (sym_qmark, StyledText { text: name, style: TextStyle::Red })
    };
    let mut vines = " ".to_owned();
    vines.append(tree_vines.as_str());
    let mut l: Vec<StyledText> = Vec::new();
    l.push(symbol);
    l.push(StyledText { text: vines, style: TextStyle::Plain });
    l.push(name);
    proof {
        assert(line_view(l@) =~= forbid_package_line(
            emoji_symbols.spec_will_output_emoji(),
            emoji_symbols.format(),
            spec_package_forbids(geiger_ctx.package_id_to_metrics@, package_id),
            tree_vines@,
            display_text(chunks_view(print_config.format.chunks@), *package_info),
        ));
    }
    push_line(scan_output_lines, l);
}

/// The line of a line of the tree: a group header after two spaces,
/// nothing for normal dependencies; a package line.
pub open spec fn forbid_tree_line(
    will_emoji: bool,
    print_config: PrintConfig,
    ctx: Map<u64, PackageMetrics>,
    infos: Map<u64, PackageDisplayInfo>,
    l: TextTreeLineView,
) -> Option<Seq<(Seq<char>, TextStyle)>> {
    match l {
        TextTreeLineView::ExtraDepsGroup { kind, tree_vines } => match spec_kind_group_name(kind) {
            Some(name) => Some(seq![plain("  "@ + tree_vines + name)]),
            None => None,
        },
        TextTreeLineView::Package { id, tree_vines } => Some(
            forbid_package_line(
                will_emoji,
                print_config.output_format,
                spec_package_forbids(ctx, id),
                tree_vines,
                display_text(chunks_view(print_config.format.chunks@), infos[id]),
            ),
        ),
    }
}

/// The lines of the lines of the tree, in order.
pub open spec fn forbid_body(
    will_emoji: bool,
    print_config: PrintConfig,
    ctx: Map<u64, PackageMetrics>,
    infos: Map<u64, PackageDisplayInfo>,
    lines: Seq<TextTreeLineView>,
) -> Seq<Seq<(Seq<char>, TextStyle)>>
    decreases lines.len(),
{
    if lines.len() == 0 {
        Seq::empty()
    } else {
        let rest = forbid_body(will_emoji, print_config, ctx, infos, lines.drop_last());
        match forbid_tree_line(will_emoji, print_config, ctx, infos, lines.last()) {
            Some(l) => rest.push(l),
            None => rest,
        }
    }
}

/// The output of the scan: the key, then a line for each group header
/// and each package of the tree from the root, without warnings.
pub fn scan_forbid_to_table(
    graph: &PackageGraph,
    print_config: &PrintConfig,
    root_package_id: u64,
    geiger_ctx: &GeigerContext,
    package_infos: &HashMap<u64, PackageDisplayInfo>,
    terminal_wants_emoji: bool,
) -> (r: ScanResult)
    requires
        graph.wf(),
        graph.nodes@.contains_key(root_package_id),
        print_config.all ==> acyclic_from(*graph, print_config.direction, root_package_id),
        forall|k: u64| #[trigger] graph.nodes@.contains_key(k) ==> package_infos@.contains_key(k),
    ensures
        ({
            let will = spec_will_emoji(print_config.output_format, terminal_wants_emoji);
            let lv = walk_node(
                *graph,
                *print_config,
                root_package_id,
                Set::empty(),
                Seq::empty(),
                graph.packages().len(),
            ).0;
            lines_of(r.scan_output_lines@) == forbid_key_lines(will, print_config.output_format)
                + forbid_body(will, *print_config, geiger_ctx.package_id_to_metrics@, package_infos@, lv)
        }),
        r.warning_count == 0,
{
    let emoji_symbols = EmojiSymbols::new(print_config.output_format, terminal_wants_emoji);
    let ghost will = emoji_symbols.spec_will_output_emoji();
    let ghost ctx = geiger_ctx.package_id_to_metrics@;
    let mut scan_output_lines = construct_key_lines(&emoji_symbols);
    let ghost key = lines_of(scan_output_lines@);
    let tree_lines = walk_dependency_tree(graph, print_config, root_package_id);
    let ghost lv = lines_view(tree_lines@);
    proof {
        crate::tree::lemma_walk_node_in_graph(
            *graph,
            *print_config,
            root_package_id,
            Set::empty(),
            Seq::empty(),
            graph.packages().len(),
        );
        assert(lv.take(0) =~= Seq::<TextTreeLineView>::empty());
        assert(key + forbid_body(will, *print_config, ctx, package_infos@, lv.take(0)) =~= key);
    }
    let mut t: usize = 0;
    while t < tree_lines.len()
        invariant
            t <= tree_lines.len(),
            lv == lines_view(tree_lines@),
            lines_in_graph(*graph, lv),
            forall|k: u64| #[trigger] graph.nodes@.contains_key(k) ==> package_infos@.contains_key(k),
            will == emoji_symbols.spec_will_output_emoji(),
            emoji_symbols.format() == print_config.output_format,
            ctx == geiger_ctx.package_id_to_metrics@,
            lines_of(scan_output_lines@) == key + forbid_body(will, *print_config, ctx, package_infos@, lv.take(t as int)),
        decreases tree_lines.len() - t,
    {
        let ghost before = lines_of(scan_output_lines@);
        proof {
            let tk = lv.take(t + 1);
            assert(tk.drop_last() =~= lv.take(t as int));
            assert(tk.last() == lv[t as int]);
            assert(lv[t as int] == tree_lines@[t as int]@);
        }
        match &tree_lines[t] {
            TextTreeLine::ExtraDepsGroup { kind, tree_vines } => {
                match get_kind_group_name(*kind) {
                    Some(name) => {
                        let mut text = "  ".to_owned();
                        text.append(tree_vines.as_str());
                        text.append(name);
                        let mut l: Vec<StyledText> = Vec::new();
                        l.push(StyledText { text, style: TextStyle::Plain });
                        proof {
                            assert(line_view(l@) =~= seq![plain("  "@ + tree_vines@ + spec_kind_group_name(*kind).unwrap())]);
                        }
                        push_line(&mut scan_output_lines, l);
                    },
                    None => {},
                }
            },
            TextTreeLine::Package { id, tree_vines } => {
                proof {
                    assert(lv[t as int] matches TextTreeLineView::Package { .. });
                    assert(graph.nodes@.contains_key(*id));
                }
                let info = package_infos.get(id).unwrap();
                handle_package_text_tree_line(
                    info,
                    &emoji_symbols,
                    geiger_ctx,
                    *id,
                    print_config,
                    &mut scan_output_lines,
                    tree_vines.clone(),
                );
            },
        }
        proof {
            assert(lines_of(scan_output_lines@) =~= key + forbid_body(will, *print_config, ctx, package_infos@, lv.take(t + 1)));
        }
        t = t + 1;
    }
    proof {
        assert(lv.take(lv.len() as int) =~= lv);
    }
    ScanResult { scan_output_lines, warning_count: 0 }
}

} // verus!
