//! The table of a scan: for each package a row of counters, a symbol and
//! its line of the tree, and a footer with the totals.

use vstd::prelude::*;
use vstd::string::StringExecFns;
use std::collections::{HashMap, HashSet};
use crate::format::{
    colorize, emoji_view, lemma_table_row_len, spec_crate_detection_status, spec_kind_group_name,
    spec_table_row, spec_total_detection_status, status_style, symbol_kind_for_status, table_footer,
    table_indent, table_row, text_tree_line_extra_deps_group_to_table_line_string,
    get_crate_detection_status_and_update_package_counts, CrateDetectionStatus, EmojiSymbols,
    OutputFormat, StyledText, SymbolKind, TextStyle, TotalPackageCounts,
};
use crate::format::pattern::{chunks_view, display_text, PackageDisplayInfo};
use crate::format::print_config::PrintConfig;
use crate::report::{block_addable, block_has_unsafe, block_sum, zero_block, Count, CounterBlock};
use crate::scan::{
    block_field, entry_points_forbid_unsafe, field_sum, lemma_field_sum_split,
    lemma_field_sum_subset, summed_block, sums_fit, unsafe_stats, GeigerContext, PackageMetrics,
    RsFileMetricsWrapper, ScanResult,
};
use crate::sums::{lemma_set_sum_add, lemma_set_sum_empty, lemma_set_sum_insert, lemma_set_sum_subset, set_sum};
use crate::text::{decimal, pad_right, push_decimal, spaces};
use crate::tree::{lines_view, TextTreeLine, TextTreeLineView};

verus! {

broadcast use vstd::std_specs::hash::group_hash_axioms;

/// A piece of styled text by its text and style.
pub open spec fn styled(t: StyledText) -> (Seq<char>, TextStyle) {
    (t.text@, t.style)
}

/// A line of styled pieces, by their texts and styles.
pub open spec fn line_view(l: Seq<StyledText>) -> Seq<(Seq<char>, TextStyle)> {
    l.map_values(|t: StyledText| styled(t))
}

/// Lines of styled pieces, by their texts and styles.
pub open spec fn lines_of(ls: Seq<Vec<StyledText>>) -> Seq<Seq<(Seq<char>, TextStyle)>> {
    ls.map_values(|l: Vec<StyledText>| line_view(l@))
}

/// Unstyled text.
pub open spec fn plain(s: Seq<char>) -> (Seq<char>, TextStyle) {
    (s, TextStyle::Plain)
}

fn plain_text(s: String) -> (t: StyledText)
    ensures
        styled(t) == plain(s@),
{
    StyledText { text: s, style: TextStyle::Plain }
}


// ---------------------------------------------------------------------------
// The statistics of a package

/// The files of a package, by the keys of their paths.
pub open spec fn metrics_of(ctx: Map<u64, PackageMetrics>, k: u64) -> Map<u64, RsFileMetricsWrapper> {
    ctx[k].rs_path_to_metrics@
}

/// The counters of the files of a package that the build uses.
pub open spec fn pkg_used(ctx: Map<u64, PackageMetrics>, rs: Set<u64>, k: u64) -> CounterBlock {
    summed_block(metrics_of(ctx, k), metrics_of(ctx, k).dom().intersect(rs))
}

/// The counters of the files of a package that the build does not use.
pub open spec fn pkg_unused(ctx: Map<u64, PackageMetrics>, rs: Set<u64>, k: u64) -> CounterBlock {
    summed_block(metrics_of(ctx, k), metrics_of(ctx, k).dom().difference(rs))
}

/// The status of a package: unsafe code in the files used, or else
/// whether all its entry points forbid unsafe code.
pub open spec fn pkg_status(ctx: Map<u64, PackageMetrics>, rs: Set<u64>, k: u64) -> CrateDetectionStatus {
    spec_crate_detection_status(
        entry_points_forbid_unsafe(metrics_of(ctx, k)),
        block_has_unsafe(pkg_used(ctx, rs, k)),
    )
}

/// The symbol of a status.
pub open spec fn status_symbol(s: CrateDetectionStatus) -> SymbolKind {
    match s {
        CrateDetectionStatus::NoneDetectedForbidsUnsafe => SymbolKind::Lock,
        CrateDetectionStatus::NoneDetectedAllowsUnsafe => SymbolKind::QuestionMark,
        CrateDetectionStatus::UnsafeDetected => SymbolKind::Rads,
    }
}

/// The output shows emoji: UTF-8 output on a terminal that wants them, and
/// GitHub Markdown.
pub open spec fn spec_will_emoji(output_format: OutputFormat, terminal_wants_emoji: bool) -> bool {
    (output_format == OutputFormat::Utf8 && terminal_wants_emoji) || output_format
        == OutputFormat::GitHubMarkdown
}

/// A carriage return and the escape sequence that moves the cursor right
/// by `shift` columns.
pub open spec fn cursor_text(shift: nat) -> Seq<char> {
    "\r\x1B["@ + decimal(shift) + "C"@
}

/// A package line of the table: the counters, two spaces, the symbol
/// padded to two characters; where emoji are shown outside GitHub
/// Markdown, a return of the cursor to the symbol (emoji can be drawn two
/// columns wide); in GitHub Markdown a space after the radiation symbol;
/// then a space, the tree vines and the package name.
pub open spec fn package_row(
    status: CrateDetectionStatus,
    will_emoji: bool,
    output_format: OutputFormat,
    icon: (Seq<char>, TextStyle),
    name: (Seq<char>, TextStyle),
    vines: Seq<char>,
    row: (Seq<char>, TextStyle),
) -> Seq<(Seq<char>, TextStyle)> {
    seq![row, plain("  "@), (pad_right(icon.0, 2), icon.1)] + (if will_emoji && output_format
        != OutputFormat::GitHubMarkdown {
        seq![plain(cursor_text(row.0.len() + 4))]
    } else if output_format == OutputFormat::GitHubMarkdown && status
        == CrateDetectionStatus::UnsafeDetected {
        seq![plain(" "@)]
    } else {
        Seq::empty()
    }) + seq![plain(" "@ + vines), name]
}

/// What the table is made from.
pub struct TableParameters<'a> {
    pub geiger_context: &'a GeigerContext,
    pub print_config: &'a PrintConfig,
    /// The keys of the `.rs` files that the build used.
    pub rs_files_used: &'a HashSet<u64>,
    /// What the package lines show of each package.
    pub package_infos: &'a HashMap<u64, PackageDisplayInfo>,
    /// Whether the terminal wants emoji.
    pub terminal_wants_emoji: bool,
}

/// The table line of a package: nothing where it has no statistics; else
/// its counters, symbol, vines and name, coloured after its status.
pub open spec fn package_table_line(p: TableParameters, k: u64, vines: Seq<char>) -> Option<
    Seq<(Seq<char>, TextStyle)>,
> {
    let ctx = p.geiger_context.package_id_to_metrics@;
    if !ctx.contains_key(k) {
        None
    } else {
        let rs = p.rs_files_used@;
        let status = pkg_status(ctx, rs, k);
        let fmt = p.print_config.output_format;
        let style = status_style(status, fmt);
        let will = spec_will_emoji(fmt, p.terminal_wants_emoji);
        Some(
            package_row(
                status,
                will,
                fmt,
                emoji_view(will, fmt, status_symbol(status)),
                (display_text(chunks_view(p.print_config.format.chunks@), p.package_infos@[k]), style),
                vines,
                (spec_table_row(pkg_used(ctx, rs, k), pkg_unused(ctx, rs, k)), style),
            ),
        )
    }
}

/// Appends a piece of text.
fn push_piece(line: &mut Vec<StyledText>, piece: StyledText)
    ensures
        line_view(final(line)@) == line_view(old(line)@).push(styled(piece)),
{
    line.push(piece);
    proof {
        assert(line_view(line@) =~= line_view(old(line)@).push(styled(piece)));
    }
}

/// The package line of the table from its pieces.
pub fn construct_package_text_tree_line(
    crate_detection_status: CrateDetectionStatus,
    emoji_symbols: &EmojiSymbols,
    icon: StyledText,
    package_name: StyledText,
    table_parameters: &TableParameters,
    tree_vines: String,
    unsafe_info: StyledText,
) -> (r: Vec<StyledText>)
    requires
        unsafe_info.text@.len() + 4 <= u64::MAX,
    ensures
        line_view(r@) == package_row(
            crate_detection_status,
            emoji_symbols.spec_will_output_emoji(),
            table_parameters.print_config.output_format,
            styled(icon),
            styled(package_name),
            tree_vines@,
            styled(unsafe_info),
        ),
{
    let output_format = table_parameters.print_config.output_format;
    let shift_chars = unsafe_info.text.unicode_len() as u64 + 4;
    let ghost row = styled(unsafe_info);
    let ghost ic = styled(icon);
    let mut line: Vec<StyledText> = Vec::new();
    push_piece(&mut line, unsafe_info);
    push_piece(&mut line, plain_text("  ".to_owned()));
    let mut icon_text = String::new();
    crate::text::push_padded(&mut icon_text, icon.text.as_str(), 2);
    proof {
        assert(icon_text@ =~= pad_right(ic.0, 2));
    }
    push_piece(&mut line, StyledText { text: icon_text, style: icon.style });
    let ghost head = line_view(line@);
    proof {
        assert(head =~= seq![row, plain("  "@), (pad_right(ic.0, 2), ic.1)]);
    }
    let ghost middle: Seq<(Seq<char>, TextStyle)>;
    if emoji_symbols.will_output_emoji() && output_format != OutputFormat::GitHubMarkdown {
        let mut cursor = "\r\x1B[".to_owned();
        push_decimal(&mut cursor, shift_chars);
        cursor.append("C");
        proof {
            assert(cursor@ =~= cursor_text(row.0.len() + 4));
            middle = seq![plain(cursor_text(row.0.len() + 4))];
        }
        push_piece(&mut line, plain_text(cursor));
    } else if output_format == OutputFormat::GitHubMarkdown && crate_detection_status
        == CrateDetectionStatus::UnsafeDetected {
        push_piece(&mut line, plain_text(" ".to_owned()));
        proof {
            middle = seq![plain(" "@)];
        }
    } else {
        proof {
            middle = Seq::empty();
        }
    }
    proof {
        assert(line_view(line@) =~= head + middle);
    }
    let mut vines = " ".to_owned();
    vines.append(tree_vines.as_str());
    let ghost before = line_view(line@);
    push_piece(&mut line, plain_text(vines));
    push_piece(&mut line, package_name);
    proof {
        assert(line_view(line@) =~= before + seq![plain(" "@ + tree_vines@), styled(package_name)]);
        assert(line_view(line@) =~= package_row(
            crate_detection_status,
            emoji_symbols.spec_will_output_emoji(),
            output_format,
            ic,
            styled(package_name),
            tree_vines@,
            row,
        ));
    }
    line
}


/// A package has statistics, its files' sums fit, and it has what its
/// line shows.
pub open spec fn package_ready(p: TableParameters, k: u64) -> bool {
    let ctx = p.geiger_context.package_id_to_metrics@;
    ctx.contains_key(k) ==> sums_fit(metrics_of(ctx, k)) && p.package_infos@.contains_key(k)
}

/// The count of packages of a status after one more package of `status`
/// was counted `inc` times.
pub open spec fn bumped(count: i32, status: CrateDetectionStatus, counted: CrateDetectionStatus, inc: int) -> int {
    count + if status == counted {
        inc
    } else {
        0
    }
}

/// The table line of a package. The first time a package is met it is
/// counted: in the totals of its used and unused counters and in the count
/// of packages of its status, or, where it has no statistics, as a
/// warning. A package without statistics gets no line.
pub fn text_tree_line_package_to_table_line_string(
    emoji_symbols: &EmojiSymbols,
    total_package_counts: &mut TotalPackageCounts,
    visited_package_ids: &mut HashSet<u64>,
    warning_count: &mut u64,
    package_id: u64,
    table_parameters: &TableParameters,
    tree_vines: String,
) -> (r: Option<Vec<StyledText>>)
    requires
        emoji_symbols.format() == table_parameters.print_config.output_format,
        emoji_symbols.terminal_emoji() == table_parameters.terminal_wants_emoji,
        package_ready(*table_parameters, package_id),
        !old(visited_package_ids)@.contains(package_id) ==> ({
            let ctx = table_parameters.geiger_context.package_id_to_metrics@;
            let rs = table_parameters.rs_files_used@;
            if ctx.contains_key(package_id) {
                &&& block_addable(
                    old(total_package_counts).total_counter_block,
                    pkg_used(ctx, rs, package_id),
                )
                &&& block_addable(
                    old(total_package_counts).total_unused_counter_block,
                    pkg_unused(ctx, rs, package_id),
                )
                &&& old(total_package_counts).none_detected_forbids_unsafe < i32::MAX
                &&& old(total_package_counts).none_detected_allows_unsafe < i32::MAX
                &&& old(total_package_counts).unsafe_detected < i32::MAX
            } else {
                *old(warning_count) < u64::MAX
            }
        }),
    ensures
        final(visited_package_ids)@ == old(visited_package_ids)@.insert(package_id),
        old(visited_package_ids)@.contains(package_id) ==> *final(total_package_counts) == *old(
            total_package_counts,
        ) && *final(warning_count) == *old(warning_count),
        r.is_some() == package_table_line(*table_parameters, package_id, tree_vines@).is_some(),
        r matches Some(l) ==> line_view(l@) == package_table_line(
            *table_parameters,
            package_id,
            tree_vines@,
        ).unwrap(),
        ({
            let ctx = table_parameters.geiger_context.package_id_to_metrics@;
            let rs = table_parameters.rs_files_used@;
            let new = !old(visited_package_ids)@.contains(package_id);
            let inc: int = if new {
                1
            } else {
                0
            };
            let oc = *old(total_package_counts);
            let c = *final(total_package_counts);
            if ctx.contains_key(package_id) {
                let status = pkg_status(ctx, rs, package_id);
                &&& *final(warning_count) == *old(warning_count)
                &&& c.total_counter_block == if new {
                    block_sum(oc.total_counter_block, pkg_used(ctx, rs, package_id))
                } else {
                    oc.total_counter_block
                }
                &&& c.total_unused_counter_block == if new {
                    block_sum(oc.total_unused_counter_block, pkg_unused(ctx, rs, package_id))
                } else {
                    oc.total_unused_counter_block
                }
                &&& c.none_detected_forbids_unsafe == bumped(
                    oc.none_detected_forbids_unsafe,
                    status,
                    CrateDetectionStatus::NoneDetectedForbidsUnsafe,
                    inc,
                )
                &&& c.none_detected_allows_unsafe == bumped(
                    oc.none_detected_allows_unsafe,
                    status,
                    CrateDetectionStatus::NoneDetectedAllowsUnsafe,
                    inc,
                )
                &&& c.unsafe_detected == bumped(
                    oc.unsafe_detected,
                    status,
                    CrateDetectionStatus::UnsafeDetected,
                    inc,
                )
            } else {
                &&& *final(warning_count) == *old(warning_count) + inc
                &&& c == oc
            }
        }),
{
    let package_is_new = visited_package_ids.insert(package_id);
    let package_metrics = match table_parameters.geiger_context.package_id_to_metrics.get(
        &package_id,
    ) {
        Some(m) => m,
        None => {
            if package_is_new {
                *warning_count = *warning_count + 1;
            }
            return None;
        },
    };
    let ghost ctx = table_parameters.geiger_context.package_id_to_metrics@;
    let ghost rs = table_parameters.rs_files_used@;
    let ghost m = package_metrics.rs_path_to_metrics@;
    let unsafe_info = unsafe_stats(package_metrics, table_parameters.rs_files_used);
    proof {
        crate::scan::law_used_and_unused_partition_the_package(m, rs);
    }
    if package_is_new {
        total_package_counts.total_counter_block = total_package_counts.total_counter_block.add(
            unsafe_info.used,
        );
        total_package_counts.total_unused_counter_block =
        total_package_counts.total_unused_counter_block.add(unsafe_info.unused);
    }
    let unsafe_found = unsafe_info.used.has_unsafe();
    let crate_forbids_unsafe = unsafe_info.forbids_unsafe;
    let total_inc: i32 = if package_is_new {
        1
    } else {
        0
    };
    let crate_detection_status = get_crate_detection_status_and_update_package_counts(
        crate_forbids_unsafe,
        total_package_counts,
        total_inc,
        unsafe_found,
    );
    let output_format = table_parameters.print_config.output_format;
    let icon = emoji_symbols.emoji(symbol_kind_for_status(crate_detection_status));
    let info = table_parameters.package_infos.get(&package_id).unwrap();
    let package_name = colorize(
        &crate_detection_status,
        output_format,
        table_parameters.print_config.format.display(info),
    );
    let row = colorize(
        &crate_detection_status,
        output_format,
        table_row(&unsafe_info.used, &unsafe_info.unused),
    );
    proof {
        lemma_table_row_len(unsafe_info.used, unsafe_info.unused);
    }
    let line = construct_package_text_tree_line(
        crate_detection_status,
        emoji_symbols,
        icon,
        package_name,
        table_parameters,
        tree_vines,
        row,
    );
    Some(line)
}


// ---------------------------------------------------------------------------
// Totals over packages

/// Counter `i` of the used files of a package; zero for a package without
/// statistics.
pub open spec fn used_field(ctx: Map<u64, PackageMetrics>, rs: Set<u64>, i: int) -> spec_fn(u64) -> int {
    |k: u64|
        if ctx.contains_key(k) {
            field_sum(metrics_of(ctx, k), metrics_of(ctx, k).dom().intersect(rs), i)
        } else {
            0int
        }
}

/// Counter `i` of the unused files of a package.
pub open spec fn unused_field(ctx: Map<u64, PackageMetrics>, rs: Set<u64>, i: int) -> spec_fn(u64) -> int {
    |k: u64|
        if ctx.contains_key(k) {
            field_sum(metrics_of(ctx, k), metrics_of(ctx, k).dom().difference(rs), i)
        } else {
            0int
        }
}

/// Counter `i` of all files of a package.
pub open spec fn total_field(ctx: Map<u64, PackageMetrics>, i: int) -> spec_fn(u64) -> int {
    |k: u64|
        if ctx.contains_key(k) {
            field_sum(metrics_of(ctx, k), metrics_of(ctx, k).dom(), i)
        } else {
            0int
        }
}

/// Every counter, summed over all files of all packages, fits in a `u64`.
pub open spec fn table_fits(ctx: Map<u64, PackageMetrics>) -> bool {
    &&& ctx.dom().finite()
    &&& forall|k: u64| #[trigger] ctx.contains_key(k) ==> sums_fit(metrics_of(ctx, k))
    &&& forall|i: int| 0 <= i < 10 ==> #[trigger] set_sum(ctx.dom(), total_field(ctx, i)) <= u64::MAX
}

/// The counters of the used (or unused) files, summed over the packages.
pub open spec fn packages_block(ctx: Map<u64, PackageMetrics>, rs: Set<u64>, keys: Set<u64>, used: bool) -> CounterBlock {
    let f = |i: int|
        (set_sum(
            keys,
            if used {
                used_field(ctx, rs, i)
            } else {
                unused_field(ctx, rs, i)
            },
        )) as u64;
    CounterBlock {
        functions: Count { safe: f(0), unsafe_: f(1) },
        exprs: Count { safe: f(2), unsafe_: f(3) },
        item_impls: Count { safe: f(4), unsafe_: f(5) },
        item_traits: Count { safe: f(6), unsafe_: f(7) },
        methods: Count { safe: f(8), unsafe_: f(9) },
    }
}

/// How many of the packages have the status.
pub open spec fn status_count(ctx: Map<u64, PackageMetrics>, rs: Set<u64>, keys: Set<u64>, s: CrateDetectionStatus) -> int {
    set_sum(
        keys,
        |k: u64|
            if pkg_status(ctx, rs, k) == s {
                1int
            } else {
                0int
            },
    )
}

proof fn lemma_block_eq(a: CounterBlock, b: CounterBlock)
    requires
        forall|i: int| 0 <= i < 10 ==> #[trigger] block_field(a, i) == block_field(b, i),
    ensures
        a == b,
{
    assert(block_field(a, 0) == block_field(b, 0));
    assert(block_field(a, 1) == block_field(b, 1));
    assert(block_field(a, 2) == block_field(b, 2));
    assert(block_field(a, 3) == block_field(b, 3));
    assert(block_field(a, 4) == block_field(b, 4));
    assert(block_field(a, 5) == block_field(b, 5));
    assert(block_field(a, 6) == block_field(b, 6));
    assert(block_field(a, 7) == block_field(b, 7));
    assert(block_field(a, 8) == block_field(b, 8));
    assert(block_field(a, 9) == block_field(b, 9));
}

/// The counters of a package's used and unused files are its totals, and
/// fit.
proof fn lemma_package_fields(ctx: Map<u64, PackageMetrics>, rs: Set<u64>, k: u64, i: int)
    requires
        table_fits(ctx),
        0 <= i < 10,
    ensures
        0 <= used_field(ctx, rs, i)(k),
        0 <= unused_field(ctx, rs, i)(k),
        used_field(ctx, rs, i)(k) + unused_field(ctx, rs, i)(k) == total_field(ctx, i)(k),
        ctx.contains_key(k) ==> block_field(pkg_used(ctx, rs, k), i) == used_field(ctx, rs, i)(k),
        ctx.contains_key(k) ==> block_field(pkg_unused(ctx, rs, k), i) == unused_field(ctx, rs, i)(
            k,
        ),
{
    if ctx.contains_key(k) {
        let m = metrics_of(ctx, k);
        assert(m.dom().finite());
        let a = m.dom().intersect(rs);
        let b = m.dom().difference(rs);
        assert(a.union(b) =~= m.dom());
        lemma_field_sum_split(m, a, b, i);
        lemma_field_sum_subset(m, a, m.dom(), i);
        lemma_field_sum_subset(m, b, m.dom(), i);
        assert(sums_fit(m));
        assert(field_sum(m, m.dom(), i) <= u64::MAX);
    }
}

/// Over packages with statistics, the sums of the used and of the unused
/// counters are not negative and together fit.
proof fn lemma_keys_fit(ctx: Map<u64, PackageMetrics>, rs: Set<u64>, keys: Set<u64>)
    requires
        table_fits(ctx),
        keys.finite(),
        keys.subset_of(ctx.dom()),
    ensures
        forall|i: int|
            0 <= i < 10 ==> 0 <= #[trigger] set_sum(keys, used_field(ctx, rs, i)) && 0 <= set_sum(
                keys,
                unused_field(ctx, rs, i),
            ) && set_sum(keys, used_field(ctx, rs, i)) + set_sum(keys, unused_field(ctx, rs, i))
                <= u64::MAX,
{
    assert(ctx.dom().finite());
    assert forall|i: int| 0 <= i < 10 implies 0 <= #[trigger] set_sum(keys, used_field(ctx, rs, i)) && 0
        <= set_sum(keys, unused_field(ctx, rs, i)) && set_sum(keys, used_field(ctx, rs, i)) + set_sum(
        keys,
        unused_field(ctx, rs, i),
    ) <= u64::MAX by {
        let u = used_field(ctx, rs, i);
        let n = unused_field(ctx, rs, i);
        let t = total_field(ctx, i);
        assert forall|k: u64| #[trigger] u(k) >= 0 && n(k) >= 0 && t(k) >= 0 && t(k) == u(k) + n(k) by {
            lemma_package_fields(ctx, rs, k, i);
        }
        assert forall|k: u64| #[trigger] u(k) >= 0 by {
            lemma_package_fields(ctx, rs, k, i);
        }
        assert forall|k: u64| #[trigger] n(k) >= 0 by {
            lemma_package_fields(ctx, rs, k, i);
        }
        assert forall|k: u64| #[trigger] t(k) >= 0 by {
            lemma_package_fields(ctx, rs, k, i);
        }
        assert forall|k: u64| keys.contains(k) implies #[trigger] t(k) == u(k) + n(k) by {
            lemma_package_fields(ctx, rs, k, i);
        }
        lemma_set_sum_add(keys, u, n, t);
        lemma_set_sum_subset(keys, keys, u);
        lemma_set_sum_subset(keys, keys, n);
        lemma_set_sum_subset(keys, ctx.dom(), t);
    }
}

/// Adding a package to the packages adds its block to the totals.
proof fn lemma_packages_block_insert(
    ctx: Map<u64, PackageMetrics>,
    rs: Set<u64>,
    keys: Set<u64>,
    k: u64,
    used: bool,
)
    requires
        table_fits(ctx),
        keys.finite(),
        !keys.contains(k),
        keys.insert(k).subset_of(ctx.dom()),
    ensures
        block_addable(
            packages_block(ctx, rs, keys, used),
            if used {
                pkg_used(ctx, rs, k)
            } else {
                pkg_unused(ctx, rs, k)
            },
        ),
        packages_block(ctx, rs, keys.insert(k), used) == block_sum(
            packages_block(ctx, rs, keys, used),
            if used {
                pkg_used(ctx, rs, k)
            } else {
                pkg_unused(ctx, rs, k)
            },
        ),
{
    let b = if used {
        pkg_used(ctx, rs, k)
    } else {
        pkg_unused(ctx, rs, k)
    };
    lemma_keys_fit(ctx, rs, keys);
    lemma_keys_fit(ctx, rs, keys.insert(k));
    assert forall|i: int| 0 <= i < 10 implies #[trigger] block_field(
        packages_block(ctx, rs, keys.insert(k), used),
        i,
    ) == block_field(packages_block(ctx, rs, keys, used), i) + block_field(b, i)
        && block_field(packages_block(ctx, rs, keys, used), i) + block_field(b, i) <= u64::MAX by {
        let f = if used {
            used_field(ctx, rs, i)
        } else {
            unused_field(ctx, rs, i)
        };
        lemma_set_sum_insert(keys, k, f);
        lemma_package_fields(ctx, rs, k, i);
        assert(set_sum(keys.insert(k), used_field(ctx, rs, i)) >= 0);
        assert(set_sum(keys.insert(k), unused_field(ctx, rs, i)) >= 0);
        assert(set_sum(keys, used_field(ctx, rs, i)) >= 0);
        assert(set_sum(keys, unused_field(ctx, rs, i)) >= 0);
    }
    assert(block_addable(packages_block(ctx, rs, keys, used), b)) by {
        assert(block_field(packages_block(ctx, rs, keys.insert(k), used), 0) >= 0);
        assert(block_field(packages_block(ctx, rs, keys.insert(k), used), 1) >= 0);
        assert(block_field(packages_block(ctx, rs, keys.insert(k), used), 2) >= 0);
        assert(block_field(packages_block(ctx, rs, keys.insert(k), used), 3) >= 0);
        assert(block_field(packages_block(ctx, rs, keys.insert(k), used), 4) >= 0);
        assert(block_field(packages_block(ctx, rs, keys.insert(k), used), 5) >= 0);
        assert(block_field(packages_block(ctx, rs, keys.insert(k), used), 6) >= 0);
        assert(block_field(packages_block(ctx, rs, keys.insert(k), used), 7) >= 0);
        assert(block_field(packages_block(ctx, rs, keys.insert(k), used), 8) >= 0);
        assert(block_field(packages_block(ctx, rs, keys.insert(k), used), 9) >= 0);
    }
    assert forall|i: int| 0 <= i < 10 implies #[trigger] block_field(
        packages_block(ctx, rs, keys.insert(k), used),
        i,
    ) == block_field(block_sum(packages_block(ctx, rs, keys, used), b), i) by {
    }
    lemma_block_eq(
        packages_block(ctx, rs, keys.insert(k), used),
        block_sum(packages_block(ctx, rs, keys, used), b),
    );
}


// ---------------------------------------------------------------------------
// The table

/// The table line of a line of the tree: a group header after the empty
/// counter columns, nothing for normal dependencies; a package line.
pub open spec fn tree_line_table_line(p: TableParameters, l: TextTreeLineView) -> Option<
    Seq<(Seq<char>, TextStyle)>,
> {
    match l {
        TextTreeLineView::ExtraDepsGroup { kind, tree_vines } => match spec_kind_group_name(kind) {
            Some(name) => Some(seq![plain(spaces(table_indent()) + tree_vines + name)]),
            None => None,
        },
        TextTreeLineView::Package { id, tree_vines } => package_table_line(p, id, tree_vines),
    }
}

/// The table lines of the lines of the tree, in order.
pub open spec fn table_body(p: TableParameters, lines: Seq<TextTreeLineView>) -> Seq<
    Seq<(Seq<char>, TextStyle)>,
>
    decreases lines.len(),
{
    if lines.len() == 0 {
        Seq::empty()
    } else {
        let rest = table_body(p, lines.drop_last());
        match tree_line_table_line(p, lines.last()) {
            Some(l) => rest.push(l),
            None => rest,
        }
    }
}

/// The packages that the lines of the tree show.
pub open spec fn line_ids(lines: Seq<TextTreeLineView>) -> Set<u64>
    decreases lines.len(),
{
    if lines.len() == 0 {
        Set::empty()
    } else {
        let rest = line_ids(lines.drop_last());
        match lines.last() {
            TextTreeLineView::Package { id, .. } => rest.insert(id),
            _ => rest,
        }
    }
}

/// The footer of the table: the counters summed over the packages, each
/// package once, coloured after the status of the whole tree.
pub open spec fn table_footer_line(p: TableParameters, keys: Set<u64>) -> Seq<(Seq<char>, TextStyle)> {
    let ctx = p.geiger_context.package_id_to_metrics@;
    let rs = p.rs_files_used@;
    seq![
        (
            spec_table_row(packages_block(ctx, rs, keys, true), packages_block(ctx, rs, keys, false)),
            status_style(
                spec_total_detection_status(
                    status_count(ctx, rs, keys, CrateDetectionStatus::NoneDetectedForbidsUnsafe) as i32,
                    status_count(ctx, rs, keys, CrateDetectionStatus::NoneDetectedAllowsUnsafe) as i32,
                    status_count(ctx, rs, keys, CrateDetectionStatus::UnsafeDetected) as i32,
                ),
                OutputFormat::Utf8,
            ),
        ),
    ]
}

/// Appends the table line of a group header, where the group has one.
fn handle_text_tree_line_extra_deps_group(
    dep_kind: crate::report::DependencyKind,
    table_lines: &mut Vec<Vec<StyledText>>,
    tree_vines: String,
)
    ensures
        lines_of(final(table_lines)@) == match spec_kind_group_name(dep_kind) {
            Some(name) => lines_of(old(table_lines)@).push(
                seq![plain(spaces(table_indent()) + tree_vines@ + name)],
            ),
            None => lines_of(old(table_lines)@),
        },
{
    if let Some(table_line_string) = text_tree_line_extra_deps_group_to_table_line_string(
        dep_kind,
        tree_vines,
    ) {
        let mut line: Vec<StyledText> = Vec::new();
        line.push(plain_text(table_line_string));
        table_lines.push(line);
        proof {
            assert(line_view(line@) =~= seq![styled(line@[0])]);
            assert(lines_of(table_lines@) =~= lines_of(old(table_lines)@).push(line_view(line@)));
        }
    }
}

/// The packages met so far, with statistics.
pub open spec fn met_with_stats(p: TableParameters, visited: Set<u64>) -> Set<u64> {
    visited.intersect(p.geiger_context.package_id_to_metrics@.dom())
}

/// The counts and totals of the packages met so far.
pub open spec fn counts_are(p: TableParameters, c: TotalPackageCounts, visited: Set<u64>) -> bool {
    let ctx = p.geiger_context.package_id_to_metrics@;
    let rs = p.rs_files_used@;
    let s = met_with_stats(p, visited);
    &&& c.total_counter_block == packages_block(ctx, rs, s, true)
    &&& c.total_unused_counter_block == packages_block(ctx, rs, s, false)
    &&& c.none_detected_forbids_unsafe == status_count(
        ctx,
        rs,
        s,
        CrateDetectionStatus::NoneDetectedForbidsUnsafe,
    )
    &&& c.none_detected_allows_unsafe == status_count(
        ctx,
        rs,
        s,
        CrateDetectionStatus::NoneDetectedAllowsUnsafe,
    )
    &&& c.unsafe_detected == status_count(ctx, rs, s, CrateDetectionStatus::UnsafeDetected)
}

/// The table of the lines of a tree: a line for each group header and for
/// each package with statistics, an empty line, the footer with the totals
/// over the packages shown, and an empty line; and as many warnings as
/// packages shown without statistics.
pub fn create_table_from_text_tree_lines(
    table_parameters: &TableParameters,
    text_tree_lines: Vec<TextTreeLine>,
) -> (r: ScanResult)
    requires
        table_fits(table_parameters.geiger_context.package_id_to_metrics@),
        line_ids(lines_view(text_tree_lines@)).len() < i32::MAX,
        forall|k: u64|
            #[trigger] line_ids(lines_view(text_tree_lines@)).contains(k) ==> package_ready(
                *table_parameters,
                k,
            ),
    ensures
        lines_of(r.scan_output_lines@) == table_body(*table_parameters, lines_view(text_tree_lines@))
            + seq![
            seq![plain(Seq::empty())],
            table_footer_line(
                *table_parameters,
                met_with_stats(*table_parameters, line_ids(lines_view(text_tree_lines@))),
            ),
            seq![plain(Seq::empty())],
        ],
        r.warning_count == line_ids(lines_view(text_tree_lines@)).difference(
            table_parameters.geiger_context.package_id_to_metrics@.dom(),
        ).len(),
{
    let ghost p = *table_parameters;
    let ghost ctx = table_parameters.geiger_context.package_id_to_metrics@;
    let ghost rs = table_parameters.rs_files_used@;
    let ghost lv = lines_view(text_tree_lines@);
    let mut table_lines: Vec<Vec<StyledText>> = Vec::new();
    let mut total_package_counts = TotalPackageCounts::new();
    let mut warning_count: u64 = 0;
    let mut visited_package_ids: HashSet<u64> = HashSet::new();
    let emoji_symbols = EmojiSymbols::new(
        table_parameters.print_config.output_format,
        table_parameters.terminal_wants_emoji,
    );
    proof {
        let e = Set::<u64>::empty();
        assert(met_with_stats(p, e) =~= e);
        assert(e.difference(ctx.dom()) =~= e);
        crate::sums::lemma_set_sum_empty(|k: u64| if pkg_status(ctx, rs, k) == CrateDetectionStatus::NoneDetectedForbidsUnsafe { 1int } else { 0int });
        crate::sums::lemma_set_sum_empty(|k: u64| if pkg_status(ctx, rs, k) == CrateDetectionStatus::NoneDetectedAllowsUnsafe { 1int } else { 0int });
        crate::sums::lemma_set_sum_empty(|k: u64| if pkg_status(ctx, rs, k) == CrateDetectionStatus::UnsafeDetected { 1int } else { 0int });
        assert forall|i: int| 0 <= i < 10 implies #[trigger] block_field(packages_block(ctx, rs, e, true), i) == block_field(zero_block(), i) by {
            crate::sums::lemma_set_sum_empty(used_field(ctx, rs, i));
        }
        assert forall|i: int| 0 <= i < 10 implies #[trigger] block_field(packages_block(ctx, rs, e, false), i) == block_field(zero_block(), i) by {
            crate::sums::lemma_set_sum_empty(unused_field(ctx, rs, i));
        }
        lemma_block_eq(packages_block(ctx, rs, e, true), zero_block());
        lemma_block_eq(packages_block(ctx, rs, e, false), zero_block());
        assert(visited_package_ids@ =~= line_ids(lv.take(0)));
        assert(lv.take(0) =~= Seq::<TextTreeLineView>::empty());
        assert(lines_of(table_lines@) =~= Seq::<Seq<(Seq<char>, TextStyle)>>::empty());
        lemma_line_ids_finite(lv);
    }
    let mut t: usize = 0;
    while t < text_tree_lines.len()
        invariant
            p == *table_parameters,
            ctx == table_parameters.geiger_context.package_id_to_metrics@,
            rs == table_parameters.rs_files_used@,
            lv == lines_view(text_tree_lines@),
            table_fits(ctx),
            line_ids(lv).len() < i32::MAX,
            line_ids(lv).finite(),
            forall|k: u64| #[trigger] line_ids(lv).contains(k) ==> package_ready(p, k),
            emoji_symbols.format() == table_parameters.print_config.output_format,
            emoji_symbols.terminal_emoji() == table_parameters.terminal_wants_emoji,
            t <= text_tree_lines.len(),
            visited_package_ids@ == line_ids(lv.take(t as int)),
            visited_package_ids@.finite(),
            visited_package_ids@.len() <= line_ids(lv).len(),
            counts_are(p, total_package_counts, visited_package_ids@),
            status_count(ctx, rs, met_with_stats(p, visited_package_ids@), CrateDetectionStatus::NoneDetectedForbidsUnsafe)
                + status_count(ctx, rs, met_with_stats(p, visited_package_ids@), CrateDetectionStatus::NoneDetectedAllowsUnsafe)
                + status_count(ctx, rs, met_with_stats(p, visited_package_ids@), CrateDetectionStatus::UnsafeDetected)
                == met_with_stats(p, visited_package_ids@).len(),
            status_count(ctx, rs, met_with_stats(p, visited_package_ids@), CrateDetectionStatus::NoneDetectedForbidsUnsafe) >= 0,
            status_count(ctx, rs, met_with_stats(p, visited_package_ids@), CrateDetectionStatus::NoneDetectedAllowsUnsafe) >= 0,
            status_count(ctx, rs, met_with_stats(p, visited_package_ids@), CrateDetectionStatus::UnsafeDetected) >= 0,
            met_with_stats(p, visited_package_ids@).len() <= visited_package_ids@.len(),
            warning_count == visited_package_ids@.difference(ctx.dom()).len(),
            visited_package_ids@.difference(ctx.dom()).len() <= visited_package_ids@.len(),
            lines_of(table_lines@) == table_body(p, lv.take(t as int)),
        decreases text_tree_lines.len() - t,
    {
        let ghost v = visited_package_ids@;
        let ghost s0 = met_with_stats(p, v);
        let ghost before = lines_of(table_lines@);
        proof {
            let tk = lv.take(t + 1);
            assert(tk.drop_last() =~= lv.take(t as int));
            assert(tk.last() == lv[t as int]);
            assert(lv[t as int] == text_tree_lines@[t as int]@);
        }
        match &text_tree_lines[t] {
            TextTreeLine::ExtraDepsGroup { kind, tree_vines } => {
                handle_text_tree_line_extra_deps_group(*kind, &mut table_lines, tree_vines.clone());
                proof {
                    assert(visited_package_ids@ =~= line_ids(lv.take(t + 1)));
                }
            },
            TextTreeLine::Package { id, tree_vines } => {
                let k = *id;
                let ghost new = !v.contains(k);
                proof {
                    assert(line_ids(lv.take(t + 1)) == v.insert(k));
                    assert(line_ids(lv).contains(k)) by {
                        lemma_line_ids_prefix(lv, t + 1);
                    }
                    let fc = |j: u64| if pkg_status(ctx, rs, j) == CrateDetectionStatus::NoneDetectedForbidsUnsafe { 1int } else { 0int };
                    let ac = |j: u64| if pkg_status(ctx, rs, j) == CrateDetectionStatus::NoneDetectedAllowsUnsafe { 1int } else { 0int };
                    let uc = |j: u64| if pkg_status(ctx, rs, j) == CrateDetectionStatus::UnsafeDetected { 1int } else { 0int };
                    if new && ctx.contains_key(k) {
                        assert(met_with_stats(p, v.insert(k)) =~= s0.insert(k));
                        assert(s0.finite());
                        assert(!s0.contains(k));
                        assert(s0.insert(k).subset_of(ctx.dom()));
                        lemma_packages_block_insert(ctx, rs, s0, k, true);
                        lemma_packages_block_insert(ctx, rs, s0, k, false);
                    }
                    if new && !ctx.contains_key(k) {
                        assert(v.insert(k).difference(ctx.dom()) =~= v.difference(ctx.dom()).insert(k));
                        assert(met_with_stats(p, v.insert(k)) =~= s0);
                    }
                    if !new {
                        assert(v.insert(k) =~= v);
                    }
                }
                let line = text_tree_line_package_to_table_line_string(
                    &emoji_symbols,
                    &mut total_package_counts,
                    &mut visited_package_ids,
                    &mut warning_count,
                    k,
                    table_parameters,
                    tree_vines.clone(),
                );
                if let Some(l) = line {
                    table_lines.push(l);
                }
                proof {
                    let s1 = met_with_stats(p, visited_package_ids@);
                    let fc = |j: u64| if pkg_status(ctx, rs, j) == CrateDetectionStatus::NoneDetectedForbidsUnsafe { 1int } else { 0int };
                    let ac = |j: u64| if pkg_status(ctx, rs, j) == CrateDetectionStatus::NoneDetectedAllowsUnsafe { 1int } else { 0int };
                    let uc = |j: u64| if pkg_status(ctx, rs, j) == CrateDetectionStatus::UnsafeDetected { 1int } else { 0int };
                    if new && ctx.contains_key(k) {
                        lemma_set_sum_insert(s0, k, fc);
                        lemma_set_sum_insert(s0, k, ac);
                        lemma_set_sum_insert(s0, k, uc);
                        assert(s1 == s0.insert(k));
                        vstd::set_lib::lemma_len_subset(s0, v);
                    }
                    if new && ctx.contains_key(k) {
                        assert(v.insert(k).difference(ctx.dom()) =~= v.difference(ctx.dom()));
                    }
                    if new && !ctx.contains_key(k) {
                        let w = v.difference(ctx.dom());
                        assert(w.finite());
                        assert(!w.contains(k));
                        assert(w.insert(k).len() == w.len() + 1);
                        assert(visited_package_ids@.difference(ctx.dom()) =~= w.insert(k));
                    }
                    if new {
                        lemma_line_ids_prefix(lv, t + 1);
                        vstd::set_lib::lemma_len_subset(visited_package_ids@, line_ids(lv));
                        vstd::set_lib::lemma_len_subset(s1, visited_package_ids@);
                        vstd::set_lib::lemma_len_subset(visited_package_ids@.difference(ctx.dom()), visited_package_ids@);
                    }
                }
            },
        }
        proof {
            assert(lines_of(table_lines@) =~= table_body(p, lv.take(t + 1)));
        }
        t = t + 1;
    }
    proof {
        assert(lv.take(lv.len() as int) =~= lv);
    }
    let ghost body = lines_of(table_lines@);
    let mut empty_line: Vec<StyledText> = Vec::new();
    empty_line.push(plain_text(String::new()));
    table_lines.push(empty_line);
    let total_detection_status = total_package_counts.get_total_detection_status();
    proof {
        lemma_keys_fit(ctx, rs, met_with_stats(p, visited_package_ids@));
    }
    let footer = table_footer(
        total_package_counts.total_counter_block,
        total_package_counts.total_unused_counter_block,
        total_detection_status,
    );
    let mut footer_line: Vec<StyledText> = Vec::new();
    footer_line.push(footer);
    table_lines.push(footer_line);
    let mut last_line: Vec<StyledText> = Vec::new();
    last_line.push(plain_text(String::new()));
    table_lines.push(last_line);
    proof {
        assert(line_view(empty_line@) =~= seq![plain(Seq::empty())]);
        assert(line_view(last_line@) =~= seq![plain(Seq::empty())]);
        assert(line_view(footer_line@) =~= table_footer_line(p, met_with_stats(p, line_ids(lv))));
        assert(lines_of(table_lines@) =~= body + seq![
            seq![plain(Seq::empty())],
            table_footer_line(p, met_with_stats(p, line_ids(lv))),
            seq![plain(Seq::empty())],
        ]);
    }
    ScanResult { scan_output_lines: table_lines, warning_count }
}

/// The lines show finitely many packages.
pub proof fn lemma_line_ids_finite(lines: Seq<TextTreeLineView>)
    ensures
        line_ids(lines).finite(),
    decreases lines.len(),
{
    if lines.len() > 0 {
        lemma_line_ids_finite(lines.drop_last());
    }
}

/// The packages of a prefix of the lines are among those of all lines.
pub proof fn lemma_line_ids_prefix(lines: Seq<TextTreeLineView>, n: int)
    requires
        0 <= n <= lines.len(),
    ensures
        line_ids(lines.take(n)).subset_of(line_ids(lines)),
    decreases lines.len(),
{
    if n < lines.len() {
        assert(lines.drop_last().take(n) =~= lines.take(n));
        lemma_line_ids_prefix(lines.drop_last(), n);
    } else {
        assert(lines.take(n) =~= lines);
    }
}

} // verus!
