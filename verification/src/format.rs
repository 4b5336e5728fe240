//! Formatting of the scan output: the pattern language for package lines,
//! tree symbols, colours, emoji and table rows.

pub mod parse;
pub mod pattern;
pub mod print_config;
pub mod table;


use vstd::prelude::*;
use vstd::string::StringExecFns;
use crate::report::{block_addable, block_sum, Count, CounterBlock, DependencyKind, zero_block};
use crate::text::{decimal, decimal_string, pad_right, push_padded, spaces, push_spaces};

verus! {

/// A piece of a package line pattern.
#[derive(Clone, Debug, PartialEq, Eq)]
pub enum Chunk {
    License,
    Package,
    Raw(String),
    Repository,
}

/// How a crate relates to `unsafe` code.
#[derive(Clone, Copy, Debug, PartialEq, Eq, Structural)]
pub enum CrateDetectionStatus {
    NoneDetectedForbidsUnsafe,
    NoneDetectedAllowsUnsafe,
    UnsafeDetected,
}

/// The symbols of the output.
#[derive(Clone, Copy, Debug, PartialEq, Eq, Structural)]
pub enum SymbolKind {
    Lock,
    QuestionMark,
    Rads,
}

/// An error in a package line pattern.
#[derive(Clone, Debug, PartialEq, Eq)]
pub struct FormatError {
    pub message: String,
}

/// The character set of the tree symbols.
#[derive(Clone, Copy, Debug, PartialEq, Eq, Structural)]
pub enum Charset {
    Utf8,
    Ascii,
}

/// The output format of a scan.
#[derive(Clone, Copy, Debug, PartialEq, Eq, Structural)]
pub enum OutputFormat {
    Ascii,
    Json,
    GitHubMarkdown,
    Ratio,
    Utf8,
}

impl Default for OutputFormat {
    fn default() -> (f: OutputFormat)
        ensures
            f == OutputFormat::Utf8,
    {
        OutputFormat::Utf8
    }
}

/// What comes before each package name in the tree.
#[derive(Clone, Copy, Debug, PartialEq, Eq, Structural)]
pub enum Prefix {
    Depth,
    Indent,
    /// No prefix at all.
    NoPrefix,
}

/// The section header for a kind of extra dependencies.
pub open spec fn spec_kind_group_name(dep_kind: DependencyKind) -> Option<Seq<char>> {
    match dep_kind {
        DependencyKind::Build => Some("[build-dependencies]"@),
        DependencyKind::Development => Some("[dev-dependencies]"@),
        DependencyKind::Normal => None,
    }
}

/// The section header for a kind of extra dependencies, or nothing for
/// normal dependencies.
pub fn get_kind_group_name(dep_kind: DependencyKind) -> (r: Option<&'static str>)
    ensures
        r.is_some() == spec_kind_group_name(dep_kind).is_some(),
        r matches Some(s) ==> s@ == spec_kind_group_name(dep_kind).unwrap(),
{
    match dep_kind {
        DependencyKind::Build => Some("[build-dependencies]"),
        DependencyKind::Development => Some("[dev-dependencies]"),
        DependencyKind::Normal => None,
    }
}

// ---------------------------------------------------------------------------
// Tree symbols

/// The symbols that draw the dependency tree.
#[derive(Debug, PartialEq)]
pub struct TreeSymbols {
    pub down: &'static str,
    pub tee: &'static str,
    pub ell: &'static str,
    pub right: &'static str,
}

/// The tree symbols of a character set.
pub open spec fn symbols_are(t: TreeSymbols, charset: Charset) -> bool {
    match charset {
        Charset::Utf8 => t.down@ == "│"@ && t.tee@ == "├"@ && t.ell@ == "└"@ && t.right@ == "─"@,
        Charset::Ascii => t.down@ == "|"@ && t.tee@ == "|"@ && t.ell@ == "`"@ && t.right@ == "-"@,
    }
}

fn ascii_tree_symbols() -> (t: TreeSymbols)
    ensures
        symbols_are(t, Charset::Ascii),
{
    TreeSymbols { down: "|", tee: "|", ell: "`", right: "-" }
}

fn utf8_tree_symbols() -> (t: TreeSymbols)
    ensures
        symbols_are(t, Charset::Utf8),
{
    TreeSymbols { down: "│", tee: "├", ell: "└", right: "─" }
}

/// The tree symbols of a character set.
pub fn get_tree_symbols(charset: Charset) -> (t: TreeSymbols)
    ensures
        symbols_are(t, charset),
{
    match charset {
        Charset::Utf8 => utf8_tree_symbols(),
        Charset::Ascii => ascii_tree_symbols(),
    }
}

/// The tree symbols for an output format: ASCII for the ASCII format,
/// UTF-8 for every other one.
pub fn get_tree_symbols_for_output_format(output_format: OutputFormat) -> (t: TreeSymbols)
    ensures
        symbols_are(
            t,
            if output_format == OutputFormat::Ascii {
                Charset::Ascii
            } else {
                Charset::Utf8
            },
        ),
{
    match output_format {
        OutputFormat::Ascii => ascii_tree_symbols(),
        _ => utf8_tree_symbols(),
    }
}

// ---------------------------------------------------------------------------
// Colours

/// The colour and weight in which a text is shown.
#[derive(Clone, Copy, Debug, PartialEq, Eq, Structural)]
pub enum TextStyle {
    /// Shown without any styling.
    Plain,
    Green,
    Normal,
    Red,
    RedBold,
    Bold,
}

/// A text and the style in which it is shown.
#[derive(Clone, Debug, PartialEq, Eq)]
pub struct StyledText {
    pub text: String,
    pub style: TextStyle,
}

/// The style of a text about a crate with the given status, in an output
/// format.
pub open spec fn status_style(
    crate_detection_status: CrateDetectionStatus,
    output_format: OutputFormat,
) -> TextStyle {
    match output_format {
        OutputFormat::GitHubMarkdown => TextStyle::Plain,
        _ => match crate_detection_status {
            CrateDetectionStatus::NoneDetectedForbidsUnsafe => TextStyle::Green,
            CrateDetectionStatus::NoneDetectedAllowsUnsafe => TextStyle::Normal,
            CrateDetectionStatus::UnsafeDetected => TextStyle::RedBold,
        },
    }
}

/// Colours a text after the status of the crate it is about: green when no
/// unsafe code was found and the crate forbids it, red and bold when unsafe
/// code was found. GitHub Markdown output is never coloured.
pub fn colorize(
    crate_detection_status: &CrateDetectionStatus,
    output_format: OutputFormat,
    string: String,
) -> (r: StyledText)
    ensures
        r.text@ == string@,
        r.style == status_style(*crate_detection_status, output_format),
{
    let style = match output_format {
        OutputFormat::GitHubMarkdown => TextStyle::Plain,
        _ => match crate_detection_status {
            CrateDetectionStatus::NoneDetectedForbidsUnsafe => TextStyle::Green,
            CrateDetectionStatus::NoneDetectedAllowsUnsafe => TextStyle::Normal,
            CrateDetectionStatus::UnsafeDetected => TextStyle::RedBold,
        },
    };
    StyledText { text: string, style }
}

// ---------------------------------------------------------------------------
// Emoji

/// The symbol of a kind, by its text and style: an emoji where the output
/// shows emoji, else `:)`, `?` or `!` coloured after the status that the
/// symbol stands for.
pub open spec fn emoji_view(will_output_emoji: bool, output_format: OutputFormat, kind: SymbolKind) -> (
    Seq<char>,
    TextStyle,
) {
    if will_output_emoji {
        (
            match kind {
                SymbolKind::Lock => "🔒"@,
                SymbolKind::QuestionMark => "❓"@,
                SymbolKind::Rads => "☢️"@,
            },
            TextStyle::Plain,
        )
    } else {
        (
            match kind {
                SymbolKind::Lock => ":)"@,
                SymbolKind::QuestionMark => "?"@,
                SymbolKind::Rads => "!"@,
            },
            status_style(
                match kind {
                    SymbolKind::Lock => CrateDetectionStatus::NoneDetectedForbidsUnsafe,
                    SymbolKind::QuestionMark => CrateDetectionStatus::NoneDetectedAllowsUnsafe,
                    SymbolKind::Rads => CrateDetectionStatus::UnsafeDetected,
                },
                output_format,
            ),
        )
    }
}

/// The symbols of an output, as emoji where the output shows emoji, as
/// coloured ASCII otherwise.
pub struct EmojiSymbols {
    output_format: OutputFormat,
    terminal_wants_emoji: bool,
}

impl EmojiSymbols {
    /// The output format.
    pub closed spec fn format(&self) -> OutputFormat {
        self.output_format
    }

    /// Whether the terminal wants emoji.
    pub closed spec fn terminal_emoji(&self) -> bool {
        self.terminal_wants_emoji
    }

    /// The symbols of an output in `output_format`, on a terminal that does
    /// or does not want emoji.
    pub fn new(output_format: OutputFormat, terminal_wants_emoji: bool) -> (e: EmojiSymbols)
        ensures
            e.format() == output_format,
            e.terminal_emoji() == terminal_wants_emoji,
    {
        EmojiSymbols { output_format, terminal_wants_emoji }
    }

    /// The output shows emoji: UTF-8 output on a terminal that wants them,
    /// and GitHub Markdown.
    pub open spec fn spec_will_output_emoji(&self) -> bool {
        (self.format() == OutputFormat::Utf8 && self.terminal_emoji()) || self.format()
            == OutputFormat::GitHubMarkdown
    }

    /// Whether the output shows emoji.
    pub fn will_output_emoji(&self) -> (r: bool)
        ensures
            r == self.spec_will_output_emoji(),
    {
        (self.output_format == OutputFormat::Utf8 && self.terminal_wants_emoji)
            || self.output_format == OutputFormat::GitHubMarkdown
    }

    /// The symbol of a kind.
    pub fn emoji(&self, kind: SymbolKind) -> (r: StyledText)
        ensures
            (r.text@, r.style) == emoji_view(self.spec_will_output_emoji(), self.format(), kind),
    {
        if self.will_output_emoji() {
            let text = match kind {
                SymbolKind::Lock => "🔒",
                SymbolKind::QuestionMark => "❓",
                SymbolKind::Rads => "☢️",
            };
            StyledText { text: text.to_owned(), style: TextStyle::Plain }
        } else {
            match kind {
                SymbolKind::Lock => colorize(
                    &CrateDetectionStatus::NoneDetectedForbidsUnsafe,
                    self.output_format,
                    ":)".to_owned(),
                ),
                SymbolKind::QuestionMark => colorize(
                    &CrateDetectionStatus::NoneDetectedAllowsUnsafe,
                    self.output_format,
                    "?".to_owned(),
                ),
                SymbolKind::Rads => colorize(
                    &CrateDetectionStatus::UnsafeDetected,
                    self.output_format,
                    "!".to_owned(),
                ),
            }
        }
    }
}


/// Colours a text after the status of the crate it is about, in every
/// output format.
pub fn colorize_by_status(string: String, crate_detection_status: &CrateDetectionStatus) -> (r:
    StyledText)
    ensures
        r.text@ == string@,
        r.style == status_style(*crate_detection_status, OutputFormat::Utf8),
{
    colorize(crate_detection_status, OutputFormat::Utf8, string)
}

// ---------------------------------------------------------------------------
// Table rows

/// The column headers of the table.
pub fn unsafe_counters_header() -> (h: Vec<&'static str>)
    ensures
        h@.len() == 6,
        h@[0]@ == "Functions "@,
        h@[1]@ == "Expressions "@,
        h@[2]@ == "Impls "@,
        h@[3]@ == "Traits "@,
        h@[4]@ == "Methods "@,
        h@[5]@ == "Dependency"@,
{
    vec!["Functions ", "Expressions ", "Impls ", "Traits ", "Methods ", "Dependency"]
}

/// `x/y`: the unsafe items used by the build, and all unsafe items.
pub open spec fn ratio_text(used: Count, not_used: Count) -> Seq<char> {
    decimal(used.unsafe_ as nat) + seq!['/'] + decimal((used.unsafe_ + not_used.unsafe_) as nat)
}

/// The unsafe counters of used and unused code can be added.
pub open spec fn unsafe_addable(used: CounterBlock, not_used: CounterBlock) -> bool {
    &&& used.functions.unsafe_ + not_used.functions.unsafe_ <= u64::MAX
    &&& used.exprs.unsafe_ + not_used.exprs.unsafe_ <= u64::MAX
    &&& used.item_impls.unsafe_ + not_used.item_impls.unsafe_ <= u64::MAX
    &&& used.item_traits.unsafe_ + not_used.item_traits.unsafe_ <= u64::MAX
    &&& used.methods.unsafe_ + not_used.methods.unsafe_ <= u64::MAX
}

/// A table row: for functions, expressions, impls, traits and methods,
/// `x/y` left-aligned in columns of 10, 12, 6, 7 and 7 characters, each
/// followed by a space but the last.
pub open spec fn spec_table_row(used: CounterBlock, not_used: CounterBlock) -> Seq<char> {
    pad_right(ratio_text(used.functions, not_used.functions), 10) + seq![' '] + pad_right(
        ratio_text(used.exprs, not_used.exprs),
        12,
    ) + seq![' '] + pad_right(ratio_text(used.item_impls, not_used.item_impls), 6) + seq![' ']
        + pad_right(ratio_text(used.item_traits, not_used.item_traits), 7) + seq![' '] + pad_right(
        ratio_text(used.methods, not_used.methods),
        7,
    )
}


/// Ten to the power `k`.
pub open spec fn pow10(k: nat) -> nat
    decreases k,
{
    if k == 0 {
        1
    } else {
        10 * pow10((k - 1) as nat)
    }
}

/// A number below ten to the power `k` has at most `k` digits.
proof fn lemma_decimal_len(n: nat, k: nat)
    requires
        n < pow10(k),
        k >= 1,
    ensures
        decimal(n).len() <= k,
    decreases k,
{
    if n >= 10 {
        if k == 1 {
            assert(pow10(1) == 10 * pow10(0));
        } else {
            assert(n / 10 < pow10((k - 1) as nat));
            lemma_decimal_len(n / 10, (k - 1) as nat);
        }
    }
}

/// A table row of addable counters is at most 209 characters long.
pub proof fn lemma_table_row_len(used: CounterBlock, not_used: CounterBlock)
    requires
        unsafe_addable(used, not_used),
    ensures
        spec_table_row(used, not_used).len() <= 209,
{
    assert(pow10(20) == 100000000000000000000) by {
        reveal_with_fuel(pow10, 21);
    }
    reveal_strlit("/");
    assert forall|a: Count, b: Count| a.unsafe_ + b.unsafe_ <= u64::MAX implies #[trigger] ratio_text(a, b).len() <= 41 by {
        lemma_decimal_len(a.unsafe_ as nat, 20);
        lemma_decimal_len((a.unsafe_ + b.unsafe_) as nat, 20);
    }
}

fn ratio_string(used: &Count, not_used: &Count) -> (r: String)
    requires
        used.unsafe_ + not_used.unsafe_ <= u64::MAX,
    ensures
        r@ == ratio_text(*used, *not_used),
{
    let mut s = decimal_string(used.unsafe_);
    proof {
        reveal_strlit("/");
    }
    s.append("/");
    let total = decimal_string(used.unsafe_ + not_used.unsafe_);
    s.append(total.as_str());
    proof {
        assert(s@ =~= ratio_text(*used, *not_used));
    }
    s
}

/// Appends a space.
fn push_space(s: &mut String)
    ensures
        final(s)@ == old(s)@ + seq![' '],
{
    proof {
        reveal_strlit(" ");
    }
    s.append(" ");
    proof {
        assert(seq![' '] =~= " "@);
    }
}

/// A table row of the unsafe counters of used code and of all code.
pub fn table_row(used: &CounterBlock, not_used: &CounterBlock) -> (r: String)
    requires
        unsafe_addable(*used, *not_used),
    ensures
        r@ == spec_table_row(*used, *not_used),
{
    let mut s = String::new();
    let f = ratio_string(&used.functions, &not_used.functions);
    push_padded(&mut s, f.as_str(), 10);
    push_space(&mut s);
    let e = ratio_string(&used.exprs, &not_used.exprs);
    push_padded(&mut s, e.as_str(), 12);
    push_space(&mut s);
    let i = ratio_string(&used.item_impls, &not_used.item_impls);
    push_padded(&mut s, i.as_str(), 6);
    push_space(&mut s);
    let t = ratio_string(&used.item_traits, &not_used.item_traits);
    push_padded(&mut s, t.as_str(), 7);
    push_space(&mut s);
    let m = ratio_string(&used.methods, &not_used.methods);
    push_padded(&mut s, m.as_str(), 7);
    proof {
        assert(s@ =~= spec_table_row(*used, *not_used));
    }
    s
}

/// The footer of the table: the row of the totals, coloured after the
/// status of the whole dependency tree.
pub fn table_footer(used: CounterBlock, not_used: CounterBlock, status: CrateDetectionStatus) -> (r:
    StyledText)
    requires
        unsafe_addable(used, not_used),
    ensures
        r.text@ == spec_table_row(used, not_used),
        r.style == status_style(status, OutputFormat::Utf8),
{
    let output = table_row(&used, &not_used);
    colorize_by_status(output, &status)
}

/// The width of the counter columns, the symbol column and the spaces
/// between them: where the tree starts in a table line.
pub open spec fn table_indent() -> nat {
    51
}

/// As many spaces as the counter columns and the symbol column take.
pub fn table_row_empty() -> (r: String)
    ensures
        r@ == spaces(table_indent()),
{
    let headers = unsafe_counters_header();
    let mut n: usize = 0;
    let mut i: usize = 0;
    proof {
        reveal_strlit("Functions ");
        reveal_strlit("Expressions ");
        reveal_strlit("Impls ");
        reveal_strlit("Traits ");
        reveal_strlit("Methods ");
    }
    while i < headers.len() - 1
        invariant
            headers@.len() == 6,
            headers@[0]@.len() == 10,
            headers@[1]@.len() == 12,
            headers@[2]@.len() == 6,
            headers@[3]@.len() == 7,
            headers@[4]@.len() == 8,
            i <= 5,
            n as int == (if i == 0 {
                0int
            } else if i == 1 {
                10int
            } else if i == 2 {
                22int
            } else if i == 3 {
                28int
            } else if i == 4 {
                35int
            } else {
                43int
            }),
        decreases 5 - i,
    {
        n = n + headers[i].unicode_len();
        i = i + 1;
    }
    // One space after each column, the width of the unsafety symbol, and
    // one space after the symbol.
    let n = n + (headers.len() - 1) + 2 + 1;
    let mut r = String::new();
    push_spaces(&mut r, n);
    proof {
        assert(r@ =~= spaces(table_indent()));
    }
    r
}

/// The table line of the header of a group of extra dependencies: the
/// tree vines after the empty counter columns, then the group name.
pub fn text_tree_line_extra_deps_group_to_table_line_string(
    dep_kind: DependencyKind,
    tree_vines: String,
) -> (r: Option<String>)
    ensures
        r.is_some() == spec_kind_group_name(dep_kind).is_some(),
        r matches Some(s) ==> s@ == spaces(table_indent()) + tree_vines@ + spec_kind_group_name(
            dep_kind,
        ).unwrap(),
{
    match get_kind_group_name(dep_kind) {
        Some(name) => {
            let mut s = table_row_empty();
            s.append(tree_vines.as_str());
            s.append(name);
            Some(s)
        },
        None => None,
    }
}

// ---------------------------------------------------------------------------
// Package counts

/// How many crates of each status the tree holds, and the sums of their
/// counters.
#[derive(Debug)]
pub struct TotalPackageCounts {
    pub none_detected_forbids_unsafe: i32,
    pub none_detected_allows_unsafe: i32,
    pub unsafe_detected: i32,
    pub total_counter_block: CounterBlock,
    pub total_unused_counter_block: CounterBlock,
}

/// The status of the whole tree: unsafe code was found when some crate has
/// it; otherwise the tree forbids unsafe code when some crate forbids it
/// and none merely allows it.
pub open spec fn spec_total_detection_status(forbids: i32, allows: i32, detected: i32)
    -> CrateDetectionStatus {
    if detected > 0 {
        CrateDetectionStatus::UnsafeDetected
    } else if forbids > 0 && !(allows > 0) {
        CrateDetectionStatus::NoneDetectedForbidsUnsafe
    } else {
        CrateDetectionStatus::NoneDetectedAllowsUnsafe
    }
}

impl TotalPackageCounts {
    /// No crate counted yet.
    pub fn new() -> (t: TotalPackageCounts)
        ensures
            t.none_detected_forbids_unsafe == 0,
            t.none_detected_allows_unsafe == 0,
            t.unsafe_detected == 0,
            t.total_counter_block == zero_block(),
            t.total_unused_counter_block == zero_block(),
    {
        TotalPackageCounts {
            none_detected_forbids_unsafe: 0,
            none_detected_allows_unsafe: 0,
            unsafe_detected: 0,
            total_counter_block: CounterBlock::new(),
            total_unused_counter_block: CounterBlock::new(),
        }
    }

    /// The status of the whole tree.
    pub fn get_total_detection_status(&self) -> (r: CrateDetectionStatus)
        ensures
            r == spec_total_detection_status(
                self.none_detected_forbids_unsafe,
                self.none_detected_allows_unsafe,
                self.unsafe_detected,
            ),
    {
        match (
            self.none_detected_forbids_unsafe > 0,
            self.none_detected_allows_unsafe > 0,
            self.unsafe_detected > 0,
        ) {
            (_, _, true) => CrateDetectionStatus::UnsafeDetected,
            (true, false, false) => CrateDetectionStatus::NoneDetectedForbidsUnsafe,
            _ => CrateDetectionStatus::NoneDetectedAllowsUnsafe,
        }
    }
}

/// The status of a crate: unsafe code found, or else whether it forbids
/// unsafe code.
pub open spec fn spec_crate_detection_status(crate_forbids_unsafe: bool, unsafe_found: bool)
    -> CrateDetectionStatus {
    if unsafe_found {
        CrateDetectionStatus::UnsafeDetected
    } else if crate_forbids_unsafe {
        CrateDetectionStatus::NoneDetectedForbidsUnsafe
    } else {
        CrateDetectionStatus::NoneDetectedAllowsUnsafe
    }
}

/// The status of a crate, and the count of crates with that status raised
/// by `total_inc`.
pub fn get_crate_detection_status_and_update_package_counts(
    crate_forbids_unsafe: bool,
    total_package_counts: &mut TotalPackageCounts,
    total_inc: i32,
    unsafe_found: bool,
) -> (r: CrateDetectionStatus)
    requires
        0 <= total_inc,
        old(total_package_counts).none_detected_forbids_unsafe + total_inc <= i32::MAX,
        old(total_package_counts).none_detected_allows_unsafe + total_inc <= i32::MAX,
        old(total_package_counts).unsafe_detected + total_inc <= i32::MAX,
    ensures
        r == spec_crate_detection_status(crate_forbids_unsafe, unsafe_found),
        final(total_package_counts).none_detected_forbids_unsafe == old(
            total_package_counts,
        ).none_detected_forbids_unsafe + if r == CrateDetectionStatus::NoneDetectedForbidsUnsafe {
            total_inc as int
        } else {
            0
        },
        final(total_package_counts).none_detected_allows_unsafe == old(
            total_package_counts,
        ).none_detected_allows_unsafe + if r == CrateDetectionStatus::NoneDetectedAllowsUnsafe {
            total_inc as int
        } else {
            0
        },
        final(total_package_counts).unsafe_detected == old(total_package_counts).unsafe_detected
            + if r == CrateDetectionStatus::UnsafeDetected {
            total_inc as int
        } else {
            0
        },
        final(total_package_counts).total_counter_block == old(
            total_package_counts,
        ).total_counter_block,
        final(total_package_counts).total_unused_counter_block == old(
            total_package_counts,
        ).total_unused_counter_block,
{
    match (crate_forbids_unsafe, unsafe_found) {
        (true, false) => {
            total_package_counts.none_detected_forbids_unsafe =
            total_package_counts.none_detected_forbids_unsafe + total_inc;
            CrateDetectionStatus::NoneDetectedForbidsUnsafe
        },
        (false, false) => {
            total_package_counts.none_detected_allows_unsafe =
            total_package_counts.none_detected_allows_unsafe + total_inc;
            CrateDetectionStatus::NoneDetectedAllowsUnsafe
        },
        (_, true) => {
            total_package_counts.unsafe_detected = total_package_counts.unsafe_detected + total_inc;
            CrateDetectionStatus::UnsafeDetected
        },
    }
}

/// The symbol that stands for a crate status.
pub fn symbol_kind_for_status(status: CrateDetectionStatus) -> (k: SymbolKind)
    ensures
        k == match status {
            CrateDetectionStatus::NoneDetectedForbidsUnsafe => SymbolKind::Lock,
            CrateDetectionStatus::NoneDetectedAllowsUnsafe => SymbolKind::QuestionMark,
            CrateDetectionStatus::UnsafeDetected => SymbolKind::Rads,
        },
{
    match status {
        CrateDetectionStatus::NoneDetectedForbidsUnsafe => SymbolKind::Lock,
        CrateDetectionStatus::NoneDetectedAllowsUnsafe => SymbolKind::QuestionMark,
        CrateDetectionStatus::UnsafeDetected => SymbolKind::Rads,
    }
}

} // verus!
