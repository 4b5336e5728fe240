//! The table of the default scan: the files used by the build, the key of
//! the symbols, and the table of the tree.

use vstd::prelude::*;
use vstd::string::StringExecFns;
use std::collections::{HashMap, HashSet};
use crate::format::{
    emoji_view, unsafe_counters_header, EmojiSymbols, OutputFormat, StyledText, SymbolKind,
    TextStyle,
};
use crate::format::pattern::PackageDisplayInfo;
use crate::format::print_config::{PrintConfig, Verbosity};
use crate::format::table::{
    create_table_from_text_tree_lines, line_ids, spec_will_emoji, line_view, lines_of, met_with_stats, package_ready,
    plain, table_body, table_fits, table_footer_line, TableParameters,
};
use crate::graph::PackageGraph;
use crate::scan::{list_files_used_but_not_scanned, scanned_keys, GeigerContext, ScanResult};
use crate::text::pad_right;
use crate::scan::path_order::{
    components_equal, components_less_exec, components_of, components_view,
    lemma_path_less_total, lemma_path_less_transitive, path_components,
    path_less, same_path,
};
use crate::tree::{
    acyclic_from, lines_in_graph, lines_view, walk_dependency_tree, walk_node,
    TextTreeLineView,
};

verus! {

broadcast use vstd::std_specs::hash::group_hash_axioms;

/// A line of one unstyled text.
fn text_line(s: &str) -> (l: Vec<StyledText>)
    ensures
        line_view(l@) == seq![plain(s@)],
{
    let mut l: Vec<StyledText> = Vec::new();
    l.push(StyledText { text: s.to_owned(), style: TextStyle::Plain });
    proof {
        assert(line_view(l@) =~= seq![plain(s@)]);
    }
    l
}

fn push_text_line(lines: &mut Vec<Vec<StyledText>>, s: &str)
    ensures
        lines_of(final(lines)@) == lines_of(old(lines)@).push(seq![plain(s@)]),
{
    let l = text_line(s);
    lines.push(l);
    proof {
        assert(lines_of(lines@) =~= lines_of(old(lines)@).push(line_view(l@)));
    }
}

/// A line of the key: the symbol padded to two characters, then `shift`,
/// ` = ` and what the symbol means.
pub open spec fn symbol_key_line(will_emoji: bool, output_format: OutputFormat, kind: SymbolKind, shift: Seq<char>, text: Seq<char>) -> Seq<(Seq<char>, TextStyle)> {
    let e = emoji_view(will_emoji, output_format, kind);
    seq![plain("    "@), (pad_right(e.0, 2), e.1), plain(shift + " = "@ + text)]
}

fn push_symbol_key_line(
    lines: &mut Vec<Vec<StyledText>>,
    emoji_symbols: &EmojiSymbols,
    kind: SymbolKind,
    shift: &str,
    text: &str,
)
    ensures
        lines_of(final(lines)@) == lines_of(old(lines)@).push(
            symbol_key_line(emoji_symbols.spec_will_output_emoji(), emoji_symbols.format(), kind, shift@, text@),
        ),
{
    let symbol = emoji_symbols.emoji(kind);
    let mut l: Vec<StyledText> = Vec::new();
    l.push(StyledText { text: "    ".to_owned(), style: TextStyle::Plain });
    let mut padded = String::new();
    crate::text::push_padded(&mut padded, symbol.text.as_str(), 2);
    l.push(StyledText { text: padded, style: symbol.style });
    let mut rest = shift.to_owned();
    rest.append(" = ");
    rest.append(text);
    l.push(StyledText { text: rest, style: TextStyle::Plain });
    proof {
        assert(padded@ =~= pad_right(symbol.text@, 2));
        assert(line_view(l@) =~= symbol_key_line(
            emoji_symbols.spec_will_output_emoji(),
            emoji_symbols.format(),
            kind,
            shift@,
            text@,
        ));
    }
    lines.push(l);
    proof {
        assert(lines_of(lines@) =~= lines_of(old(lines)@).push(line_view(l@)));
    }
}

/// The column headers, joined by spaces.
pub open spec fn header_key() -> Seq<char> {
    "Functions "@ + " "@ + "Expressions "@ + " "@ + "Impls "@ + " "@ + "Traits "@ + " "@
        + "Methods "@ + " "@ + "Dependency"@
}

fn header_key_string() -> (s: String)
    ensures
        s@ == header_key(),
{
    let headers = unsafe_counters_header();
    let mut s = String::new();
    s.append(headers[0]);
    s.append(" ");
    s.append(headers[1]);
    s.append(" ");
    s.append(headers[2]);
    s.append(" ");
    s.append(headers[3]);
    s.append(" ");
    s.append(headers[4]);
    s.append(" ");
    s.append(headers[5]);
    proof {
        assert(s@ =~= header_key());
    }
    s
}

/// The shift after the radiation symbol in the key: a space in GitHub
/// Markdown and a move of the cursor elsewhere where emoji are shown
/// (the symbol is two columns wide but often drawn in one); nothing
/// without emoji.
pub open spec fn key_shift(will_emoji: bool, output_format: OutputFormat) -> Seq<char> {
    if will_emoji && output_format == OutputFormat::GitHubMarkdown {
        " "@
    } else if will_emoji {
        "\r\x1B[7C"@
    } else {
        ""@
    }
}

/// The key of the default scan: how to read the counters (for the ratio
/// format, as safe code over all code), what each symbol means, and the
/// column headers, bold but in GitHub Markdown.
pub open spec fn default_key_lines(will_emoji: bool, output_format: OutputFormat) -> Seq<Seq<(Seq<char>, TextStyle)>> {
    seq![seq![plain(""@)]] + (if output_format == OutputFormat::Ratio {
        seq![
            seq![plain("Metric output format: x/y=z%"@)],
            seq![plain("    x = safe code found in the crate"@)],
            seq![plain("    y = total code found in the crate"@)],
            seq![plain("    z = percentage of safe ratio as defined by x/y"@)],
        ]
    } else {
        seq![
            seq![plain("Metric output format: x/y"@)],
            seq![plain("    x = unsafe code used by the build"@)],
            seq![plain("    y = total unsafe code found in the crate"@)],
        ]
    }) + seq![
        seq![plain(""@)],
        seq![plain("Symbols: "@)],
        symbol_key_line(will_emoji, output_format, SymbolKind::Lock, ""@, "No `unsafe` usage found, declares #![forbid(unsafe_code)]"@),
        symbol_key_line(will_emoji, output_format, SymbolKind::QuestionMark, ""@, "No `unsafe` usage found, missing #![forbid(unsafe_code)]"@),
        symbol_key_line(will_emoji, output_format, SymbolKind::Rads, key_shift(will_emoji, output_format), "`unsafe` usage found"@),
        seq![plain(""@)],
        seq![
            (
                header_key(),
                if output_format == OutputFormat::GitHubMarkdown {
                    TextStyle::Plain
                } else {
                    TextStyle::Bold
                },
            ),
        ],
        seq![plain(""@)],
    ]
}

/// The key of the default scan.
pub fn construct_key_lines(emoji_symbols: &EmojiSymbols, output_format: OutputFormat) -> (r: Vec<
    Vec<StyledText>,
>)
    requires
        emoji_symbols.format() == output_format,
    ensures
        lines_of(r@) == default_key_lines(emoji_symbols.spec_will_output_emoji(), output_format),
{
    let mut output_key_lines: Vec<Vec<StyledText>> = Vec::new();
    let will = emoji_symbols.will_output_emoji();
    let ghost w = emoji_symbols.spec_will_output_emoji();
    proof {
        assert(lines_of(output_key_lines@) =~= Seq::<Seq<(Seq<char>, TextStyle)>>::empty());
    }
    push_text_line(&mut output_key_lines, "");
    let ghost l0 = lines_of(output_key_lines@);
    proof {
        assert(l0 =~= seq![seq![plain(""@)]]);
    }
    match output_format {
        OutputFormat::Ratio => {
            push_text_line(&mut output_key_lines, "Metric output format: x/y=z%");
            push_text_line(&mut output_key_lines, "    x = safe code found in the crate");
            push_text_line(&mut output_key_lines, "    y = total code found in the crate");
            push_text_line(&mut output_key_lines, "    z = percentage of safe ratio as defined by x/y");
        },
        _ => {
            push_text_line(&mut output_key_lines, "Metric output format: x/y");
            push_text_line(&mut output_key_lines, "    x = unsafe code used by the build");
            push_text_line(&mut output_key_lines, "    y = total unsafe code found in the crate");
        },
    }
    let ghost l1 = lines_of(output_key_lines@);
    proof {
        assert(l1 =~= l0 + if output_format == OutputFormat::Ratio {
            seq![
                seq![plain("Metric output format: x/y=z%"@)],
                seq![plain("    x = safe code found in the crate"@)],
                seq![plain("    y = total code found in the crate"@)],
                seq![plain("    z = percentage of safe ratio as defined by x/y"@)],
            ]
        } else {
            seq![
                seq![plain("Metric output format: x/y"@)],
                seq![plain("    x = unsafe code used by the build"@)],
                seq![plain("    y = total unsafe code found in the crate"@)],
            ]
        });
    }
    push_text_line(&mut output_key_lines, "");
    push_text_line(&mut output_key_lines, "Symbols: ");
    let forbids = "No `unsafe` usage found, declares #![forbid(unsafe_code)]";
    let unknown = "No `unsafe` usage found, missing #![forbid(unsafe_code)]";
    let guilty = "`unsafe` usage found";
    let shift_sequence = if will && output_format == OutputFormat::GitHubMarkdown {
        " "
    } else if will {
        "\r\x1B[7C"
    } else {
        ""
    };
    push_symbol_key_line(&mut output_key_lines, emoji_symbols, SymbolKind::Lock, "", forbids);
    push_symbol_key_line(&mut output_key_lines, emoji_symbols, SymbolKind::QuestionMark, "", unknown);
    push_symbol_key_line(&mut output_key_lines, emoji_symbols, SymbolKind::Rads, shift_sequence, guilty);
    push_text_line(&mut output_key_lines, "");
    let key = header_key_string();
    let style = if output_format == OutputFormat::GitHubMarkdown {
        TextStyle::Plain
    } else {
        TextStyle::Bold
    };
    let mut key_line: Vec<StyledText> = Vec::new();
    key_line.push(StyledText { text: key, style });
    let ghost l2 = lines_of(output_key_lines@);
    output_key_lines.push(key_line);
    proof {
        assert(line_view(key_line@) =~= seq![(header_key(), style)]);
        assert(lines_of(output_key_lines@) =~= l2.push(seq![(header_key(), style)]));
    }
    push_text_line(&mut output_key_lines, "");
    proof {
        assert(shift_sequence@ == key_shift(w, output_format));
        assert(lines_of(output_key_lines@) =~= l1 + seq![
            seq![plain(""@)],
            seq![plain("Symbols: "@)],
            symbol_key_line(w, output_format, SymbolKind::Lock, ""@, forbids@),
            symbol_key_line(w, output_format, SymbolKind::QuestionMark, ""@, unknown@),
            symbol_key_line(w, output_format, SymbolKind::Rads, key_shift(w, output_format), guilty@),
            seq![plain(""@)],
            seq![(header_key(), style)],
            seq![plain(""@)],
        ]);
    }
    output_key_lines
}


/// The key of the default scan in its older form: counters read as unsafe
/// code used over all unsafe code, a move of the cursor after the
/// radiation symbol wherever emoji are shown, and bold column headers.
pub open spec fn scan_mode_default_key_lines(will_emoji: bool, output_format: OutputFormat) -> Seq<Seq<(Seq<char>, TextStyle)>> {
    seq![
        seq![plain(""@)],
        seq![plain("Metric output format: x/y"@)],
        seq![plain("    x = unsafe code used by the build"@)],
        seq![plain("    y = total unsafe code found in the crate"@)],
        seq![plain(""@)],
        seq![plain("Symbols: "@)],
        symbol_key_line(will_emoji, output_format, SymbolKind::Lock, ""@, "No `unsafe` usage found, declares #![forbid(unsafe_code)]"@),
        symbol_key_line(will_emoji, output_format, SymbolKind::QuestionMark, ""@, "No `unsafe` usage found, missing #![forbid(unsafe_code)]"@),
        symbol_key_line(
            will_emoji,
            output_format,
            SymbolKind::Rads,
            if will_emoji {
                "\r\x1B[7C"@
            } else {
                ""@
            },
            "`unsafe` usage found"@,
        ),
        seq![plain(""@)],
        seq![(header_key(), TextStyle::Bold)],
        seq![plain(""@)],
    ]
}

/// The key of the default scan, in its older form.
pub fn construct_scan_mode_default_output_key_lines(emoji_symbols: &EmojiSymbols) -> (r: Vec<Vec<StyledText>>)
    ensures
        lines_of(r@) == scan_mode_default_key_lines(
            emoji_symbols.spec_will_output_emoji(),
            emoji_symbols.format(),
        ),
{
    let mut output_key_lines: Vec<Vec<StyledText>> = Vec::new();
    proof {
        assert(lines_of(output_key_lines@) =~= Seq::<Seq<(Seq<char>, TextStyle)>>::empty());
    }
    push_text_line(&mut output_key_lines, "");
    push_text_line(&mut output_key_lines, "Metric output format: x/y");
    push_text_line(&mut output_key_lines, "    x = unsafe code used by the build");
    push_text_line(&mut output_key_lines, "    y = total unsafe code found in the crate");
    push_text_line(&mut output_key_lines, "");
    push_text_line(&mut output_key_lines, "Symbols: ");
    let forbids = "No `unsafe` usage found, declares #![forbid(unsafe_code)]";
    let unknown = "No `unsafe` usage found, missing #![forbid(unsafe_code)]";
    let guilty = "`unsafe` usage found";
    let shift_sequence = if emoji_symbols.will_output_emoji() {
        "\r\x1B[7C"
    } else {
        ""
    };
    push_symbol_key_line(&mut output_key_lines, emoji_symbols, SymbolKind::Lock, "", forbids);
    push_symbol_key_line(&mut output_key_lines, emoji_symbols, SymbolKind::QuestionMark, "", unknown);
    push_symbol_key_line(&mut output_key_lines, emoji_symbols, SymbolKind::Rads, shift_sequence, guilty);
    push_text_line(&mut output_key_lines, "");
    let mut key_line: Vec<StyledText> = Vec::new();
    key_line.push(StyledText { text: header_key_string(), style: TextStyle::Bold });
    let ghost l2 = lines_of(output_key_lines@);
    output_key_lines.push(key_line);
    proof {
        assert(line_view(key_line@) =~= seq![(header_key(), TextStyle::Bold)]);
        assert(lines_of(output_key_lines@) =~= l2.push(seq![(header_key(), TextStyle::Bold)]));
    }
    push_text_line(&mut output_key_lines, "");
    proof {
        assert(lines_of(output_key_lines@) =~= scan_mode_default_key_lines(
            emoji_symbols.spec_will_output_emoji(),
            emoji_symbols.format(),
        ));
    }
    output_key_lines
}

/// The prefix of the lines that list the files used by the build.
pub open spec fn used_by_build_line(name: Seq<char>) -> Seq<(Seq<char>, TextStyle)> {
    seq![plain("Used by build (sorted): "@ + name)]
}

/// The lines that list the files used by the build, in the given order of
/// their keys.
pub open spec fn rs_files_used_lines(keys: Seq<u64>, path_names: Map<u64, String>) -> Seq<Seq<(Seq<char>, TextStyle)>> {
    keys.map_values(|k: u64| used_by_build_line(path_names[k]@))
}

/// File `a` is listed before file `b`: its path comes first, component
/// by component, or, for paths with the same components, its key is lower.
pub open spec fn listed_before(names: Map<u64, String>, a: u64, b: u64) -> bool {
    path_less(names[a]@, names[b]@) || (same_path(names[a]@, names[b]@) && a < b)
}

/// The keys are listed in the order of their paths.
pub open spec fn in_path_order(keys: Seq<u64>, names: Map<u64, String>) -> bool {
    forall|i: int, j: int| 0 <= i < j < keys.len() ==> listed_before(names, #[trigger] keys[i], #[trigger] keys[j])
}

proof fn lemma_listed_before_total(names: Map<u64, String>, a: u64, b: u64)
    requires
        a != b,
    ensures
        listed_before(names, a, b) || listed_before(names, b, a),
{
    lemma_path_less_total(names[a]@, names[b]@);
}

proof fn lemma_listed_before_transitive(names: Map<u64, String>, a: u64, b: u64, c: u64)
    requires
        listed_before(names, a, b),
        listed_before(names, b, c),
    ensures
        listed_before(names, a, c),
{
    let (na, nb, nc) = (names[a]@, names[b]@, names[c]@);
    if path_less(na, nb) && path_less(nb, nc) {
        lemma_path_less_transitive(na, nb, nc);
    }
}

/// Where `k`, named `kn`, goes among the sorted keys: after each key listed
/// before it, before the first key that it is listed before.
fn insert_position(out: &Vec<u64>, k: u64, kn: &String, path_names: &HashMap<u64, String>) -> (j: usize)
    requires
        forall|m: int| 0 <= m < out@.len() ==> path_names@.contains_key(#[trigger] out@[m]),
        path_names@.contains_key(k),
        kn@ == path_names@[k]@,
        !out@.contains(k),
    ensures
        j <= out@.len(),
        forall|m: int| 0 <= m < j ==> listed_before(path_names@, #[trigger] out@[m], k),
        j < out@.len() ==> listed_before(path_names@, k, out@[j as int]),
{
    let kc = components_of(kn.as_str());
    let mut j: usize = 0;
    while j < out.len()
        invariant
            forall|m: int| 0 <= m < out@.len() ==> path_names@.contains_key(#[trigger] out@[m]),
            kn@ == path_names@[k]@,
            components_view(kc@) == path_components(kn@),
            !out@.contains(k),
            j <= out.len(),
            forall|m: int| 0 <= m < j ==> listed_before(path_names@, #[trigger] out@[m], k),
        decreases out.len() - j,
    {
        let o = out[j];
        assert(path_names@.contains_key(out@[j as int]));
        let on = path_names.get(&o).unwrap();
        let oc = components_of(on.as_str());
        if components_less_exec(&kc, &oc) || (components_equal(&kc, &oc) && k < o) {
            return j;
        }
        proof {
            assert(out@[j as int] == o);
            lemma_listed_before_total(path_names@, k, o);
        }
        j = j + 1;
    }
    j
}

/// The keys, sorted into the order of their paths.
fn sort_by_path(keys: &Vec<u64>, path_names: &HashMap<u64, String>) -> (r: Vec<u64>)
    requires
        keys@.no_duplicates(),
        forall|k: u64| #[trigger] keys@.contains(k) ==> path_names@.contains_key(k),
    ensures
        r@.no_duplicates(),
        r@.to_set() == keys@.to_set(),
        in_path_order(r@, path_names@),
{
    let ghost names = path_names@;
    let mut out: Vec<u64> = Vec::new();
    let mut i: usize = 0;
    while i < keys.len()
        invariant
            names == path_names@,
            keys@.no_duplicates(),
            forall|k: u64| #[trigger] keys@.contains(k) ==> names.contains_key(k),
            i <= keys.len(),
            out@.no_duplicates(),
            out@.to_set() == keys@.take(i as int).to_set(),
            in_path_order(out@, names),
        decreases keys.len() - i,
    {
        let k = keys[i];
        assert(keys@.contains(k));
        let kn = path_names.get(&k).unwrap();
        proof {
            assert(!out@.contains(k)) by {
                if out@.contains(k) {
                    assert(keys@.take(i as int).to_set().contains(k));
                    let j = choose|j: int| 0 <= j < i && keys@.take(i as int)[j] == k;
                    assert(keys@[j] == keys@[i as int]);
                }
            }
        }
        proof {
            assert forall|m: int| 0 <= m < out@.len() implies names.contains_key(#[trigger] out@[m]) by {
                assert(out@.to_set().contains(out@[m]));
                let q = choose|q: int| 0 <= q < i && keys@.take(i as int)[q] == out@[m];
                assert(keys@.contains(keys@[q]));
            }
        }
        let j = insert_position(&out, k, kn, path_names);
        let ghost prev = out@;
        out.insert(j, k);
        proof {
            assert(out@ =~= prev.insert(j as int, k));
            assert(keys@.take(i + 1) =~= keys@.take(i as int).push(k));
            assert(out@.to_set() =~= prev.to_set().insert(k)) by {
                assert forall|x: u64| out@.to_set().contains(x) implies prev.to_set().insert(k).contains(x) by {
                    let q = choose|q: int| 0 <= q < out@.len() && out@[q] == x;
                    if q < j {
                        assert(prev[q] == x);
                    } else if q > j {
                        assert(prev[q - 1] == x);
                    }
                }
                assert forall|x: u64| prev.to_set().insert(k).contains(x) implies out@.to_set().contains(x) by {
                    if x == k {
                        assert(out@[j as int] == k);
                    } else {
                        let q = choose|q: int| 0 <= q < prev.len() && prev[q] == x;
                        if q < j {
                            assert(out@[q] == x);
                        } else {
                            assert(out@[q + 1] == x);
                        }
                    }
                }
            }
            assert(keys@.take(i + 1).to_set() =~= keys@.take(i as int).to_set().insert(k)) by {
                let t = keys@.take(i as int);
                let t1 = keys@.take(i + 1);
                assert forall|x: u64| t1.to_set().contains(x) implies t.to_set().insert(k).contains(x) by {
                    let q = choose|q: int| 0 <= q < t1.len() && t1[q] == x;
                    if q < i {
                        assert(t[q] == x);
                    }
                }
                assert forall|x: u64| t.to_set().insert(k).contains(x) implies keys@.take(i + 1).to_set().contains(x) by {
                    if x == k {
                        assert(t1[i as int] == k);
                    } else {
                        let q = choose|q: int| 0 <= q < t.len() && t[q] == x;
                        assert(t1[q] == x);
                    }
                }
            }
            assert forall|a: int, b: int| 0 <= a < b < out@.len() implies out@[a] != out@[b] by {
                if a < j && b > j {
                    assert(out@[a] == prev[a] && out@[b] == prev[b - 1]);
                } else if a < j && b == j {
                    assert(!prev.contains(k));
                    assert(prev[a] == out@[a]);
                } else if a == j {
                    assert(prev[b - 1] == out@[b]);
                } else if a < j {
                    assert(out@[a] == prev[a] && out@[b] == prev[b]);
                } else {
                    assert(out@[a] == prev[a - 1] && out@[b] == prev[b - 1]);
                }
            }
            assert forall|a: int, b: int| 0 <= a < b < out@.len() implies listed_before(names, #[trigger] out@[a], #[trigger] out@[b]) by {
                if b < j {
                    assert(out@[a] == prev[a] && out@[b] == prev[b]);
                } else if b == j {
                    assert(out@[a] == prev[a]);
                } else if a == j {
                    assert(out@[b] == prev[b - 1]);
                    if b - 1 > j {
                        assert(listed_before(names, prev[j as int], prev[b - 1]));
                        lemma_listed_before_transitive(names, k, prev[j as int], prev[b - 1]);
                    }
                } else if a < j {
                    assert(out@[a] == prev[a] && out@[b] == prev[b - 1]);
                } else {
                    assert(out@[a] == prev[a - 1] && out@[b] == prev[b - 1]);
                }
            }
        }
        i = i + 1;
    }
    proof {
        assert(keys@.take(keys@.len() as int) =~= keys@);
    }
    out
}

/// The lines that head the verbose output: one per file used by the build,
/// in the order of the paths; none in other output.
pub open spec fn used_files_part(
    head: Seq<Seq<(Seq<char>, TextStyle)>>,
    verbosity: Verbosity,
    rs: Set<u64>,
    names: Map<u64, String>,
) -> bool {
    if verbosity == Verbosity::Verbose {
        exists|keys: Seq<u64>|
            #![trigger keys.to_set()]
            keys.no_duplicates() && keys.to_set() == rs && in_path_order(keys, names) && head
                == rs_files_used_lines(keys, names)
    } else {
        head == Seq::<Seq<(Seq<char>, TextStyle)>>::empty()
    }
}

/// A line for each file used by the build, in the order of the paths.
pub fn construct_rs_files_used_lines(
    rs_files_used: &HashSet<u64>,
    path_names: &HashMap<u64, String>,
) -> (r: Vec<Vec<StyledText>>)
    requires
        forall|k: u64| #[trigger] rs_files_used@.contains(k) ==> path_names@.contains_key(k),
    ensures
        exists|keys: Seq<u64>|
            #![trigger keys.to_set()]
            keys.no_duplicates() && keys.to_set() == rs_files_used@ && in_path_order(keys, path_names@)
                && lines_of(r@) == rs_files_used_lines(keys, path_names@),
{
    let unsorted = crate::scan::keys_of(rs_files_used);
    proof {
        assert forall|k: u64| #[trigger] unsorted@.contains(k) implies path_names@.contains_key(k) by {
            assert(unsorted@.to_set().contains(k));
        }
    }
    let paths = sort_by_path(&unsorted, path_names);
    let mut lines: Vec<Vec<StyledText>> = Vec::new();
    let mut i: usize = 0;
    while i < paths.len()
        invariant
            i <= paths.len(),
            paths@.to_set() == rs_files_used@,
            forall|k: u64| #[trigger] rs_files_used@.contains(k) ==> path_names@.contains_key(k),
            lines_of(lines@) == rs_files_used_lines(paths@.take(i as int), path_names@),
        decreases paths.len() - i,
    {
        let k = paths[i];
        proof {
            assert(paths@.to_set().contains(k));
        }
        let name = path_names.get(&k).unwrap();
        let mut text = "Used by build (sorted): ".to_owned();
        text.append(name.as_str());
        let mut l: Vec<StyledText> = Vec::new();
        l.push(StyledText { text, style: TextStyle::Plain });
        let ghost before = lines_of(lines@);
        lines.push(l);
        proof {
            assert(line_view(l@) =~= used_by_build_line(path_names@[k]@));
            assert(lines_of(lines@) =~= before.push(line_view(l@)));
            assert(paths@.take(i + 1) =~= paths@.take(i as int).push(k));
            assert(rs_files_used_lines(paths@.take(i + 1), path_names@) =~= rs_files_used_lines(
                paths@.take(i as int),
                path_names@,
            ).push(used_by_build_line(path_names@[k]@)));
        }
        i = i + 1;
    }
    proof {
        assert(paths@.take(paths@.len() as int) =~= paths@);
        assert(paths@.to_set() == rs_files_used@);
    }
    lines
}


/// The packages that the lines show are nodes of the graph, so no more
/// than its nodes.
proof fn lemma_line_ids_in_graph(g: PackageGraph, lv: Seq<TextTreeLineView>)
    requires
        g.wf(),
        lines_in_graph(g, lv),
    ensures
        line_ids(lv).subset_of(g.nodes@.dom()),
        line_ids(lv).len() <= g.packages().len(),
    decreases lv.len(),
{
    if lv.len() > 0 {
        let rest = lv.drop_last();
        assert(lines_in_graph(g, rest)) by {
            assert forall|j: int| 0 <= j < rest.len() implies (#[trigger] rest[j] matches TextTreeLineView::Package { id, .. }
                ==> g.nodes@.contains_key(id)) by {
                assert(rest[j] == lv[j]);
            }
        }
        lemma_line_ids_in_graph(g, rest);
        assert(lv[lv.len() - 1] == lv.last());
    }
    crate::graph::lemma_packages_distinct(g);
    crate::format::table::lemma_line_ids_finite(lv);
    vstd::seq_lib::seq_to_set_is_finite(g.packages());
    vstd::set_lib::lemma_len_subset(line_ids(lv), g.packages().to_set());
}

/// The output of the default scan: the files used by the build (verbose
/// output only), the key, and the table of the tree from the root; as
/// warnings, the packages shown without statistics and the files used by
/// the build that were never scanned.
pub fn scan_to_table(
    graph: &PackageGraph,
    root_package_id: u64,
    print_config: &PrintConfig,
    geiger_context: &GeigerContext,
    rs_files_used: &HashSet<u64>,
    package_infos: &HashMap<u64, PackageDisplayInfo>,
    path_names: &HashMap<u64, String>,
    terminal_wants_emoji: bool,
) -> (r: ScanResult)
    requires
        graph.wf(),
        graph.nodes@.contains_key(root_package_id),
        print_config.all ==> acyclic_from(*graph, print_config.direction, root_package_id),
        graph.packages().len() < i32::MAX,
        graph.packages().len() + rs_files_used@.len() <= u64::MAX,
        table_fits(geiger_context.package_id_to_metrics@),
        forall|k: u64|
            #[trigger] graph.nodes@.contains_key(k) && geiger_context.package_id_to_metrics@.contains_key(k)
                ==> package_infos@.contains_key(k),
        forall|k: u64| #[trigger] rs_files_used@.contains(k) ==> path_names@.contains_key(k),
    ensures
        ({
            let lv = walk_node(
                *graph,
                *print_config,
                root_package_id,
                Set::empty(),
                Seq::empty(),
                graph.packages().len(),
            ).0;
            let p = (TableParameters {
                geiger_context,
                print_config,
                rs_files_used,
                package_infos,
                terminal_wants_emoji,
            });
            let ctx = geiger_context.package_id_to_metrics@;
            &&& exists|head: Seq<Seq<(Seq<char>, TextStyle)>>|
                #[trigger] used_files_part(
                    head,
                    print_config.verbosity,
                    rs_files_used@,
                    path_names@,
                ) && lines_of(r.scan_output_lines@) == head + default_key_lines(
                    spec_will_emoji(print_config.output_format, terminal_wants_emoji),
                    print_config.output_format,
                ) + table_body(p, lv) + seq![
                    seq![plain(Seq::empty())],
                    table_footer_line(p, met_with_stats(p, line_ids(lv))),
                    seq![plain(Seq::empty())],
                ]
            &&& r.warning_count == line_ids(lv).difference(ctx.dom()).len() + rs_files_used@.difference(
                scanned_keys(ctx),
            ).len()
        }),
{
    let mut combined_scan_output_lines: Vec<Vec<StyledText>> = Vec::new();
    if print_config.verbosity == Verbosity::Verbose {
        combined_scan_output_lines = construct_rs_files_used_lines(rs_files_used, path_names);
    } else {
        let used = crate::scan::keys_of(rs_files_used);
        proof {
            vstd::seq_lib::seq_to_set_is_finite(used@);
            assert(lines_of(combined_scan_output_lines@) =~= Seq::<Seq<(Seq<char>, TextStyle)>>::empty());
        }
    }
    proof {
        assert(used_files_part(
            lines_of(combined_scan_output_lines@),
            print_config.verbosity,
            rs_files_used@,
            path_names@,
        ));
    }
    let ghost head = lines_of(combined_scan_output_lines@);
    let emoji_symbols = EmojiSymbols::new(print_config.output_format, terminal_wants_emoji);
    let mut output_key_lines = construct_key_lines(&emoji_symbols, print_config.output_format);
    let ghost keys_part = lines_of(output_key_lines@);
    combined_scan_output_lines.append(&mut output_key_lines);
    proof {
        assert(lines_of(combined_scan_output_lines@) =~= head + keys_part);
    }
    let text_tree_lines = walk_dependency_tree(graph, print_config, root_package_id);
    let ghost lv = lines_view(text_tree_lines@);
    let table_parameters = TableParameters {
        geiger_context,
        print_config,
        rs_files_used,
        package_infos,
        terminal_wants_emoji,
    };
    proof {
        crate::tree::lemma_walk_node_in_graph(
            *graph,
            *print_config,
            root_package_id,
            Set::empty(),
            Seq::empty(),
            graph.packages().len(),
        );
        lemma_line_ids_in_graph(*graph, lv);
        assert forall|k: u64| #[trigger] line_ids(lv).contains(k) implies package_ready(table_parameters, k) by {
            assert(graph.nodes@.contains_key(k));
        }
    }
    let ghost before_table = lines_of(combined_scan_output_lines@);
    let table = create_table_from_text_tree_lines(&table_parameters, text_tree_lines);
    let ScanResult { scan_output_lines: mut scan_output_lines, warning_count } = table;
    let ghost table_part = lines_of(scan_output_lines@);
    combined_scan_output_lines.append(&mut scan_output_lines);
    proof {
        assert(lines_of(combined_scan_output_lines@) =~= before_table + table_part);
    }
    let used_but_not_scanned = list_files_used_but_not_scanned(geiger_context, rs_files_used);
    proof {
        used_but_not_scanned@.unique_seq_to_set();
        crate::format::table::lemma_line_ids_finite(lv);
        vstd::set_lib::lemma_len_subset(
            line_ids(lv).difference(geiger_context.package_id_to_metrics@.dom()),
            line_ids(lv),
        );
        assert(rs_files_used@.finite());
        vstd::set_lib::lemma_len_subset(
            rs_files_used@.difference(scanned_keys(geiger_context.package_id_to_metrics@)),
            rs_files_used@,
        );
    }
    let total_warnings = warning_count + used_but_not_scanned.len() as u64;
    proof {
        assert(lines_of(combined_scan_output_lines@) =~= head + default_key_lines(
            spec_will_emoji(print_config.output_format, terminal_wants_emoji),
            print_config.output_format,
        ) + table_body(table_parameters, lv) + seq![
            seq![plain(Seq::empty())],
            table_footer_line(table_parameters, met_with_stats(table_parameters, line_ids(lv))),
            seq![plain(Seq::empty())],
        ]);
    }
    ScanResult { scan_output_lines: combined_scan_output_lines, warning_count: total_warnings }
}

/// The outcome of a scan: an error with the number of warnings where it
/// raised any.
pub fn warnings_to_result(warning_count: u64) -> (r: Result<(), crate::scan::FoundWarningsError>)
    ensures
        r is Ok <==> warning_count == 0,
        r matches Err(e) ==> e.warning_count == warning_count,
{
    if warning_count > 0 {
        Err(crate::scan::FoundWarningsError { warning_count })
    } else {
        Ok(())
    }
}

} // verus!
