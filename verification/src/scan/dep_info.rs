//! The dependency information files that `rustc` writes: each line names
//! a target, then `: `, then the files that it depends on, separated by
//! whitespace, a space inside a file name escaped with a backslash.

use vstd::prelude::*;
use vstd::string::{StrSliceExecFns, StringExecFns};
use crate::text::{char_is_whitespace, chars_of, find_line_end, is_whitespace, lemma_line_end, line_end, line_stop};

verus! {

/// The position of the first `: ` from `k` on, before `hi`.
pub open spec fn colon_at(s: Seq<char>, k: int, hi: int) -> Option<int>
    decreases hi - k,
{
    if k + 1 >= hi {
        None
    } else if s[k] == ':' && s[k + 1] == ' ' {
        Some(k)
    } else {
        colon_at(s, k + 1, hi)
    }
}

/// The first position from `k` on, before `hi`, that is not whitespace,
/// or `hi`.
pub open spec fn skip_ws(s: Seq<char>, k: int, hi: int) -> int
    decreases hi - k,
{
    if k >= hi {
        hi
    } else if char_is_whitespace(s[k]) {
        skip_ws(s, k + 1, hi)
    } else {
        k
    }
}

/// The first position from `k` on, before `hi`, that is whitespace, or
/// `hi`.
pub open spec fn token_end(s: Seq<char>, k: int, hi: int) -> int
    decreases hi - k,
{
    if k >= hi {
        hi
    } else if char_is_whitespace(s[k]) {
        k
    } else {
        token_end(s, k + 1, hi)
    }
}

pub proof fn lemma_skip_ws(s: Seq<char>, k: int, hi: int)
    requires
        k <= hi,
    ensures
        k <= skip_ws(s, k, hi) <= hi,
        skip_ws(s, k, hi) < hi ==> !char_is_whitespace(s[skip_ws(s, k, hi)]),
    decreases hi - k,
{
    if k < hi && char_is_whitespace(s[k]) {
        lemma_skip_ws(s, k + 1, hi);
    }
}

pub proof fn lemma_token_end(s: Seq<char>, k: int, hi: int)
    requires
        k <= hi,
    ensures
        k <= token_end(s, k, hi) <= hi,
        k < hi && !char_is_whitespace(s[k]) ==> k < token_end(s, k, hi),
    decreases hi - k,
{
    if k < hi && !char_is_whitespace(s[k]) {
        lemma_token_end(s, k + 1, hi);
    }
}

/// The maximal runs of characters that are not whitespace, from `k` on,
/// before `hi`.
pub open spec fn tokens(s: Seq<char>, k: int, hi: int) -> Seq<Seq<char>>
    decreases hi - k,
{
    if k >= hi {
        Seq::empty()
    } else {
        let b = skip_ws(s, k, hi);
        if b >= hi {
            Seq::empty()
        } else {
            let e = token_end(s, b, hi);
            proof {
                lemma_skip_ws(s, k, hi);
                lemma_token_end(s, b, hi);
            }
            if e <= k {
                Seq::empty()
            } else {
                seq![s.subrange(b, e)] + tokens(s, e, hi)
            }
        }
    }
}

/// The text ends with a backslash.
pub open spec fn ends_with_backslash(f: Seq<char>) -> bool {
    f.len() > 0 && f.last() == '\\'
}

/// A file name that begins with `file`, continued as long as it ends with
/// a backslash: the backslash becomes a space, followed by the next token.
/// Nothing where a backslash ends the last token.
pub open spec fn extend_file(toks: Seq<Seq<char>>, i: int, file: Seq<char>) -> Option<(Seq<char>, int)>
    decreases toks.len() - i,
{
    if !ends_with_backslash(file) {
        Some((file, i))
    } else if i < 0 || i >= toks.len() {
        None
    } else {
        extend_file(toks, i + 1, file.drop_last().push(' ') + toks[i])
    }
}

pub proof fn lemma_extend_file(toks: Seq<Seq<char>>, i: int, file: Seq<char>)
    ensures
        extend_file(toks, i, file) matches Some((_, j)) ==> i <= j && (i <= toks.len() ==> j
            <= toks.len()),
    decreases toks.len() - i,
{
    if ends_with_backslash(file) && 0 <= i < toks.len() {
        lemma_extend_file(toks, i + 1, file.drop_last().push(' ') + toks[i]);
    }
}

/// The file names of the tokens from position `i` on, or nothing where the
/// last one ends with a backslash.
pub open spec fn join_files(toks: Seq<Seq<char>>, i: int) -> Option<Seq<Seq<char>>>
    decreases toks.len() - i,
{
    if i < 0 || i >= toks.len() {
        Some(Seq::empty())
    } else {
        proof {
            lemma_extend_file(toks, i + 1, toks[i]);
        }
        match extend_file(toks, i + 1, toks[i]) {
            None => None,
            Some((f, j)) => if j <= i {
                None
            } else {
                match join_files(toks, j) {
                    None => None,
                    Some(rest) => Some(seq![f] + rest),
                }
            },
        }
    }
}

/// The line from `b` to `hi`: nothing to read where it holds no `: `; its
/// target and files otherwise; malformed where its files are.
pub open spec fn parse_line(s: Seq<char>, b: int, hi: int) -> Option<Option<(Seq<char>, Seq<Seq<char>>)>> {
    match colon_at(s, b, hi) {
        None => Some(None),
        Some(p) => match join_files(tokens(s, p + 2, hi), 0) {
            None => None,
            Some(files) => Some(Some((s.subrange(b, p), files))),
        },
    }
}

/// The entries of the lines from position `i` on, or nothing where a line
/// is malformed.
pub open spec fn parse_from(s: Seq<char>, i: int) -> Option<Seq<(Seq<char>, Seq<Seq<char>>)>>
    decreases s.len() + 1 - i,
{
    if i < 0 || i >= s.len() {
        Some(Seq::empty())
    } else {
        let e = line_end(s, i);
        proof {
            lemma_line_end(s, i);
        }
        match parse_line(s, i, line_stop(s, i)) {
            None => None,
            Some(x) => match parse_from(s, e + 1) {
                None => None,
                Some(rest) => Some(
                    match x {
                        Some(entry) => seq![entry] + rest,
                        None => rest,
                    },
                ),
            },
        }
    }
}

/// The entries of a dependency information file, or nothing where it is
/// malformed.
pub open spec fn spec_parse_dep_info(s: Seq<char>) -> Option<Seq<(Seq<char>, Seq<Seq<char>>)>> {
    parse_from(s, 0)
}

/// The texts of strings.
pub open spec fn strings_view(v: Seq<String>) -> Seq<Seq<char>> {
    v.map_values(|x: String| x@)
}

/// Entries by their texts.
pub open spec fn entries_view(v: Seq<(String, Vec<String>)>) -> Seq<(Seq<char>, Seq<Seq<char>>)> {
    v.map_values(|e: (String, Vec<String>)| (e.0@, strings_view(e.1@)))
}

/// The position of the first `: ` from `k` on, before `hi`.
fn find_colon(s: &Vec<char>, k: usize, hi: usize) -> (r: Option<usize>)
    requires
        k <= hi <= s.len(),
    ensures
        match r {
            Some(p) => colon_at(s@, k as int, hi as int) == Some(p as int),
            None => colon_at(s@, k as int, hi as int) is None,
        },
        r matches Some(p) ==> k <= p && p + 2 <= hi,
{
    let mut j = k;
    while hi - j > 1
        invariant
            k <= j <= hi,
            hi <= s.len(),
            colon_at(s@, j as int, hi as int) == colon_at(s@, k as int, hi as int),
        decreases hi - j,
    {
        if s[j] == ':' && s[j + 1] == ' ' {
            return Some(j);
        }
        j = j + 1;
    }
    None
}

/// The first position from `k` on, before `hi`, that is not whitespace.
fn skip_whitespace(s: &Vec<char>, k: usize, hi: usize) -> (r: usize)
    requires
        k <= hi <= s.len(),
    ensures
        r == skip_ws(s@, k as int, hi as int),
{
    let mut j = k;
    while j < hi && is_whitespace(s[j])
        invariant
            k <= j <= hi,
            hi <= s.len(),
            skip_ws(s@, j as int, hi as int) == skip_ws(s@, k as int, hi as int),
        decreases hi - j,
    {
        j = j + 1;
    }
    j
}

/// The first position from `k` on, before `hi`, that is whitespace.
fn find_token_end(s: &Vec<char>, k: usize, hi: usize) -> (r: usize)
    requires
        k <= hi <= s.len(),
    ensures
        r == token_end(s@, k as int, hi as int),
{
    let mut j = k;
    while j < hi && !is_whitespace(s[j])
        invariant
            k <= j <= hi,
            hi <= s.len(),
            token_end(s@, j as int, hi as int) == token_end(s@, k as int, hi as int),
        decreases hi - j,
    {
        j = j + 1;
    }
    j
}

/// The tokens of `text` from `k` on, before `hi`, where `s` holds the
/// characters of `text`.
fn split_tokens(text: &str, s: &Vec<char>, k: usize, hi: usize) -> (r: Vec<String>)
    requires
        s@ == text@,
        k <= hi <= s.len(),
    ensures
        strings_view(r@) == tokens(s@, k as int, hi as int),
{
    let mut out: Vec<String> = Vec::new();
    let mut j = k;
    while j < hi
        invariant
            s@ == text@,
            k <= j <= hi <= s.len(),
            strings_view(out@) + tokens(s@, j as int, hi as int) == tokens(s@, k as int, hi as int),
        decreases hi - j,
    {
        let b = skip_whitespace(s, j, hi);
        proof {
            lemma_skip_ws(s@, j as int, hi as int);
        }
        if b >= hi {
            proof {
                assert(strings_view(out@) + tokens(s@, hi as int, hi as int) =~= strings_view(out@));
            }
            j = hi;
        } else {
            let e = find_token_end(s, b, hi);
            proof {
                lemma_token_end(s@, b as int, hi as int);
                assert(tokens(s@, j as int, hi as int) == seq![s@.subrange(b as int, e as int)]
                    + tokens(s@, e as int, hi as int));
            }
            let tok = text.substring_char(b, e).to_owned();
            let ghost before = out@;
            out.push(tok);
            proof {
                assert(strings_view(out@) =~= strings_view(before).push(s@.subrange(b as int, e as int)));
                assert(strings_view(out@) + tokens(s@, e as int, hi as int) =~= strings_view(before)
                    + tokens(s@, j as int, hi as int));
            }
            j = e;
        }
    }
    out
}

/// Whether the text ends with a backslash.
fn exec_ends_with_backslash(f: &String) -> (r: bool)
    ensures
        r == ends_with_backslash(f@),
{
    let t = f.as_str();
    let n = t.unicode_len();
    n > 0 && t.get_char(n - 1) == '\\'
}

/// The file names that the tokens spell, a backslash at the end of a token
/// joining it to the next with a space; nothing where the last token ends
/// with a backslash.
fn join_escaped(toks: &Vec<String>) -> (r: Option<Vec<String>>)
    ensures
        match r {
            Some(v) => join_files(strings_view(toks@), 0) == Some(strings_view(v@)),
            None => join_files(strings_view(toks@), 0) is None,
        },
{
    let ghost t = strings_view(toks@);
    let mut out: Vec<String> = Vec::new();
    let mut i: usize = 0;
    while i < toks.len()
        invariant
            t == strings_view(toks@),
            i <= toks.len(),
            join_files(t, 0) == match join_files(t, i as int) {
                None => None,
                Some(rest) => Some(strings_view(out@) + rest),
            },
        decreases toks.len() - i,
    {
        let mut file = String::from_str(toks[i].as_str());
        let mut j: usize = i + 1;
        while exec_ends_with_backslash(&file)
            invariant
                t == strings_view(toks@),
                i < j <= toks.len(),
                extend_file(t, i + 1, t[i as int]) == extend_file(t, j as int, file@),
                join_files(t, 0) == match join_files(t, i as int) {
                    None => None,
                    Some(rest) => Some(strings_view(out@) + rest),
                },
            decreases toks.len() - j,
        {
            if j >= toks.len() {
                proof {
                    assert(join_files(t, i as int) is None);
                }
                return None;
            }
            let cut = file.as_str().unicode_len() - 1;
            let mut next = String::from_str(file.as_str().substring_char(0, cut));
            proof {
                reveal_strlit(" ");
            }
            next.append(" ");
            next.append(toks[j].as_str());
            proof {
                assert(next@ =~= file@.drop_last().push(' ') + t[j as int]);
            }
            file = next;
            j = j + 1;
        }
        proof {
            lemma_extend_file(t, i as int + 1, t[i as int]);
        }
        let ghost before = out@;
        out.push(file);
        proof {
            assert(strings_view(out@) =~= strings_view(before).push(file@));
            match join_files(t, j as int) {
                None => {},
                Some(rest) => {
                    assert(strings_view(out@) + rest =~= strings_view(before) + (seq![file@]
                        + rest));
                },
            }
        }
        i = j;
    }
    proof {
        assert(strings_view(out@) + Seq::<Seq<char>>::empty() =~= strings_view(out@));
    }
    Some(out)
}

/// Reads the entries of a dependency information file: for each line that
/// holds `: `, the target before it and the files after it. Nothing where
/// a line ends with an escaping backslash that no file name follows.
pub fn parse_rustc_dep_info(contents: &str) -> (r: Option<Vec<(String, Vec<String>)>>)
    ensures
        match r {
            Some(v) => spec_parse_dep_info(contents@) == Some(entries_view(v@)),
            None => spec_parse_dep_info(contents@) is None,
        },
{
    let s = chars_of(contents);
    let n = s.len();
    let mut out: Vec<(String, Vec<String>)> = Vec::new();
    let mut i: usize = 0;
    while i < n
        invariant
            s@ == contents@,
            n == s.len(),
            i <= n,
            spec_parse_dep_info(s@) == match parse_from(s@, i as int) {
                None => None,
                Some(rest) => Some(entries_view(out@) + rest),
            },
        decreases n - i,
    {
        let e = find_line_end(&s, i);
        proof {
            lemma_line_end(s@, i as int);
        }
        let stop = if e < n && e > i && s[e - 1] == '\r' {
            e - 1
        } else {
            e
        };
        assert(stop == line_stop(s@, i as int));
        let ghost before = out@;
        match find_colon(&s, i, stop) {
            None => {},
            Some(p) => {
                let toks = split_tokens(contents, &s, p + 2, stop);
                match join_escaped(&toks) {
                    None => {
                        return None;
                    },
                    Some(files) => {
                        let target = contents.substring_char(i, p).to_owned();
                        out.push((target, files));
                        proof {
                            assert(entries_view(out@) =~= entries_view(before).push(
                                (s@.subrange(i as int, p as int), strings_view(files@)),
                            ));
                        }
                    },
                }
            },
        }
        proof {
            match parse_from(s@, e + 1) {
                None => {},
                Some(rest) => {
                    match parse_line(s@, i as int, stop as int) {
                        Some(Some(entry)) => {
                            assert(entries_view(out@) + rest =~= entries_view(before) + (seq![entry]
                                + rest));
                        },
                        _ => {},
                    }
                },
            }
        }
        if e >= n {
            i = n;
        } else {
            i = e + 1;
        }
    }
    proof {
        assert(entries_view(out@) + Seq::<(Seq<char>, Seq<Seq<char>>)>::empty() =~= entries_view(
            out@,
        ));
    }
    Some(out)
}

} // verus!
