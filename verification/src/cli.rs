//! What the output of the Rust compiler tells about the build platform:
//! the host target that `rustc -vV` names, and the `cfg` values that
//! `rustc --print=cfg` lists.

use vstd::prelude::*;
use vstd::string::StrSliceExecFns;
use crate::text::{chars_of, find_line_end, lemma_line_end, line_end, line_stop};

verus! {

/// The lines of a text from position `i` on, as `str::lines` gives them:
/// split at each newline, a carriage return before it dropped, and no
/// empty line after a final newline.
pub open spec fn lines_from(s: Seq<char>, i: int) -> Seq<Seq<char>>
    decreases s.len() + 1 - i,
{
    if i < 0 || i >= s.len() {
        Seq::empty()
    } else {
        proof {
            lemma_line_end(s, i);
        }
        seq![s.subrange(i, line_stop(s, i))] + lines_from(s, line_end(s, i) + 1)
    }
}

/// The lines of a text.
pub open spec fn text_lines(s: Seq<char>) -> Seq<Seq<char>> {
    lines_from(s, 0)
}

/// The line starts with `host:`.
pub open spec fn is_host_line(l: Seq<char>) -> bool {
    l.len() >= 5 && l.subrange(0, 5) == seq!['h', 'o', 's', 't', ':']
}

/// The first position of a space from `k` on, or the end of the text.
pub open spec fn space_from(l: Seq<char>, k: int) -> int
    decreases l.len() - k,
{
    if k >= l.len() {
        l.len() as int
    } else if l[k] == ' ' {
        k
    } else {
        space_from(l, k + 1)
    }
}

proof fn lemma_space_from(l: Seq<char>, k: int)
    requires
        0 <= k,
    ensures
        k <= space_from(l, k) || k > l.len(),
        space_from(l, k) <= l.len(),
        space_from(l, k) < l.len() ==> l[space_from(l, k)] == ' ',
    decreases l.len() - k,
{
    if k < l.len() && l[k] != ' ' {
        lemma_space_from(l, k + 1);
    }
}

/// The second of the pieces that single spaces separate in the line, if
/// there is a space.
pub open spec fn second_piece(l: Seq<char>) -> Option<Seq<char>> {
    let p = space_from(l, 0);
    if p >= l.len() {
        None
    } else {
        Some(l.subrange(p + 1, space_from(l, p + 1)))
    }
}

/// The host target that the first line starting with `host:` names: the
/// piece after its first space.
pub open spec fn host_target_of(lines: Seq<Seq<char>>) -> Option<Seq<char>>
    decreases lines.len(),
{
    if lines.len() == 0 {
        None
    } else if is_host_line(lines[0]) {
        second_piece(lines[0])
    } else {
        host_target_of(lines.drop_first())
    }
}

/// The first position of a space in `s` from `k` on, before `hi`, or `hi`.
fn find_space(s: &Vec<char>, k: usize, hi: usize) -> (r: usize)
    requires
        k <= hi <= s.len(),
    ensures
        r == k + space_from(s@.subrange(k as int, hi as int), 0),
        k <= r <= hi,
{
    let ghost l = s@.subrange(k as int, hi as int);
    let mut j = k;
    while j < hi && s[j] != ' '
        invariant
            k <= j <= hi <= s.len(),
            l == s@.subrange(k as int, hi as int),
            space_from(l, (j - k) as int) == space_from(l, 0),
        decreases hi - j,
    {
        j = j + 1;
    }
    proof {
        lemma_space_from(l, 0);
    }
    j
}

/// The host target in the output of `rustc -vV`: on the first line that
/// starts with `host:`, the piece after the first space.
pub fn host_target_from_rustc_output(output: &str) -> (r: Option<String>)
    ensures
        match r {
            Some(t) => host_target_of(text_lines(output@)) == Some(t@),
            None => host_target_of(text_lines(output@)) is None,
        },
{
    let s = chars_of(output);
    let n = s.len();
    let mut i: usize = 0;
    while i < n
        invariant
            s@ == output@,
            n == s.len(),
            i <= n,
            host_target_of(text_lines(s@)) == host_target_of(lines_from(s@, i as int)),
        decreases n - i,
    {
        let e = find_line_end(&s, i);
        proof {
            lemma_line_end(s@, i as int);
        }
        let stop = if e < n && e > i && s[e - 1] == '\r' {
            e - 1
        } else {
            e
        };
        let ghost line = s@.subrange(i as int, stop as int);
        let ghost rest = lines_from(s@, e + 1);
        assert(lines_from(s@, i as int) == seq![line] + rest);
        assert((seq![line] + rest)[0] == line);
        assert((seq![line] + rest).drop_first() =~= rest);
        let is_host = stop - i >= 5 && s[i] == 'h' && s[i + 1] == 'o' && s[i + 2] == 's' && s[i + 3]
            == 't' && s[i + 4] == ':';
        proof {
            if stop - i >= 5 {
                if is_host_line(line) {
                    assert(line[0] == 'h' && line[1] == 'o' && line[2] == 's' && line[3] == 't' && line[4]
                        == ':');
                }
                if is_host {
                    assert(line.subrange(0, 5) =~= seq!['h', 'o', 's', 't', ':']);
                }
            }
        }
        if is_host {
            let p = find_space(&s, i, stop);
            proof {
                assert(s@.subrange(i as int, stop as int) =~= line);
            }
            if p >= stop {
                return None;
            }
            let q = find_space(&s, p + 1, stop);
            proof {
                let l2 = s@.subrange(p + 1, stop as int);
                lemma_space_from(line, p - i + 1);
                lemma_space_from(l2, 0);
                assert(l2 =~= line.subrange(p + 1 - i, line.len() as int));
                assert forall|k: int| 0 <= k <= l2.len() implies space_from(l2, k) + (p + 1 - i)
                    == space_from(line, k + (p + 1 - i)) by {
                    lemma_space_shift(line, p + 1 - i, k);
                }
                assert(line.subrange(p - i + 1, q - i) =~= s@.subrange(p + 1, q as int));
            }
            let t = output.substring_char(p + 1, q).to_owned();
            return Some(t);
        }
        if e >= n {
            i = n;
        } else {
            i = e + 1;
        }
    }
    None
}

/// A space search in the text after its first `d` characters finds, `d`
/// places earlier, what the search in the whole text finds.
proof fn lemma_space_shift(l: Seq<char>, d: int, k: int)
    requires
        0 <= d <= l.len(),
        0 <= k <= l.len() - d,
    ensures
        space_from(l.subrange(d, l.len() as int), k) + d == space_from(l, k + d),
    decreases l.len() - d - k,
{
    if k < l.len() - d {
        lemma_space_shift(l, d, k + 1);
    }
}

/// The `cfg` value that `cargo_platform` reads from the text, nothing
/// where the text is not one.
pub uninterp spec fn cfg_parse(line: Seq<char>) -> Option<cargo_platform::Cfg>;

/// Calls `cargo_platform::Cfg::from_str`. Trusted to return
/// `cfg_parse(line@)`: the value read depends on the text alone.
#[verifier::external_body]
fn parse_cfg(line: &str) -> (r: Option<cargo_platform::Cfg>)
    ensures
        r == cfg_parse(line@),
{
    line.parse::<cargo_platform::Cfg>().ok()
}

/// The `cfg` values of the lines, nothing where a line is not one.
pub open spec fn parsed_cfgs(lines: Seq<Seq<char>>) -> Option<Seq<cargo_platform::Cfg>>
    decreases lines.len(),
{
    if lines.len() == 0 {
        Some(Seq::empty())
    } else {
        match cfg_parse(lines[0]) {
            None => None,
            Some(c) => match parsed_cfgs(lines.drop_first()) {
                None => None,
                Some(rest) => Some(seq![c] + rest),
            },
        }
    }
}

/// The `cfg` values that the output of `rustc --print=cfg` lists, one per
/// line; nothing where a line is not a `cfg` value.
pub fn parse_cfgs(output: &str) -> (r: Option<Vec<cargo_platform::Cfg>>)
    ensures
        match r {
            Some(v) => parsed_cfgs(text_lines(output@)) == Some(v@),
            None => parsed_cfgs(text_lines(output@)) is None,
        },
{
    let s = chars_of(output);
    let n = s.len();
    let mut out: Vec<cargo_platform::Cfg> = Vec::new();
    let mut i: usize = 0;
    while i < n
        invariant
            s@ == output@,
            n == s.len(),
            i <= n,
            parsed_cfgs(text_lines(s@)) == match parsed_cfgs(lines_from(s@, i as int)) {
                None => None,
                Some(rest) => Some(out@ + rest),
            },
        decreases n - i,
    {
        let e = find_line_end(&s, i);
        proof {
            lemma_line_end(s@, i as int);
        }
        let stop = if e < n && e > i && s[e - 1] == '\r' {
            e - 1
        } else {
            e
        };
        let ghost line = s@.subrange(i as int, stop as int);
        let ghost rest = lines_from(s@, e + 1);
        assert(lines_from(s@, i as int) == seq![line] + rest);
        assert((seq![line] + rest)[0] == line);
        assert((seq![line] + rest).drop_first() =~= rest);
        let text = output.substring_char(i, stop);
        match parse_cfg(text) {
            None => {
                return None;
            },
            Some(c) => {
                let ghost before = out@;
                out.push(c);
                proof {
                    match parsed_cfgs(rest) {
                        None => {},
                        Some(r) => {
                            assert(out@ + r =~= before + (seq![c] + r));
                        },
                    }
                }
            },
        }
        if e >= n {
            i = n;
        } else {
            i = e + 1;
        }
    }
    proof {
        assert(out@ + Seq::<cargo_platform::Cfg>::empty() =~= out@);
    }
    Some(out)
}

} // verus!
