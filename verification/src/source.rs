//! Where a package comes from, read from the source part of a package id
//! as `cargo metadata` writes it.

use vstd::prelude::*;
use vstd::string::{StrSliceExecFns, StringExecFns};
use crate::text::{chars_of, text_is};

verus! {

/// Source of a package (where it is fetched from); each URL by its text.
#[derive(Clone, Debug, PartialEq, Eq)]
pub enum Source {
    Git { url: String, rev: String },
    Registry { name: String, url: String },
    Path(String),
}

/// A source as texts.
pub enum SourceView {
    Git { url: Seq<char>, rev: Seq<char> },
    Registry { name: Seq<char>, url: Seq<char> },
    Path(Seq<char>),
}

impl Source {
    pub open spec fn view(&self) -> SourceView {
        match self {
            Source::Git { url, rev } => SourceView::Git { url: url@, rev: rev@ },
            Source::Registry { name, url } => SourceView::Registry { name: name@, url: url@ },
            Source::Path(url) => SourceView::Path(url@),
        }
    }
}

/// The parts of a parsed URL: its text, scheme, host, path and the
/// decoded pairs of its query.
pub struct UrlParts {
    pub serialization: String,
    pub scheme: String,
    pub host: Option<String>,
    pub path: String,
    pub query_pairs: Vec<(String, String)>,
}

/// The parts of a URL as texts.
pub type UrlView = (Seq<char>, Seq<char>, Option<Seq<char>>, Seq<char>, Seq<(Seq<char>, Seq<char>)>);

impl UrlParts {
    pub open spec fn view(&self) -> UrlView {
        (
            self.serialization@,
            self.scheme@,
            match self.host {
                Some(h) => Some(h@),
                None => None,
            },
            self.path@,
            self.query_pairs@.map_values(|p: (String, String)| (p.0@, p.1@)),
        )
    }
}

/// What `url::Url::parse` reads from the text, by its parts: nothing
/// where the text is no URL.
pub uninterp spec fn parsed_url(s: Seq<char>) -> Option<UrlView>;

/// Calls `url::Url::parse` and takes the parts of the URL with
/// `as_str`, `scheme`, `host_str`, `path` and `query_pairs`. Trusted to
/// return `parsed_url(s@)`: the URL read depends on the text alone.
#[verifier::external_body]
fn parse_url(s: &str) -> (r: Option<UrlParts>)
    ensures
        match r {
            Some(u) => parsed_url(s@) == Some(u@),
            None => parsed_url(s@) is None,
        },
{
    let u = url::Url::parse(s).ok()?;
    Some(UrlParts {
        serialization: u.as_str().to_string(),
        scheme: u.scheme().to_string(),
        host: u.host_str().map(|h| h.to_string()),
        path: u.path().to_string(),
        query_pairs: u.query_pairs().map(|(k, v)| (k.into_owned(), v.into_owned())).collect(),
    })
}

/// What `url::Url::from_file_path` makes of the path, by the URL's text:
/// nothing where the path is not absolute.
pub uninterp spec fn file_url(path: Seq<char>) -> Option<Seq<char>>;

/// Calls `url::Url::from_file_path` and takes the text of the URL.
/// Trusted to return `file_url(path@)`: the URL depends on the path alone.
#[verifier::external_body]
fn url_from_file_path(path: &str) -> (r: Option<String>)
    ensures
        match r {
            Some(u) => file_url(path@) == Some(u@),
            None => file_url(path@) is None,
        },
{
    url::Url::from_file_path(path).ok().map(|u| u.as_str().to_string())
}

/// The first position of `c` from `k` on, or the end of the text.
pub open spec fn char_from(s: Seq<char>, c: char, k: int) -> int
    decreases s.len() - k,
{
    if k >= s.len() {
        s.len() as int
    } else if s[k] == c {
        k
    } else {
        char_from(s, c, k + 1)
    }
}

/// The last position of `c` before `k`.
pub open spec fn char_before(s: Seq<char>, c: char, k: int) -> Option<int>
    decreases k,
{
    if k <= 0 {
        None
    } else if s[k - 1] == c {
        Some(k - 1)
    } else {
        char_before(s, c, k - 1)
    }
}

/// The first of the pieces that `+` separates.
pub open spec fn first_piece(s: Seq<char>) -> Seq<char> {
    s.subrange(0, char_from(s, '+', 0))
}

/// The last of the pieces that `+` separates.
pub open spec fn last_piece(s: Seq<char>) -> Seq<char> {
    match char_before(s, '+', s.len() as int) {
        None => s,
        Some(p) => s.subrange(p + 1, s.len() as int),
    }
}

/// The value of the first query pair whose key is `rev`.
pub open spec fn rev_of(pairs: Seq<(Seq<char>, Seq<char>)>) -> Option<Seq<char>>
    decreases pairs.len(),
{
    if pairs.len() == 0 {
        None
    } else if pairs[0].0 == "rev"@ {
        Some(pairs[0].1)
    } else {
        rev_of(pairs.drop_first())
    }
}

/// A git URL without its query: scheme, `://`, host and path.
pub open spec fn git_url_without_query(u: UrlView) -> Option<Seq<char>> {
    match u.2 {
        None => None,
        Some(host) => Some(u.1 + "://"@ + host + u.3),
    }
}

/// The source that a source text names: `registry+` and the index URL, or
/// `git+` and a URL whose `rev` query pair gives the revision; nothing for
/// another kind or a URL that does not read.
pub open spec fn spec_source_of_repr(repr: Seq<char>) -> Option<SourceView> {
    let kind = first_piece(repr);
    let raw = last_piece(repr);
    if kind == "registry"@ {
        match parsed_url(raw) {
            Some(u) => Some(SourceView::Registry { name: "crates.io"@, url: u.0 }),
            None => None,
        }
    } else if kind == "git"@ {
        match parsed_url(raw) {
            None => None,
            Some(u) => match git_url_without_query(u) {
                None => None,
                Some(text) => match (parsed_url(text), rev_of(u.4)) {
                    (Some(g), Some(rev)) => Some(SourceView::Git { url: g.0, rev }),
                    _ => None,
                },
            },
        }
    } else {
        None
    }
}

proof fn lemma_char_from(s: Seq<char>, c: char, k: int)
    requires
        0 <= k <= s.len(),
    ensures
        k <= char_from(s, c, k) <= s.len(),
    decreases s.len() - k,
{
    if k < s.len() && s[k] != c {
        lemma_char_from(s, c, k + 1);
    }
}

proof fn lemma_char_before(s: Seq<char>, c: char, k: int)
    requires
        k <= s.len(),
    ensures
        char_before(s, c, k) matches Some(p) ==> 0 <= p < k,
    decreases k,
{
    if k > 0 && s[k - 1] != c {
        lemma_char_before(s, c, k - 1);
    }
}

/// The first position of `c` in `s` from `k` on, or the end.
fn find_char(s: &Vec<char>, c: char, k: usize) -> (r: usize)
    requires
        k <= s.len(),
    ensures
        r == char_from(s@, c, k as int),
        k <= r <= s.len(),
{
    let mut j = k;
    while j < s.len() && s[j] != c
        invariant
            k <= j <= s.len(),
            char_from(s@, c, j as int) == char_from(s@, c, k as int),
        decreases s.len() - j,
    {
        j = j + 1;
    }
    proof {
        lemma_char_from(s@, c, k as int);
    }
    j
}

/// The last position of `c` in `s`.
fn find_last_char(s: &Vec<char>, c: char) -> (r: Option<usize>)
    ensures
        match r {
            Some(p) => char_before(s@, c, s@.len() as int) == Some(p as int) && p < s.len(),
            None => char_before(s@, c, s@.len() as int) is None,
        },
{
    let mut k = s.len();
    while k > 0
        invariant
            k <= s.len(),
            char_before(s@, c, k as int) == char_before(s@, c, s@.len() as int),
        decreases k,
    {
        if s[k - 1] == c {
            return Some(k - 1);
        }
        k = k - 1;
    }
    None
}

/// The value of the first query pair whose key is `rev`.
fn find_rev(pairs: &Vec<(String, String)>) -> (r: Option<String>)
    ensures
        match r {
            Some(v) => rev_of(pairs@.map_values(|p: (String, String)| (p.0@, p.1@))) == Some(v@),
            None => rev_of(pairs@.map_values(|p: (String, String)| (p.0@, p.1@))) is None,
        },
{
    let ghost all = pairs@.map_values(|p: (String, String)| (p.0@, p.1@));
    let mut i: usize = 0;
    assert(all.subrange(0, all.len() as int) =~= all);
    while i < pairs.len()
        invariant
            all == pairs@.map_values(|p: (String, String)| (p.0@, p.1@)),
            i <= pairs.len(),
            rev_of(all) == rev_of(all.subrange(i as int, all.len() as int)),
        decreases pairs.len() - i,
    {
        let ghost rest = all.subrange(i as int, all.len() as int);
        assert(rest[0] == all[i as int]);
        assert(rest.drop_first() =~= all.subrange(i as int + 1, all.len() as int));
        if text_is(&pairs[i].0, "rev") {
            return Some(pairs[i].1.clone());
        }
        i = i + 1;
    }
    None
}

/// The source that the source text of a package id names: a registry
/// (named `crates.io`) with the URL after the last `+`, or a git
/// repository whose URL is the one after the last `+` without its query,
/// at the revision that its `rev` query pair gives. Nothing for another
/// kind of source, or where a URL does not read or lacks a host or a
/// revision.
pub fn handle_source_repr(source_repr: &str) -> (r: Option<Source>)
    ensures
        match r {
            Some(s) => spec_source_of_repr(source_repr@) == Some(s.view()),
            None => spec_source_of_repr(source_repr@) is None,
        },
{
    let s = chars_of(source_repr);
    let first_end = find_char(&s, '+', 0);
    let kind = source_repr.substring_char(0, first_end);
    let raw = match find_last_char(&s, '+') {
        None => source_repr,
        Some(p) => source_repr.substring_char(p + 1, s.len()),
    };
    assert(kind@ == first_piece(source_repr@));
    assert(raw@ == last_piece(source_repr@));
    if crate::text::str_is(kind, "registry") {
        match parse_url(raw) {
            None => None,
            Some(u) => Some(Source::Registry { name: "crates.io".to_owned(), url: u.serialization }),
        }
    } else if crate::text::str_is(kind, "git") {
        let u = match parse_url(raw) {
            None => {
                return None;
            },
            Some(u) => u,
        };
        let host = match &u.host {
            None => {
                return None;
            },
            Some(h) => h,
        };
        let mut text = String::from_str(u.scheme.as_str());
        text.append("://");
        text.append(host.as_str());
        text.append(u.path.as_str());
        proof {
            assert(git_url_without_query(u@) == Some(text@));
        }
        let rev = find_rev(&u.query_pairs);
        match (parse_url(text.as_str()), rev) {
            (Some(g), Some(rev)) => Some(Source::Git { url: g.serialization, rev }),
            _ => None,
        }
    } else {
        None
    }
}

/// The position of the first `+file://` in `s` from `k` on.
pub open spec fn file_marker_at(s: Seq<char>, k: int) -> bool {
    0 <= k && k + 8 <= s.len() && s.subrange(k, k + 8) == "+file://"@
}

/// The position just after the last `+file://` that ends at or before `k`.
pub open spec fn after_last_marker(s: Seq<char>, k: int) -> Option<int>
    decreases k,
{
    if k < 8 {
        None
    } else if file_marker_at(s, k - 8) {
        Some(k)
    } else {
        after_last_marker(s, k - 1)
    }
}

/// The path source that a package id text names: inside its outer
/// brackets, the path after the last `+file://`, as a file URL; nothing
/// where the text is too short, holds no `+file://`, or the path is not
/// absolute.
pub open spec fn spec_path_source_of_repr(repr: Seq<char>) -> Option<SourceView> {
    if repr.len() < 2 {
        None
    } else {
        let inner = repr.subrange(1, repr.len() - 1);
        match after_last_marker(inner, inner.len() as int) {
            None => None,
            Some(p) => match file_url(inner.subrange(p, inner.len() as int)) {
                None => None,
                Some(u) => Some(SourceView::Path(u)),
            },
        }
    }
}

proof fn lemma_after_last_marker(s: Seq<char>, k: int)
    requires
        k <= s.len(),
    ensures
        after_last_marker(s, k) matches Some(p) ==> 8 <= p <= k,
    decreases k,
{
    if k >= 8 && !file_marker_at(s, k - 8) {
        lemma_after_last_marker(s, k - 1);
    }
}

/// Whether `+file://` stands in `s` at position `k`.
fn exec_file_marker_at(s: &Vec<char>, k: usize) -> (r: bool)
    requires
        k + 8 <= s.len(),
    ensures
        r == file_marker_at(s@, k as int),
{
    let r = s[k] == '+' && s[k + 1] == 'f' && s[k + 2] == 'i' && s[k + 3] == 'l' && s[k + 4] == 'e'
        && s[k + 5] == ':' && s[k + 6] == '/' && s[k + 7] == '/';
    proof {
        reveal_strlit("+file://");
        if r {
            assert(s@.subrange(k as int, k + 8) =~= "+file://"@);
        }
        if file_marker_at(s@, k as int) {
            assert(s@.subrange(k as int, k + 8)[0] == '+');
            assert(s@.subrange(k as int, k + 8)[1] == 'f');
            assert(s@.subrange(k as int, k + 8)[2] == 'i');
            assert(s@.subrange(k as int, k + 8)[3] == 'l');
            assert(s@.subrange(k as int, k + 8)[4] == 'e');
            assert(s@.subrange(k as int, k + 8)[5] == ':');
            assert(s@.subrange(k as int, k + 8)[6] == '/');
            assert(s@.subrange(k as int, k + 8)[7] == '/');
        }
    }
    r
}

/// The source of a package that comes from a path, read from the text of
/// its package id.
pub fn handle_path_source(package_id_repr: &str) -> (r: Option<Source>)
    ensures
        match r {
            Some(s) => spec_path_source_of_repr(package_id_repr@) == Some(s.view()),
            None => spec_path_source_of_repr(package_id_repr@) is None,
        },
{
    let n = package_id_repr.unicode_len();
    if n < 2 {
        return None;
    }
    let inner = package_id_repr.substring_char(1, n - 1);
    let s = chars_of(inner);
    let mut k = s.len();
    while k >= 8 && !exec_file_marker_at(&s, k - 8)
        invariant
            k <= s.len(),
            s@ == inner@,
            after_last_marker(s@, k as int) == after_last_marker(s@, s@.len() as int),
        decreases k,
    {
        k = k - 1;
    }
    if k < 8 {
        return None;
    }
    let path = inner.substring_char(k, s.len());
    match url_from_file_path(path) {
        None => None,
        Some(u) => Some(Source::Path(u)),
    }
}

} // verus!
