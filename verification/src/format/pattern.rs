//! Package line patterns: text with the placeholders `{p}` (package name
//! and version), `{l}` (license) and `{r}` (repository).

use vstd::prelude::*;
use vstd::string::StringExecFns;
use crate::format::{Chunk, FormatError};
use crate::format::parse::{is_text_stop, spec_next, text_end, Parser, RawChunk, RawChunkView};
use crate::text::str_is;

verus! {

/// A piece of a pattern, by its text.
pub enum ChunkView {
    License,
    Package,
    Raw(Seq<char>),
    Repository,
}

impl View for Chunk {
    type V = ChunkView;

    open spec fn view(&self) -> ChunkView {
        match self {
            Chunk::License => ChunkView::License,
            Chunk::Package => ChunkView::Package,
            Chunk::Raw(s) => ChunkView::Raw(s@),
            Chunk::Repository => ChunkView::Repository,
        }
    }
}

/// The pieces of a pattern, by their text.
pub open spec fn chunks_view(chunks: Seq<Chunk>) -> Seq<ChunkView> {
    chunks.map_values(|c: Chunk| c@)
}

/// The message for an argument that is not a placeholder.
pub open spec fn unsupported_message(a: Seq<char>) -> Seq<char> {
    "unsupported pattern `"@ + a + "`"@
}

/// The result of building a pattern from the pieces read from position
/// `pos` on, after the pieces `acc`: the pieces, or the message of the
/// first error. Nothing where reading stops making progress, at a `)` that
/// is not inside braces: there the parser returns empty text forever.
pub open spec fn build_from(s: Seq<char>, pos: int, acc: Seq<ChunkView>) -> Option<
    Result<Seq<ChunkView>, Seq<char>>,
>
    decreases s.len() - pos,
{
    match spec_next(s, pos) {
        None => Some(Ok(acc)),
        Some((raw, e)) => {
            if e <= pos || e > s.len() {
                None
            } else {
                match raw {
                    RawChunkView::Text(t) => build_from(s, e, acc.push(ChunkView::Raw(t))),
                    RawChunkView::Argument(a) => {
                        if a == "p"@ {
                            build_from(s, e, acc.push(ChunkView::Package))
                        } else if a == "l"@ {
                            build_from(s, e, acc.push(ChunkView::License))
                        } else if a == "r"@ {
                            build_from(s, e, acc.push(ChunkView::Repository))
                        } else {
                            Some(Err(unsupported_message(a)))
                        }
                    },
                    RawChunkView::Error(m) => Some(Err(m)),
                }
            }
        },
    }
}

/// The result of building a pattern from the whole of `s`.
pub open spec fn spec_try_build(s: Seq<char>) -> Option<Result<Seq<ChunkView>, Seq<char>>> {
    build_from(s, 0, Seq::empty())
}

/// A package line pattern.
#[derive(Debug, PartialEq, Eq)]
pub struct Pattern {
    pub chunks: Vec<Chunk>,
}

impl Pattern {
    /// The pattern made of the given pieces.
    pub fn new(chunks: Vec<Chunk>) -> (p: Pattern)
        ensures
            p.chunks == chunks,
    {
        Pattern { chunks }
    }

    /// Whether building a pattern from the text comes to an end: it does
    /// unless reading reaches a `)` outside braces before any error, where
    /// the parser stops advancing.
    pub fn try_build_ends(format: &str) -> (r: bool)
        ensures
            r == (spec_try_build(format@) is Some),
    {
        let mut parser = Parser::new(format);
        let ghost mut acc: Seq<ChunkView> = Seq::empty();
        loop
            invariant
                parser.wf(),
                parser.source() == format@,
                0 <= parser.position() <= format@.len(),
                (build_from(format@, parser.position(), acc) is Some) == (spec_try_build(format@) is Some),
            decreases format@.len() - parser.position(),
        {
            let before = parser.offset();
            let raw = parser.next();
            match raw {
                None => {
                    return true;
                },
                Some(raw) => {
                    if parser.offset() <= before {
                        return false;
                    }
                    match raw {
                        RawChunk::Text(text) => {
                            proof {
                                acc = acc.push(ChunkView::Raw(text@));
                            }
                        },
                        RawChunk::Argument(a) => {
                            if str_is(a, "p") {
                                proof {
                                    acc = acc.push(ChunkView::Package);
                                }
                            } else if str_is(a, "l") {
                                proof {
                                    acc = acc.push(ChunkView::License);
                                }
                            } else if str_is(a, "r") {
                                proof {
                                    acc = acc.push(ChunkView::Repository);
                                }
                            } else {
                                return true;
                            }
                        },
                        RawChunk::Error(_) => {
                            return true;
                        },
                    }
                },
            }
        }
    }

    /// Builds a pattern from its text: `{p}`, `{l}` and `{r}` are
    /// placeholders, `{{` is a brace, everything else is text. Any other
    /// name in braces, a stray `}` or an unclosed `{` is an error.
    pub fn try_build(format: &str) -> (r: Result<Pattern, FormatError>)
        requires
            spec_try_build(format@) is Some,
        ensures
            match r {
                Ok(p) => spec_try_build(format@) == Some(
                    Ok::<Seq<ChunkView>, Seq<char>>(chunks_view(p.chunks@)),
                ),
                Err(e) => spec_try_build(format@) == Some(Err::<Seq<ChunkView>, Seq<char>>(e.message@)),
            },
    {
        let mut chunks: Vec<Chunk> = Vec::new();
        let mut parser = Parser::new(format);
        proof {
            assert(chunks_view(chunks@) =~= Seq::<ChunkView>::empty());
        }
        loop
            invariant
                parser.wf(),
                parser.source() == format@,
                0 <= parser.position() <= format@.len(),
                build_from(format@, parser.position(), chunks_view(chunks@)) == spec_try_build(
                    format@,
                ),
                spec_try_build(format@) is Some,
            decreases format@.len() - parser.position(),
        {
            let ghost pos = parser.position();
            let ghost acc = chunks_view(chunks@);
            let raw = parser.next();
            proof {
                if raw is Some {
                    assert(parser.position() > pos);
                }
            }
            match raw {
                None => {
                    return Ok(Pattern { chunks });
                },
                Some(raw) => {
                    let chunk = match raw {
                        RawChunk::Text(text) => Chunk::Raw(text.to_owned()),
                        RawChunk::Argument(a) => {
                            if str_is(a, "p") {
                                Chunk::Package
                            } else if str_is(a, "l") {
                                Chunk::License
                            } else if str_is(a, "r") {
                                Chunk::Repository
                            } else {
                                let mut message = String::new();
                                message.append("unsupported pattern `");
                                message.append(a);
                                message.append("`");
                                proof {
                                    assert(message@ =~= unsupported_message(a@));
                                }
                                return Err(FormatError { message });
                            }
                        },
                        RawChunk::Error(err) => {
                            return Err(FormatError { message: err.to_owned() });
                        },
                    };
                    chunks.push(chunk);
                    proof {
                        assert(chunks_view(chunks@) =~= acc.push(chunk@));
                    }
                },
            }
        }
    }
}


/// What a package line shows of a package.
#[derive(Clone, Debug, PartialEq, Eq)]
pub struct PackageDisplayInfo {
    pub name: String,
    pub version: String,
    pub license: Option<String>,
    pub repository: Option<String>,
}

/// The text of a piece of a pattern for a package: its license or
/// repository where it has one, its name and version separated by a space,
/// or the text of the piece.
pub open spec fn chunk_text(c: ChunkView, info: PackageDisplayInfo) -> Seq<char> {
    match c {
        ChunkView::License => match info.license {
            Some(l) => l@,
            None => Seq::empty(),
        },
        ChunkView::Package => info.name@ + " "@ + info.version@,
        ChunkView::Raw(s) => s,
        ChunkView::Repository => match info.repository {
            Some(r) => r@,
            None => Seq::empty(),
        },
    }
}

/// The text of a pattern for a package: the texts of its pieces, in order.
pub open spec fn display_text(chunks: Seq<ChunkView>, info: PackageDisplayInfo) -> Seq<char>
    decreases chunks.len(),
{
    if chunks.len() == 0 {
        Seq::empty()
    } else {
        display_text(chunks.drop_last(), info) + chunk_text(chunks.last(), info)
    }
}

impl Pattern {
    /// The package line of a package in this pattern.
    pub fn display(&self, info: &PackageDisplayInfo) -> (r: String)
        ensures
            r@ == display_text(chunks_view(self.chunks@), *info),
    {
        let mut s = String::new();
        let mut i: usize = 0;
        proof {
            assert(chunks_view(self.chunks@).take(0) =~= Seq::<ChunkView>::empty());
        }
        while i < self.chunks.len()
            invariant
                i <= self.chunks.len(),
                s@ == display_text(chunks_view(self.chunks@).take(i as int), *info),
            decreases self.chunks.len() - i,
        {
            match &self.chunks[i] {
                Chunk::License => {
                    if let Some(license) = &info.license {
                        s.append(license.as_str());
                    }
                },
                Chunk::Package => {
                    s.append(info.name.as_str());
                    s.append(" ");
                    s.append(info.version.as_str());
                },
                Chunk::Raw(text) => {
                    s.append(text.as_str());
                },
                Chunk::Repository => {
                    if let Some(repository) = &info.repository {
                        s.append(repository.as_str());
                    }
                },
            }
            proof {
                let t = chunks_view(self.chunks@).take(i + 1);
                assert(t.drop_last() =~= chunks_view(self.chunks@).take(i as int));
                assert(t.last() == self.chunks@[i as int]@);
                assert(s@ =~= display_text(t, *info));
            }
            i = i + 1;
        }
        proof {
            assert(chunks_view(self.chunks@).take(self.chunks@.len() as int) =~= chunks_view(self.chunks@));
        }
        s
    }
}

proof fn lemma_text_end_plain(s: Seq<char>, i: int)
    requires
        0 <= i <= s.len(),
        forall|j: int| 0 <= j < s.len() ==> !is_text_stop(#[trigger] s[j]),
    ensures
        text_end(s, i) == s.len(),
    decreases s.len() - i,
{
    if i < s.len() {
        lemma_text_end_plain(s, i + 1);
    }
}

/// A non-empty pattern without braces and without `)` is plain text: it
/// builds into a single text piece that holds all of it.
pub proof fn law_plain_text_is_one_raw_chunk(s: Seq<char>)
    requires
        s.len() > 0,
        forall|j: int| 0 <= j < s.len() ==> !is_text_stop(#[trigger] s[j]),
    ensures
        spec_try_build(s) == Some(Ok::<Seq<ChunkView>, Seq<char>>(seq![ChunkView::Raw(s)])),
{
    lemma_text_end_plain(s, 0);
    assert(!is_text_stop(s[0]));
    assert(s.subrange(0, s.len() as int) =~= s);
    assert(Seq::<ChunkView>::empty().push(ChunkView::Raw(s)) =~= seq![ChunkView::Raw(s)]);
    assert(spec_next(s, 0) == Some((RawChunkView::Text(s), s.len() as int)));
    assert(spec_next(s, s.len() as int) is None);
    assert(build_from(s, s.len() as int, seq![ChunkView::Raw(s)]) == Some(
        Ok::<Seq<ChunkView>, Seq<char>>(seq![ChunkView::Raw(s)]),
    ));
}

/// Displaying a pattern shows its pieces one after another: the text of a
/// pattern made of two parts is the text of the first part followed by the
/// text of the second.
pub proof fn law_display_concatenates(a: Seq<ChunkView>, b: Seq<ChunkView>, info: PackageDisplayInfo)
    ensures
        display_text(a + b, info) == display_text(a, info) + display_text(b, info),
    decreases b.len(),
{
    if b.len() == 0 {
        assert(a + b =~= a);
        assert(display_text(a, info) + display_text(b, info) =~= display_text(a, info));
    } else {
        law_display_concatenates(a, b.drop_last(), info);
        assert((a + b).drop_last() =~= a + b.drop_last());
        assert((a + b).last() == b.last());
        assert(display_text(a + b, info) =~= display_text(a, info) + display_text(b, info));
    }
}

/// Each placeholder is filled in from the package: `{p}` by its name, a
/// space and its version; `{l}` by its license and `{r}` by its repository
/// where it has one, and by nothing where it has none; plain text stands for
/// itself.
pub proof fn law_placeholders_filled(info: PackageDisplayInfo, text: Seq<char>)
    ensures
        display_text(seq![ChunkView::Package], info) == info.name@ + " "@ + info.version@,
        info.license matches Some(l) ==> display_text(seq![ChunkView::License], info) == l@,
        info.license is None ==> display_text(seq![ChunkView::License], info) == Seq::<char>::empty(),
        info.repository matches Some(r) ==> display_text(seq![ChunkView::Repository], info) == r@,
        info.repository is None ==> display_text(seq![ChunkView::Repository], info) == Seq::<char>::empty(),
        display_text(seq![ChunkView::Raw(text)], info) == text,
{
    lemma_display_one(ChunkView::Package, info);
    lemma_display_one(ChunkView::License, info);
    lemma_display_one(ChunkView::Repository, info);
    lemma_display_one(ChunkView::Raw(text), info);
}

proof fn lemma_display_one(c: ChunkView, info: PackageDisplayInfo)
    ensures
        display_text(seq![c], info) == chunk_text(c, info),
{
    let one = seq![c];
    assert(one.drop_last() =~= Seq::<ChunkView>::empty());
    assert(one.last() == c);
    assert(display_text(one.drop_last(), info) == Seq::<char>::empty());
    assert(Seq::<char>::empty() + chunk_text(c, info) =~= chunk_text(c, info));
}

} // verus!
