//! The parser of package line patterns such as `{p} {l}`: text, and
//! arguments in braces.

use vstd::prelude::*;
use crate::text::{char_is_alphabetic, char_is_alphanumeric, chars_of, is_alphabetic, is_alphanumeric};

verus! {

/// A piece of a pattern as the parser reads it.
#[derive(Debug, PartialEq, Eq)]
pub enum RawChunk<'a> {
    Argument(&'a str),
    Error(&'static str),
    Text(&'a str),
}

/// A piece of a pattern, by its text.
pub enum RawChunkView {
    Argument(Seq<char>),
    Error(Seq<char>),
    Text(Seq<char>),
}

impl<'a> View for RawChunk<'a> {
    type V = RawChunkView;

    open spec fn view(&self) -> RawChunkView {
        match *self {
            RawChunk::Argument(a) => RawChunkView::Argument(a@),
            RawChunk::Error(e) => RawChunkView::Error(e@),
            RawChunk::Text(t) => RawChunkView::Text(t@),
        }
    }
}

/// The end of the run of alphanumeric characters that starts at `i`.
pub open spec fn alnum_end(s: Seq<char>, i: int) -> int
    decreases s.len() - i,
{
    if i < 0 || i >= s.len() || !char_is_alphanumeric(s[i]) {
        i
    } else {
        alnum_end(s, i + 1)
    }
}

/// The end of the name that starts at `i`: a letter followed by letters and
/// digits; `i` itself where no letter starts a name.
pub open spec fn name_end(s: Seq<char>, i: int) -> int {
    if 0 <= i < s.len() && char_is_alphabetic(s[i]) {
        alnum_end(s, i + 1)
    } else {
        i
    }
}

/// The character ends a text piece.
pub open spec fn is_text_stop(c: char) -> bool {
    c == '{' || c == '}' || c == ')'
}

/// The end of the text that starts at `i`: the next `{`, `}` or `)`, or the
/// end of the pattern.
pub open spec fn text_end(s: Seq<char>, i: int) -> int
    decreases s.len() - i,
{
    if i < 0 || i >= s.len() || is_text_stop(s[i]) {
        i
    } else {
        text_end(s, i + 1)
    }
}

proof fn lemma_alnum_end_bounds(s: Seq<char>, i: int)
    requires
        0 <= i <= s.len(),
    ensures
        i <= alnum_end(s, i) <= s.len(),
        alnum_end(s, i) < s.len() ==> !char_is_alphanumeric(s[alnum_end(s, i)]),
    decreases s.len() - i,
{
    if i < s.len() && char_is_alphanumeric(s[i]) {
        lemma_alnum_end_bounds(s, i + 1);
    }
}

proof fn lemma_text_end_bounds(s: Seq<char>, i: int)
    requires
        0 <= i <= s.len(),
    ensures
        i <= text_end(s, i) <= s.len(),
        text_end(s, i) < s.len() ==> is_text_stop(s[text_end(s, i)]),
    decreases s.len() - i,
{
    if i < s.len() && !is_text_stop(s[i]) {
        lemma_text_end_bounds(s, i + 1);
    }
}

/// The next piece of the pattern `s` read from position `pos`, and the
/// position after it; nothing at the end of the pattern.
pub open spec fn spec_next(s: Seq<char>, pos: int) -> Option<(RawChunkView, int)> {
    if pos >= s.len() {
        None
    } else if s[pos] == '{' {
        if pos + 1 < s.len() && s[pos + 1] == '{' {
            Some((RawChunkView::Text(seq!['{']), pos + 2))
        } else {
            let e = name_end(s, pos + 1);
            if e < s.len() && s[e] == '}' {
                Some((RawChunkView::Argument(s.subrange(pos + 1, e)), e + 1))
            } else {
                Some((RawChunkView::Error("expected '}'"@), s.len() as int))
            }
        }
    } else if s[pos] == '}' {
        Some((RawChunkView::Error("unexpected '}'"@), pos + 1))
    } else {
        Some((RawChunkView::Text(s.subrange(pos, text_end(s, pos))), text_end(s, pos)))
    }
}

/// Reads a pattern piece by piece.
pub struct Parser<'a> {
    s: &'a str,
    chars: Vec<char>,
    pos: usize,
}

impl<'a> Parser<'a> {
    /// The text of the pattern.
    pub closed spec fn source(&self) -> Seq<char> {
        self.s@
    }

    /// The position of the next character to read.
    pub closed spec fn position(&self) -> int {
        self.pos as int
    }

    /// The parser is in a consistent state.
    pub closed spec fn wf(&self) -> bool {
        &&& self.chars@ == self.s@
        &&& self.pos <= self.chars@.len()
    }

    /// A parser at the start of `s`.
    pub fn new(s: &'a str) -> (p: Parser<'a>)
        ensures
            p.wf(),
            p.source() == s@,
            p.position() == 0,
    {
        Parser { s, chars: chars_of(s), pos: 0 }
    }

    /// The position of the next character to read.
    pub fn offset(&self) -> (r: usize)
        ensures
            r == self.position(),
    {
        self.pos
    }

    /// Reads an argument name.
    pub fn argument(&mut self) -> (r: RawChunk<'a>)
        requires
            old(self).wf(),
        ensures
            final(self).wf(),
            final(self).source() == old(self).source(),
            final(self).position() == name_end(old(self).source(), old(self).position()),
            r@ == RawChunkView::Argument(
                old(self).source().subrange(
                    old(self).position(),
                    name_end(old(self).source(), old(self).position()),
                ),
            ),
    {
        RawChunk::Argument(self.name())
    }

    /// Reads `ch` when it is the next character.
    pub fn consume(&mut self, ch: char) -> (r: bool)
        requires
            old(self).wf(),
        ensures
            final(self).wf(),
            final(self).source() == old(self).source(),
            r == (old(self).position() < old(self).source().len() && old(self).source()[old(
                self,
            ).position()] == ch),
            final(self).position() == old(self).position() + if r {
                1int
            } else {
                0
            },
    {
        if self.pos < self.chars.len() && self.chars[self.pos] == ch {
            self.pos = self.pos + 1;
            true
        } else {
            false
        }
    }

    /// Reads a name: a letter followed by letters and digits, or nothing
    /// when no letter comes next.
    pub fn name(&mut self) -> (r: &'a str)
        requires
            old(self).wf(),
        ensures
            final(self).wf(),
            final(self).source() == old(self).source(),
            final(self).position() == name_end(old(self).source(), old(self).position()),
            r@ == old(self).source().subrange(
                old(self).position(),
                name_end(old(self).source(), old(self).position()),
            ),
    {
        let start = self.pos;
        if !(start < self.chars.len() && is_alphabetic(self.chars[start])) {
            proof {
                reveal_strlit("");
                assert(self.s@.subrange(start as int, start as int) =~= ""@);
            }
            return "";
        }
        self.pos = start + 1;
        while self.pos < self.chars.len() && is_alphanumeric(self.chars[self.pos])
            invariant
                self.wf(),
                self.s == old(self).s,
                start < self.pos <= self.chars@.len(),
                start == old(self).pos,
                char_is_alphabetic(self.s@[start as int]),
                alnum_end(self.s@, self.pos as int) == alnum_end(self.s@, start + 1),
            decreases self.chars@.len() - self.pos,
        {
            self.pos = self.pos + 1;
        }
        self.s.substring_char(start, self.pos)
    }

    /// Reads text up to the next `{`, `}` or `)`.
    pub fn text(&mut self, start: usize) -> (r: RawChunk<'a>)
        requires
            old(self).wf(),
            start == old(self).position(),
        ensures
            final(self).wf(),
            final(self).source() == old(self).source(),
            final(self).position() == text_end(old(self).source(), start as int),
            r@ == RawChunkView::Text(
                old(self).source().subrange(start as int, text_end(old(self).source(), start as int)),
            ),
    {
        while self.pos < self.chars.len() && !(self.chars[self.pos] == '{' || self.chars[self.pos]
            == '}' || self.chars[self.pos] == ')')
            invariant
                self.wf(),
                self.s == old(self).s,
                start <= self.pos <= self.chars@.len(),
                text_end(self.s@, self.pos as int) == text_end(self.s@, start as int),
            decreases self.chars@.len() - self.pos,
        {
            self.pos = self.pos + 1;
        }
        RawChunk::Text(self.s.substring_char(start, self.pos))
    }

    /// Reads the next piece: `{{` as the text `{`, a name in braces as an
    /// argument, text up to the next brace or `)`, or an error for a stray
    /// `}` or an unclosed `{`; nothing at the end.
    pub fn next(&mut self) -> (r: Option<RawChunk<'a>>)
        requires
            old(self).wf(),
        ensures
            final(self).wf(),
            final(self).source() == old(self).source(),
            final(self).position() <= final(self).source().len(),
            match spec_next(old(self).source(), old(self).position()) {
                None => r is None && final(self).position() == old(self).position(),
                Some((c, e)) => r matches Some(rc) && rc@ == c && final(self).position() == e,
            },
    {
        if self.pos >= self.chars.len() {
            return None;
        }
        proof {
            lemma_alnum_end_bounds(self.s@, self.pos as int + 1);
            lemma_text_end_bounds(self.s@, self.pos as int);
        }
        let c = self.chars[self.pos];
        if c == '{' {
            self.pos = self.pos + 1;
            if self.consume('{') {
                proof {
                    reveal_strlit("{");
                    assert("{"@ =~= seq!['{']);
                }
                Some(RawChunk::Text("{"))
            } else {
                let chunk = self.argument();
                proof {
                    lemma_alnum_end_bounds(self.s@, self.pos as int);
                }
                if self.consume('}') {
                    Some(chunk)
                } else {
                    self.pos = self.chars.len();
                    Some(RawChunk::Error("expected '}'"))
                }
            }
        } else if c == '}' {
            self.pos = self.pos + 1;
            Some(RawChunk::Error("unexpected '}'"))
        } else {
            let start = self.pos;
            Some(self.text(start))
        }
    }
}

} // verus!
