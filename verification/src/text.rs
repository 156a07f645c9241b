use vstd::prelude::*;

use crate::pattern::{count_byte, QUOTE_DOUBLE, QUOTE_SINGLE};
use crate::span::Span;
use crate::spanned::Spanned;
use crate::tags::{missing_brackets_at, tag_matches, tag_parse_spec, ParseTagError, ParsedTag};

verus! {

/// The caption text of a subtitle: a position-tagged slice of the original
/// input buffer.
#[derive(Debug, Clone, Copy, PartialEq, Eq, Hash)]
pub struct Text<'a> {
    pub text: Spanned<&'a [u8]>,
}

impl<'a> Text<'a> {
    pub open spec fn wf(self) -> bool {
        self.text.wf()
    }

    /// Wraps a whole buffer, spanned from offset zero.
    pub fn new(value: &'a [u8]) -> (r: Text<'a>)
        requires
            value@.len() <= usize::MAX,
        ensures
            r.text.inner == value,
            r.text.span == Some(Span { start: 0, length: value@.len() as usize }),
            r.wf(),
    {
        Text { text: Spanned { inner: value, span: Some(Span { start: 0, length: value.len() }) } }
    }

    /// Wraps a slice that sits at absolute offset `start` of the original
    /// input buffer.
    pub fn new_spanned(value: &'a [u8], start: usize) -> (r: Text<'a>)
        requires
            start + value@.len() <= usize::MAX,
        ensures
            r.text.inner == value,
            r.text.span == Some(Span { start, length: value@.len() as usize }),
            r.wf(),
    {
        Text {
            text: Spanned { inner: value, span: Some(Span { start, length: value.len() }) },
        }
    }

    /// Returns the underlying bytes.
    pub fn as_raw(&self) -> (r: &'a [u8])
        ensures
            r == self.text.inner,
    {
        self.text.inner
    }
}

} // verus!

verus! {

/// One token of tokenized caption text.
#[derive(Debug, Clone, PartialEq, Eq)]
pub enum TextEvent<'a> {
    /// A bracketed tag.
    Tag(ParsedTag<'a>),
    /// A run of plain text.
    Text(&'a [u8]),
}

/// The quote toggles scanned over `s[start..j)` are all closed: each quote
/// character occurs an even number of times in that range.
pub open spec fn balanced_between(s: Seq<u8>, start: int, j: int) -> bool {
    &&& (count_byte(s, QUOTE_SINGLE, j) - count_byte(s, QUOTE_SINGLE, start)) % 2 == 0
    &&& (count_byte(s, QUOTE_DOUBLE, j) - count_byte(s, QUOTE_DOUBLE, start)) % 2 == 0
}

/// The first position at or after `j` holding a `>` that is not inside a
/// quoted region opened since `start`, or `None` if there is none.
pub open spec fn first_unquoted_close(s: Seq<u8>, start: int, j: int) -> Option<int>
    decreases s.len() - j,
    when 0 <= j <= s.len()
{
    if j >= s.len() {
        None
    } else if s[j] == 62 && balanced_between(s, start, j) {
        Some(j)
    } else {
        first_unquoted_close(s, start, j + 1)
    }
}

/// The first position at or after `j` holding a `<`, or the length of `s`.
pub open spec fn next_open_bracket(s: Seq<u8>, j: int) -> int
    decreases s.len() - j,
    when 0 <= j <= s.len()
{
    if j >= s.len() {
        j
    } else if s[j] == 60 {
        j
    } else {
        next_open_bracket(s, j + 1)
    }
}

/// The shape of the next token of `s` at position `pos`: a tag region (its
/// local range, brackets included) or a run of plain text, along with the
/// position after the token.
pub enum TokenModel {
    TagRegion { lo: int, hi: int },
    PlainText { lo: int, hi: int },
}

/// What the tokenizer at position `pos` of `s` yields next.  A `<` opens a
/// tag region reaching to the first `>` that is not inside a quoted
/// region; a `<` with no such `>` degrades to plain text reaching the end;
/// anything else is plain text up to the next `<`.
pub open spec fn next_token_spec(s: Seq<u8>, pos: int) -> Option<(TokenModel, int)> {
    if pos >= s.len() {
        None
    } else if s[pos] == 60 {
        match first_unquoted_close(s, pos + 1, pos + 1) {
            Some(j) => Some((TokenModel::TagRegion { lo: pos, hi: j + 1 }, j + 1)),
            None => Some((TokenModel::PlainText { lo: pos, hi: s.len() as int }, s.len() as int)),
        }
    } else {
        let j = next_open_bracket(s, pos + 1);
        Some((TokenModel::PlainText { lo: pos, hi: j }, j))
    }
}

/// Tokenizes caption text into tag and plain-text events, scanning
/// character by character.
#[derive(Debug)]
pub struct TextIter<'a> {
    pub text: Spanned<&'a [u8]>,
    pub pos: usize,
}

impl<'a> Text<'a> {
    /// Tokenizes the caption text.
    pub fn into_iter(self) -> (r: TextIter<'a>)
        requires
            self.wf(),
        ensures
            r.text == self.text,
            r.pos == 0,
            r.wf(),
    {
        TextIter { text: self.text, pos: 0 }
    }
}

impl<'a> TextIter<'a> {
    pub open spec fn wf(self) -> bool {
        &&& self.text.wf()
        &&& self.pos <= self.text.inner@.len()
    }

    pub(crate) fn new(text: Spanned<&'a [u8]>) -> (r: TextIter<'a>)
        requires
            text.wf(),
        ensures
            r.text == text,
            r.pos == 0,
            r.wf(),
    {
        TextIter { text, pos: 0 }
    }

    /// Hands out the next token: a parsed tag for each bracketed region
    /// (with a dangling `<` degrading to literal text), plain text in
    /// between.
    #[verifier::rlimit(80)]
    pub fn next(&mut self) -> (r: Option<Result<TextEvent<'a>, ParseTagError>>)
        requires
            old(self).wf(),
        ensures
            final(self).wf(),
            final(self).text == old(self).text,
            ({
                let s = old(self).text.inner@;
                let base = old(self).text.abs_start();
                match next_token_spec(s, old(self).pos as int) {
                    None => r is None && final(self).pos == old(self).pos,
                    Some((m, p)) => final(self).pos as int == p && match m {
                        TokenModel::PlainText { lo, hi } => r matches Some(rr) && rr matches Ok(ev)
                            && ev matches TextEvent::Text(t) && t@ == s.subrange(lo, hi),
                        TokenModel::TagRegion { lo, hi } => {
                            let tag_s = s.subrange(lo, hi);
                            match tag_parse_spec(tag_s) {
                                Ok(tm) => r matches Some(rr) && rr matches Ok(ev) && ev matches
                                    TextEvent::Tag(tag) && tag_matches(tag, tm, tag_s, base + lo),
                                Err(_) => r matches Some(rr) && rr matches Err(e) && e
                                    == missing_brackets_at(base + lo, base + hi),
                            }
                        },
                    },
                }
            }),
    {
        let ghost s = self.text.inner@;
        let n = self.text.inner.len();
        if self.pos >= n {
            return None;
        }
        let start = self.pos;
        if self.text.inner[start] == 60 {
            let ghost scan_start = start + 1 as int;
            let mut j = start + 1;
            let mut sq = false;
            let mut dq = false;
            while j < n
                invariant
                    *self == *old(self),
                    start + 1 <= j <= n,
                    n == s.len(),
                    sq == ((count_byte(s, QUOTE_SINGLE, j as int) - count_byte(
                        s,
                        QUOTE_SINGLE,
                        start + 1,
                    )) % 2 != 0),
                    dq == ((count_byte(s, QUOTE_DOUBLE, j as int) - count_byte(
                        s,
                        QUOTE_DOUBLE,
                        start + 1,
                    )) % 2 != 0),
                    first_unquoted_close(s, start + 1, start + 1) == first_unquoted_close(
                        s,
                        start + 1,
                        j as int,
                    ),
                decreases n - j,
            {
                let c = self.text.inner[j];
                if c == 62 && !sq && !dq {
                    let tag = match self.text.get(start, j + 1) {
                        Some(t) => t,
                        None => {
                            return None;
                        },
                    };
                    self.pos = j + 1;
                    proof {
                        assert(tag.wf());
                    }
                    return match ParsedTag::try_from(tag) {
                        Ok(parsed) => Some(Ok(TextEvent::Tag(parsed))),
                        Err(e) => Some(Err(e)),
                    };
                } else if c == QUOTE_DOUBLE {
                    dq = !dq;
                } else if c == QUOTE_SINGLE {
                    sq = !sq;
                }
                j += 1;
            }
            let piece = &self.text.inner[start..n];
            self.pos = n;
            return Some(Ok(TextEvent::Text(piece)));
        }
        let mut j = start + 1;
        while j < n && self.text.inner[j] != 60
            invariant
                start + 1 <= j <= n,
                n == s.len(),
                next_open_bracket(s, start + 1) == next_open_bracket(s, j as int),
            decreases n - j,
        {
            j += 1;
        }
        let piece = &self.text.inner[start..j];
        self.pos = j;
        Some(Ok(TextEvent::Text(piece)))
    }
}

} // verus!
