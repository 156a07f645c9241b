use vstd::prelude::*;

use crate::pattern::Sep;
use crate::span::Span;
use crate::spanned::Spanned;
use crate::split::{find_match, first_match, is_piece, lemma_first_match_bounds};

verus! {

/// What the line iterator at position `pos` of `s` yields next: the line's
/// local range and the position just past its terminator, or `None` at the
/// end of the text.  A text ending exactly on a terminator yields no final
/// empty line.
pub open spec fn lines_next_spec(s: Seq<u8>, pos: int) -> Option<(int, int, int)> {
    if pos >= s.len() {
        None
    } else {
        match first_match(Sep::Line, false, s, pos) {
            Some((t, l)) => Some((pos, t, t + l)),
            None => Some((pos, s.len() as int, s.len() as int)),
        }
    }
}

/// A line always begins where the cursor stood, ends within the text, and
/// the cursor advances past it.
pub proof fn lemma_lines_next_bounds(s: Seq<u8>, pos: int)
    requires
        0 <= pos <= s.len(),
    ensures
        match lines_next_spec(s, pos) {
            Some((lo, hi, p)) => lo == pos && lo <= hi <= s.len() && pos < p <= s.len() && hi <= p,
            None => pos == s.len(),
        },
{
    if pos < s.len() {
        match first_match(Sep::Line, false, s, pos) {
            Some((t, l)) => {
                lemma_first_match_bounds(Sep::Line, false, s, pos);
                assert(l == 1 || l == 2);
            },
            None => {},
        }
    }
}

/// Splits text into lines on `\n` or `\r\n` (`\r\n` preferred where both
/// could match), terminators excluded from the content, tracking the
/// absolute offset just past the most recently returned line.
#[derive(Debug)]
pub struct Lines<'a> {
    pub text: &'a [u8],
    /// Where the text is located in the original document.
    pub start: usize,
    /// The local position where the next line starts.
    pub pos: usize,
}

impl<'a> Lines<'a> {
    pub open spec fn wf(self) -> bool {
        &&& self.pos <= self.text@.len()
        &&& self.start + self.text@.len() <= usize::MAX
    }

    pub fn new(text: &'a [u8]) -> (r: Lines<'a>)
        requires
            text@.len() <= usize::MAX,
        ensures
            r.wf(),
            r.text == text,
            r.start == 0,
            r.pos == 0,
    {
        Lines { text, start: 0, pos: 0 }
    }

    pub fn new_spanned(string: Spanned<&'a [u8]>) -> (r: Lines<'a>)
        requires
            string.wf(),
        ensures
            r.wf(),
            r.text == string.inner,
            r.start as int == string.abs_start(),
            r.pos == 0,
    {
        let base = match string.span {
            Some(s) => s.start,
            None => 0,
        };
        Lines { text: string.inner, start: base, pos: 0 }
    }

    /// The absolute offset immediately after the most recently returned
    /// line's terminator; the content of everything returned so far ends
    /// strictly before it.
    pub fn index(&self) -> (r: usize)
        requires
            self.wf(),
        ensures
            r == self.start + self.pos,
    {
        self.start + self.pos
    }

    /// Hands out the next line, position-tagged with its absolute offset.
    pub fn next(&mut self) -> (r: Option<Spanned<&'a [u8]>>)
        requires
            old(self).wf(),
        ensures
            final(self).wf(),
            final(self).text == old(self).text,
            final(self).start == old(self).start,
            match lines_next_spec(old(self).text@, old(self).pos as int) {
                None => r is None && final(self).pos == old(self).pos,
                Some((lo, hi, p)) => (r matches Some(line) && is_piece(
                    line,
                    old(self).text@,
                    old(self).start as int,
                    lo,
                    hi,
                )) && final(self).pos == p,
            },
    {
        if self.pos >= self.text.len() {
            return None;
        }
        match find_match(self.text, &Sep::Line, false, self.pos) {
            Some((t, l)) => {
                let line = Spanned {
                    inner: &self.text[self.pos..t],
                    span: Some(Span { start: self.start + self.pos, length: t - self.pos }),
                };
                self.pos = t + l;
                Some(line)
            },
            None => {
                let line = Spanned {
                    inner: &self.text[self.pos..self.text.len()],
                    span: Some(
                        Span { start: self.start + self.pos, length: self.text.len() - self.pos },
                    ),
                };
                self.pos = self.text.len();
                Some(line)
            },
        }
    }

    /// Takes the sub-string of the whole text at the absolute range
    /// `start..end`, position-tagged accordingly.
    pub fn get(&self, start: usize, end: usize) -> (r: Option<Spanned<&'a [u8]>>)
        requires
            self.wf(),
            self.start <= start <= end,
        ensures
            end - self.start <= self.text@.len() ==> (r matches Some(sub) && is_piece(
                sub,
                self.text@,
                self.start as int,
                start - self.start,
                end - self.start,
            ) && sub.wf()),
            end - self.start > self.text@.len() ==> r is None,
    {
        let lo = start - self.start;
        let hi = end - self.start;
        if hi > self.text.len() {
            return None;
        }
        Some(
            Spanned {
                inner: &self.text[lo..hi],
                span: Some(Span { start, length: end - start }),
            },
        )
    }
}

} // verus!
