use vstd::prelude::*;

use crate::pattern::Sep;
use crate::span::Span;
use crate::spanned::Spanned;
use crate::split::{first_match, is_piece, lemma_first_match_bounds, split_pieces, SplitInternal};

verus! {

/// A quote-aware splitting iterator over a position-tagged string: each
/// piece carries its absolute offset in the original document, derived from
/// the string's own span.
#[derive(Debug)]
pub struct SplitIter<'a> {
    pub iterator: SplitInternal<'a>,
    /// Where the string being split is located in the original document.
    pub start: usize,
}

impl<'a> SplitIter<'a> {
    /// The pieces, as local `(start, end)` offsets, that this iterator has
    /// yet to hand out.  A fresh iterator over a text with `k` reported
    /// separator occurrences holds exactly `k + 1` of them.
    pub open spec fn remaining_pieces(self) -> Seq<(int, int)> {
        if self.iterator.finished {
            Seq::<(int, int)>::empty()
        } else {
            split_pieces(
                self.iterator.sep,
                self.iterator.ignoring,
                self.iterator.text@,
                self.iterator.start as int,
            )
        }
    }

    pub open spec fn wf(self) -> bool {
        &&& self.iterator.wf()
        &&& self.iterator.ignoring
        &&& self.iterator.allow_trailing_empty
        &&& self.start + self.iterator.text@.len() <= usize::MAX
    }

    pub fn new(string: &'a [u8], sep: Sep) -> (r: SplitIter<'a>)
        requires
            sep.wf(),
            string@.len() <= usize::MAX,
        ensures
            r.wf(),
            r.iterator.text == string,
            r.iterator.sep == sep,
            r.iterator.start == 0,
            !r.iterator.finished,
            r.start == 0,
    {
        SplitIter { iterator: SplitInternal::new(string, sep, true, true), start: 0 }
    }

    pub fn new_spanned(string: Spanned<&'a [u8]>, sep: Sep) -> (r: SplitIter<'a>)
        requires
            sep.wf(),
            string.wf(),
        ensures
            r.wf(),
            r.iterator.text == string.inner,
            r.iterator.sep == sep,
            r.iterator.start == 0,
            !r.iterator.finished,
            r.start as int == string.abs_start(),
    {
        let (content, span) = string.into_parts();
        SplitIter { iterator: SplitInternal::new(content, sep, true, true), start: span.start }
    }

    /// Hands out the next piece, position-tagged with its absolute offset.
    pub fn next(&mut self) -> (r: Option<Spanned<&'a [u8]>>)
        requires
            old(self).wf(),
        ensures
            final(self).wf(),
            final(self).start == old(self).start,
            final(self).iterator.same_setup(old(self).iterator),
            r is Some <==> old(self).remaining_pieces().len() > 0,
            r is Some ==> old(self).remaining_pieces() == seq![
                old(self).remaining_pieces()[0],
            ] + final(self).remaining_pieces(),
            old(self).iterator.finished ==> r is None && *final(self) == *old(self),
            !old(self).iterator.finished ==> match first_match(
                old(self).iterator.sep,
                true,
                old(self).iterator.text@,
                old(self).iterator.start as int,
            ) {
                Some((p, l)) => {
                    &&& r matches Some(piece) && is_piece(
                        piece,
                        old(self).iterator.text@,
                        old(self).start as int,
                        old(self).iterator.start as int,
                        p,
                    )
                    &&& final(self).iterator.start == p + l
                    &&& !final(self).iterator.finished
                },
                None => {
                    &&& r matches Some(piece) && is_piece(
                        piece,
                        old(self).iterator.text@,
                        old(self).start as int,
                        old(self).iterator.start as int,
                        old(self).iterator.end as int,
                    )
                    &&& final(self).iterator.start == old(self).iterator.start
                    &&& final(self).iterator.finished
                },
            },
    {
        proof {
            if !self.iterator.finished && first_match(
                self.iterator.sep,
                true,
                self.iterator.text@,
                self.iterator.start as int,
            ) is Some {
                lemma_first_match_bounds(
                    self.iterator.sep,
                    true,
                    self.iterator.text@,
                    self.iterator.start as int,
                );
            }
        }
        match self.iterator.next() {
            None => None,
            Some(piece) => {
                let span = match piece.span {
                    Some(s) => Span { start: s.start + self.start, length: s.length },
                    None => Span { start: self.start, length: 0 },
                };
                Some(Spanned { inner: piece.inner, span: Some(span) })
            },
        }
    }

    /// Hands out everything not yet consumed as one final piece, without
    /// advancing the iterator.
    pub fn split_remaining(&mut self) -> (r: Option<Spanned<&'a [u8]>>)
        requires
            old(self).wf(),
        ensures
            *final(self) == *old(self),
            !old(self).iterator.finished ==> (r matches Some(piece) && is_piece(
                piece,
                old(self).iterator.text@,
                old(self).start as int,
                old(self).iterator.start as int,
                old(self).iterator.end as int,
            )),
            old(self).iterator.finished ==> (r matches Some(piece) && piece.inner@ == Seq::<
                u8,
            >::empty() && piece.span == Some(
                Span {
                    start: (old(self).start + old(self).iterator.start) as usize,
                    length: 0,
                },
            )),
    {
        let content = self.iterator.as_str();
        let abs = self.start + self.iterator.start;
        Some(Spanned { inner: content, span: Some(Span { start: abs, length: content.len() }) })
    }

    /// The whole text being split.
    pub fn as_str(&self) -> (r: &'a [u8])
        ensures
            r == self.iterator.text,
    {
        self.iterator.haystack()
    }
}

} // verus!
