use vstd::prelude::*;

use crate::pattern::Sep;
use crate::span::Span;
use crate::spanned::Spanned;
use crate::split::{first_match, is_piece, SplitNInternal, SplitInternal};

verus! {

/// A bounded, quote-aware splitting iterator: it performs at most `n - 1`
/// splits and hands out the remainder unsplit as the final piece, every
/// piece position-tagged with its absolute offset.
#[derive(Debug)]
pub struct SplitIterN<'a> {
    pub iterator: SplitNInternal<'a>,
    pub span: Option<Span>,
}

impl<'a> SplitIterN<'a> {
    /// The absolute offset of the string being split.
    pub open spec fn base(self) -> int {
        match self.span {
            Some(s) => s.start as int,
            None => 0,
        }
    }

    pub open spec fn wf(self) -> bool {
        &&& self.iterator.iter.wf()
        &&& self.iterator.iter.ignoring
        &&& self.iterator.iter.allow_trailing_empty
        &&& self.base() + self.iterator.iter.text@.len() <= usize::MAX
    }

    pub fn new_spanned(n: usize, string: Spanned<&'a [u8]>, sep: Sep) -> (r: SplitIterN<'a>)
        requires
            sep.wf(),
            string.wf(),
        ensures
            r.wf(),
            r.iterator.iter.text == string.inner,
            r.iterator.iter.sep == sep,
            r.iterator.iter.start == 0,
            !r.iterator.iter.finished,
            r.iterator.count == n,
            r.span == string.span,
            r.base() == string.abs_start(),
    {
        SplitIterN {
            iterator: SplitNInternal {
                iter: SplitInternal::new(string.inner, sep, true, true),
                count: n,
            },
            span: string.span,
        }
    }

    /// Hands out the next piece, position-tagged with its absolute offset.
    pub fn next(&mut self) -> (r: Option<Spanned<&'a [u8]>>)
        requires
            old(self).wf(),
        ensures
            final(self).wf(),
            final(self).span == old(self).span,
            final(self).iterator.iter.same_setup(old(self).iterator.iter),
            old(self).iterator.count == 0 ==> r is None && *final(self) == *old(self),
            old(self).iterator.count >= 1 && old(self).iterator.iter.finished ==> r is None,
            old(self).iterator.count == 1 && !old(self).iterator.iter.finished ==> final(self).iterator.count == 0 && (r matches Some(piece) && is_piece(
                piece,
                old(self).iterator.iter.text@,
                old(self).base(),
                old(self).iterator.iter.start as int,
                old(self).iterator.iter.end as int,
            )) && final(self).iterator.iter.finished,
            old(self).iterator.count > 1 && !old(self).iterator.iter.finished ==> final(self).iterator.count == old(self).iterator.count - 1 && match first_match(
                old(self).iterator.iter.sep,
                true,
                old(self).iterator.iter.text@,
                old(self).iterator.iter.start as int,
            ) {
                Some((p, l)) => {
                    &&& r matches Some(piece) && is_piece(
                        piece,
                        old(self).iterator.iter.text@,
                        old(self).base(),
                        old(self).iterator.iter.start as int,
                        p,
                    )
                    &&& final(self).iterator.iter.start == p + l
                    &&& !final(self).iterator.iter.finished
                },
                None => {
                    &&& r matches Some(piece) && is_piece(
                        piece,
                        old(self).iterator.iter.text@,
                        old(self).base(),
                        old(self).iterator.iter.start as int,
                        old(self).iterator.iter.end as int,
                    )
                    &&& final(self).iterator.iter.finished
                },
            },
    {
        let base = match self.span {
            Some(s) => s.start,
            None => 0,
        };
        match self.iterator.next() {
            None => None,
            Some(piece) => {
                let span = match piece.span {
                    Some(s) => Span { start: s.start + base, length: s.length },
                    None => Span { start: base, length: 0 },
                };
                Some(Spanned { inner: piece.inner, span: Some(span) })
            },
        }
    }
}

} // verus!
