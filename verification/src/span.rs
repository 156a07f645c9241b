use vstd::prelude::*;

verus! {

/// A half-open byte range within some original text buffer, stored as a
/// start offset plus a length.
#[derive(Debug, Clone, Copy, PartialEq, Eq, Hash, Structural)]
pub struct Span {
    pub start: usize,
    pub length: usize,
}

impl Span {
    /// The end offset `start + length` fits in a `usize`.
    pub open spec fn wf(self) -> bool {
        self.start + self.length <= usize::MAX
    }

    /// The (exclusive) end offset of the range.
    pub open spec fn spec_end(self) -> int {
        self.start + self.length
    }

    pub fn new(start: usize, length: usize) -> (r: Span)
        ensures
            r == (Span { start, length }),
    {
        Span { start, length }
    }

    /// Builds a `Span` from a half-open range.  Handing in a range with
    /// `start > end` is a programming error, excluded by precondition.
    pub fn from_range(start: usize, end: usize) -> (r: Span)
        requires
            start <= end,
        ensures
            r.start == start,
            r.length == end - start,
            r.wf(),
            r.spec_end() == end,
    {
        Span { start, length: end - start }
    }

    /// Builds a `Span` from an inclusive range `start..=last`; the empty
    /// range is written `start..=start - 1`.
    pub fn from_range_inclusive(start: usize, last: usize) -> (r: Span)
        requires
            start <= last + 1,
            last < usize::MAX,
        ensures
            r.start == start,
            r.length == last + 1 - start,
            r.wf(),
            r.spec_end() == last + 1,
    {
        Span { start, length: last + 1 - start }
    }

    /// Returns the `start` of the `Span`.
    pub fn start(self) -> (r: usize)
        ensures
            r == self.start,
    {
        self.start
    }

    /// Returns the `length` of the `Span`.
    pub fn length(self) -> (r: usize)
        ensures
            r == self.length,
    {
        self.length
    }

    /// Returns the `end` of the `Span`.
    pub fn end(self) -> (r: usize)
        requires
            self.wf(),
        ensures
            r == self.spec_end(),
    {
        self.start + self.length
    }

    /// What `sub_span` returns: a child range, relative to this span's
    /// content, mapped onto absolute offsets; `None` if the child starts
    /// past this span's length or is longer than this span.
    pub open spec fn spec_sub_span(self, child: Span) -> Option<Span> {
        if child.start > self.length || child.length > self.length {
            None
        } else {
            Some(Span { start: (self.start + child.start) as usize, length: child.length })
        }
    }

    /// Maps a range local to this span's content back onto the original
    /// document, failing if the child range does not fit.
    pub fn sub_span(self, child: Span) -> (r: Option<Span>)
        requires
            self.wf(),
        ensures
            r == self.spec_sub_span(child),
            r matches Some(s) ==> s.start == self.start + child.start && s.length == child.length
                && (child.start + child.length <= self.length ==> s.wf()),
    {
        if child.start > self.length || child.length > self.length {
            None
        } else {
            Some(Span { start: self.start + child.start, length: child.length })
        }
    }

    /// Translates the span right by a fixed offset.
    pub fn translate(self, offset: usize) -> (r: Span)
        requires
            self.start + self.length + offset <= usize::MAX,
        ensures
            r.start == self.start + offset,
            r.length == self.length,
            r.wf(),
    {
        Span { start: self.start + offset, length: self.length }
    }
}

} // verus!
