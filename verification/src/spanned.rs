use vstd::prelude::*;

use crate::num::{parse_uint, parse_uint_bytes, ParseIntError};
use crate::pattern::Sep;
use crate::span::Span;
use crate::split::{find_match, first_match, is_piece, splitn_rec, SplitInternal, SplitTerminator};
use crate::split_iter::SplitIter;

verus! {

/// A value carrying an optional `Span` that identifies where in the original
/// text buffer the value came from.
#[derive(Debug, Clone, Copy, PartialEq, Eq, Hash)]
pub struct Spanned<T> {
    pub inner: T,
    pub span: Option<Span>,
}

/// Types that have a natural span of their own, used when a `Spanned` value
/// carries no explicit span.
pub trait Spannable {
    /// The natural span of the value, starting at offset zero.
    spec fn natural_span(&self) -> Span;

    /// Returns the natural span of the value.
    fn span_of(&self) -> (r: Span)
        ensures
            r == self.natural_span(),
    ;
}

impl<'a> Spannable for &'a [u8] {
    open spec fn natural_span(&self) -> Span {
        Span { start: 0, length: self@.len() as usize }
    }

    fn span_of(&self) -> (r: Span)
        ensures
            r == self.natural_span(),
    {
        Span { start: 0, length: self.len() }
    }
}

impl<T> Spanned<T> {
    pub fn new(inner: T) -> (r: Spanned<T>)
        ensures
            r == (Spanned { inner, span: None::<Span> }),
    {
        Spanned { inner, span: None }
    }

    /// Replaces the span, keeping the inner value.
    pub fn with_span(self, span: Span) -> (r: Spanned<T>)
        ensures
            r == (Spanned { inner: self.inner, span: Some(span) }),
    {
        Spanned { inner: self.inner, span: Some(span) }
    }

    /// Returns the explicit span, if any.
    pub fn span(&self) -> (r: Option<Span>)
        ensures
            r == self.span,
    {
        self.span
    }

    pub fn into_inner(self) -> (r: T)
        ensures
            r == self.inner,
    {
        self.inner
    }

    /// Maps the inner value through `f` while the span is carried along
    /// unchanged.
    pub fn map<U, F: FnOnce(T) -> U>(self, f: F) -> (r: Spanned<U>)
        requires
            f.requires((self.inner,)),
        ensures
            f.ensures((self.inner,), r.inner),
            r.span == self.span,
    {
        let span = self.span;
        Spanned { inner: f(self.inner), span }
    }

    /// Maps inner value and span together, for operations that also shift
    /// the position.
    pub fn map_with_span<U, F: FnOnce(T, Option<Span>) -> (U, Option<Span>)>(self, f: F) -> (r:
        Spanned<U>)
        requires
            f.requires((self.inner, self.span)),
        ensures
            f.ensures((self.inner, self.span), (r.inner, r.span)),
    {
        let (inner, span) = f(self.inner, self.span);
        Spanned { inner, span }
    }

    /// Maps only the span through `f`.
    pub fn map_span<F: FnOnce(Option<Span>) -> Option<Span>>(self, f: F) -> (r: Spanned<T>)
        requires
            f.requires((self.span,)),
        ensures
            f.ensures((self.span,), r.span),
            r.inner == self.inner,
    {
        let span = f(self.span);
        Spanned { inner: self.inner, span }
    }
}

impl<T: Spannable> Spanned<T> {
    /// The span of the value: the explicit one if present, otherwise the
    /// value's own natural span.
    pub open spec fn resolved_span(self) -> Span {
        match self.span {
            Some(s) => s,
            None => self.inner.natural_span(),
        }
    }

    /// Splits the value into its parts, deriving an absent span from the
    /// value itself.
    pub fn into_parts(self) -> (r: (T, Span))
        ensures
            r.0 == self.inner,
            r.1 == self.resolved_span(),
    {
        match self.span {
            Some(span) => (self.inner, span),
            None => {
                let span = self.inner.span_of();
                (self.inner, span)
            },
        }
    }

    /// Returns the resolved span as a half-open `(start, end)` pair.
    pub fn range(&self) -> (r: (usize, usize))
        requires
            self.resolved_span().wf(),
        ensures
            r.0 == self.resolved_span().start,
            r.1 == self.resolved_span().spec_end(),
    {
        let span = match self.span {
            Some(span) => span,
            None => self.inner.span_of(),
        };
        (span.start, span.start + span.length)
    }
}

impl<'a> Spanned<&'a [u8]> {
    /// A well-formed position-tagged string: the span's length, when
    /// present, equals the length of the carried content, and its end fits
    /// in a `usize`.
    pub open spec fn wf(self) -> bool {
        match self.span {
            Some(s) => s.length == self.inner@.len() && s.wf(),
            None => self.inner@.len() <= usize::MAX,
        }
    }

    /// The absolute offset of the first byte of the content.
    pub open spec fn abs_start(self) -> int {
        match self.span {
            Some(s) => s.start as int,
            None => 0,
        }
    }

    /// The absolute offset just past the last byte of the content.
    pub open spec fn abs_end(self) -> int {
        self.abs_start() + self.inner@.len()
    }

    /// The content is exactly the slice of `doc` that the span points at:
    /// slicing the original document at the span reproduces the content.
    pub open spec fn anchored_in(self, doc: Seq<u8>) -> bool {
        &&& 0 <= self.abs_start()
        &&& self.abs_end() <= doc.len()
        &&& self.inner@ == doc.subrange(self.abs_start(), self.abs_end())
    }

    /// The resolved span of the string: the explicit one, or `0..len`.
    pub open spec fn str_span_spec(self) -> Span {
        match self.span {
            Some(s) => s,
            None => Span { start: 0, length: self.inner@.len() as usize },
        }
    }

    /// Returns the explicit span, or the content's own `0..len` span.
    pub fn str_span(&self) -> (r: Span)
        ensures
            r == self.str_span_spec(),
    {
        match self.span {
            Some(s) => s,
            None => Span { start: 0, length: self.inner.len() },
        }
    }

    /// Takes the sub-string at the local range `start..end`, composing the
    /// result's span with this string's own position in the document.
    /// Returns `None` when the range reaches past the end of the content.
    pub fn get(&self, start: usize, end: usize) -> (r: Option<Spanned<&'a [u8]>>)
        requires
            self.wf(),
            start <= end,
        ensures
            end <= self.inner@.len() ==> (r matches Some(sub) && sub.inner@
                == self.inner@.subrange(start as int, end as int) && sub.span == Some(
                Span {
                    start: (self.abs_start() + start) as usize,
                    length: (end - start) as usize,
                },
            ) && sub.wf()),
            end > self.inner@.len() ==> r is None,
            forall|doc: Seq<u8>|
                self.anchored_in(doc) && end <= self.inner@.len() ==> r.unwrap().anchored_in(doc),
    {
        if end > self.inner.len() {
            return None;
        }
        let content = &self.inner[start..end];
        let abs = match self.span {
            Some(s) => s.start + start,
            None => start,
        };
        let r = Spanned { inner: content, span: Some(Span { start: abs, length: end - start }) };
        proof {
            assert forall|doc: Seq<u8>|
                self.anchored_in(doc) && end <= self.inner@.len() implies r.anchored_in(doc) by {
                assert(r.inner@ =~= doc.subrange(r.abs_start(), r.abs_end()));
            }
        }
        Some(r)
    }
}

} // verus!

verus! {

/// An ASCII whitespace byte, as trimming understands it.
pub open spec fn is_space(b: u8) -> bool {
    b == 32 || b == 9 || b == 10 || b == 11 || b == 12 || b == 13
}

/// The first position at or after `i` holding a non-whitespace byte, or the
/// length of `s` if all of the rest is whitespace.
pub open spec fn trim_lo(s: Seq<u8>, i: int) -> int
    decreases s.len() - i,
    when 0 <= i <= s.len()
{
    if i >= s.len() {
        i
    } else if !is_space(s[i]) {
        i
    } else {
        trim_lo(s, i + 1)
    }
}

/// The position just past the last non-whitespace byte before `j`, or `0`
/// if everything before `j` is whitespace.
pub open spec fn trim_hi(s: Seq<u8>, j: int) -> int
    decreases j,
    when 0 <= j <= s.len()
{
    if j <= 0 {
        0
    } else if !is_space(s[j - 1]) {
        j
    } else {
        trim_hi(s, j - 1)
    }
}

/// The range that trimming whitespace from both ends of `s` keeps; an
/// all-whitespace string collapses to the empty range at its start.
pub open spec fn trim_range(s: Seq<u8>) -> (int, int) {
    if trim_lo(s, 0) == s.len() {
        (0int, 0int)
    } else {
        (trim_lo(s, 0), trim_hi(s, s.len() as int))
    }
}

pub proof fn lemma_trim_lo_props(s: Seq<u8>, i: int)
    requires
        0 <= i <= s.len(),
    ensures
        i <= trim_lo(s, i) <= s.len(),
        trim_lo(s, i) < s.len() ==> !is_space(s[trim_lo(s, i)]),
    decreases s.len() - i,
{
    if i < s.len() && is_space(s[i]) {
        lemma_trim_lo_props(s, i + 1);
    }
}

pub proof fn lemma_trim_hi_props(s: Seq<u8>, j: int, lo: int)
    requires
        0 <= lo < j <= s.len(),
        !is_space(s[lo]),
    ensures
        lo < trim_hi(s, j) <= j,
    decreases j,
{
    if is_space(s[j - 1]) {
        lemma_trim_hi_props(s, j - 1, lo);
    }
}

/// The trimmed range lies within the text, its start no later than its end.
pub proof fn lemma_trim_range_bounds(s: Seq<u8>)
    ensures
        0 <= trim_range(s).0 <= trim_range(s).1 <= s.len(),
{
    lemma_trim_lo_props(s, 0);
    if trim_lo(s, 0) < s.len() {
        lemma_trim_hi_props(s, s.len() as int, trim_lo(s, 0));
    }
}

/// The position of the last occurrence of `b` before `j`, if any.
pub open spec fn rfind(s: Seq<u8>, b: u8, j: int) -> Option<int>
    decreases j,
    when 0 <= j <= s.len()
{
    if j <= 0 {
        None
    } else if s[j - 1] == b {
        Some(j - 1)
    } else {
        rfind(s, b, j - 1)
    }
}

/// The local range that stripping an enclosing `a` ... `b` pair from `s`
/// keeps: `a` at the start and `b` at the very end, or else `a` at the
/// start and the content up to the last `b`; `None` when no such pair
/// encloses the content.
pub open spec fn remove_start_end_range(s: Seq<u8>, a: u8, b: u8) -> Option<(int, int)> {
    if s.len() >= 2 && s[0] == a && s[s.len() - 1] == b {
        Some((1int, s.len() - 1))
    } else if s.len() >= 1 && s[0] == a {
        match rfind(s, b, s.len() as int) {
            Some(k) => if k >= 1 {
                Some((1int, k))
            } else {
                None
            },
            None => None,
        }
    } else {
        None
    }
}

/// Every emitted position-tagged substring points back faithfully: a piece
/// cut from a string that is anchored in the original document is itself
/// anchored in the document, so slicing the document at the emitted span
/// reproduces the emitted content exactly.
pub proof fn lemma_emitted_piece_anchored(
    doc: Seq<u8>,
    parent: Spanned<&[u8]>,
    piece: Spanned<&[u8]>,
    lo: int,
    hi: int,
)
    requires
        parent.wf(),
        parent.anchored_in(doc),
        crate::split::is_piece(piece, parent.inner@, parent.abs_start(), lo, hi),
        0 <= lo <= hi <= parent.inner@.len(),
    ensures
        piece.anchored_in(doc),
{
    assert(piece.inner@ =~= doc.subrange(parent.abs_start() + lo, parent.abs_start() + hi));
}

pub proof fn lemma_rfind_bounds(s: Seq<u8>, b: u8, j: int)
    requires
        0 <= j <= s.len(),
        rfind(s, b, j) is Some,
    ensures
        0 <= rfind(s, b, j)->Some_0 < j,
        s[rfind(s, b, j)->Some_0] == b,
    decreases j,
{
    if j > 0 && s[j - 1] != b {
        lemma_rfind_bounds(s, b, j - 1);
    }
}

/// The stripped range lies within the text, its start no later than its
/// end.
pub proof fn lemma_remove_start_end_bounds(s: Seq<u8>, a: u8, b: u8)
    requires
        remove_start_end_range(s, a, b) is Some,
    ensures
        ({
            let r = remove_start_end_range(s, a, b)->Some_0;
            0 <= r.0 <= r.1 <= s.len()
        }),
{
    if !(s.len() >= 2 && s[0] == a && s[s.len() - 1] == b) {
        lemma_rfind_bounds(s, b, s.len() as int);
    }
}

/// The first position at or after `from` whose byte is not `b`, or the
/// length of `s`.
pub open spec fn leading_matches_from(s: Seq<u8>, b: u8, from: int) -> int
    decreases s.len() - from,
    when 0 <= from <= s.len()
{
    if from >= s.len() {
        from
    } else if s[from] != b {
        from
    } else {
        leading_matches_from(s, b, from + 1)
    }
}

/// The number of leading occurrences of `b` in `s`.
pub open spec fn leading_matches(s: Seq<u8>, b: u8) -> int {
    leading_matches_from(s, b, 0)
}

/// The position just past the last byte of `s[..j)` that is not `b`, or
/// `0` when only `b` precedes `j`.
pub open spec fn trailing_start_from(s: Seq<u8>, b: u8, j: int) -> int
    decreases j,
    when 0 <= j <= s.len()
{
    if j <= 0 {
        0
    } else if s[j - 1] != b {
        j
    } else {
        trailing_start_from(s, b, j - 1)
    }
}

/// The position where the trailing run of `b` in `s` starts.
pub open spec fn trailing_start(s: Seq<u8>, b: u8) -> int {
    trailing_start_from(s, b, s.len() as int)
}

/// Reads whether `b` is an ASCII whitespace byte.
pub fn read_is_space(b: u8) -> (r: bool)
    ensures
        r == is_space(b),
{
    b == 32 || b == 9 || b == 10 || b == 11 || b == 12 || b == 13
}

impl<'a> Spanned<&'a [u8]> {
    /// A quote-aware splitting iterator over this string.
    pub fn split(&self, sep: Sep) -> (r: SplitIter<'a>)
        requires
            self.wf(),
            sep.wf(),
        ensures
            r.wf(),
            r.iterator.text == self.inner,
            r.iterator.sep == sep,
            r.iterator.start == 0,
            !r.iterator.finished,
            r.start as int == self.abs_start(),
    {
        SplitIter::new_spanned(*self, sep)
    }

    /// A splitting iterator that drops the final empty piece when the
    /// content ends exactly on a separator; pieces carry local spans.
    pub fn split_terminator(&self, sep: Sep) -> (r: SplitTerminator<'a>)
        requires
            self.wf(),
            sep.wf(),
        ensures
            r.0.wf(),
            r.0.text == self.inner,
            r.0.sep == sep,
            r.0.start == 0,
            !r.0.finished,
            !r.0.ignoring,
            !r.0.allow_trailing_empty,
    {
        SplitTerminator(SplitInternal::new(self.inner, sep, false, false))
    }

    /// Splits once on the first reported occurrence of `sep`: the content
    /// before it, and, if the separator occurs at all, the rest after it.
    pub fn split_once(&self, sep: &Sep) -> (r: (Spanned<&'a [u8]>, Option<Spanned<&'a [u8]>>))
        requires
            self.wf(),
            sep.wf(),
        ensures
            match first_match(*sep, true, self.inner@, 0) {
                Some((p, l)) => is_piece(r.0, self.inner@, self.abs_start(), 0, p) && (
                r.1 matches Some(rest) && is_piece(
                    rest,
                    self.inner@,
                    self.abs_start(),
                    p + l,
                    self.inner@.len() as int,
                )),
                None => is_piece(r.0, self.inner@, self.abs_start(), 0, self.inner@.len() as int)
                    && r.1 is None,
            },
    {
        let base = match self.span {
            Some(s) => s.start,
            None => 0,
        };
        match find_match(self.inner, sep, true, 0) {
            Some((p, l)) => {
                let first = Spanned {
                    inner: &self.inner[0..p],
                    span: Some(Span { start: base, length: p }),
                };
                let rest = Spanned {
                    inner: &self.inner[p + l..self.inner.len()],
                    span: Some(Span { start: base + p + l, length: self.inner.len() - (p + l) }),
                };
                (first, Some(rest))
            },
            None => {
                let whole = Spanned {
                    inner: &self.inner[0..self.inner.len()],
                    span: Some(Span { start: base, length: self.inner.len() }),
                };
                proof {
                    assert(whole.inner@ =~= self.inner@.subrange(0, self.inner@.len() as int));
                }
                (whole, None)
            },
        }
    }

    /// Splits on `sep` into at most `n` pieces: after `n - 1` splits the
    /// remainder is handed out unsplit as the final piece.
    pub fn split_at_most(&self, n: usize, sep: &Sep) -> (r: Vec<Spanned<&'a [u8]>>)
        requires
            self.wf(),
            sep.wf(),
        ensures
            ({
                let ps = splitn_rec(*sep, true, self.inner@, 0, n as nat);
                r@.len() == ps.len() && forall|i: int|
                    0 <= i < ps.len() ==> is_piece(
                        r@[i],
                        self.inner@,
                        self.abs_start(),
                        ps[i].0,
                        ps[i].1,
                    )
            }),
    {
        let ghost s = self.inner@;
        let ghost ps = splitn_rec(*sep, true, s, 0, n as nat);
        let base = match self.span {
            Some(sp) => sp.start,
            None => 0,
        };
        let mut result: Vec<Spanned<&'a [u8]>> = Vec::new();
        let ghost mut done: Seq<(int, int)> = Seq::empty();
        let mut cur: usize = 0;
        let mut remaining = n;
        while remaining > 0
        invariant
            0 <= cur <= s.len(),
            result@.len() == done.len(),
            ps == done + splitn_rec(*sep, true, s, cur as int, remaining as nat),
            forall|i: int|
                0 <= i < done.len() ==> is_piece(result@[i], s, self.abs_start(), done[i].0, done[i].1),
        decreases remaining,
        {
            if remaining == 1 {
                let piece = Spanned {
                    inner: &self.inner[cur..self.inner.len()],
                    span: Some(Span { start: base + cur, length: self.inner.len() - cur }),
                };
                result.push(piece);
                proof {
                    done = done + seq![(cur as int, s.len() as int)];
                    assert(ps =~= done);
                }
                remaining = 0;
            } else {
                match find_match(self.inner, sep, true, cur) {
                    Some((p, l)) => {
                        let piece = Spanned {
                            inner: &self.inner[cur..p],
                            span: Some(Span { start: base + cur, length: p - cur }),
                        };
                        result.push(piece);
                        proof {
                            done = done + seq![(cur as int, p as int)];
                            assert(ps =~= done + splitn_rec(
                                *sep,
                                true,
                                s,
                                p + l,
                                (remaining - 1) as nat,
                            ));
                        }
                        cur = p + l;
                        remaining = remaining - 1;
                    },
                    None => {
                        let piece = Spanned {
                            inner: &self.inner[cur..self.inner.len()],
                            span: Some(Span { start: base + cur, length: self.inner.len() - cur }),
                        };
                        result.push(piece);
                        proof {
                            done = done + seq![(cur as int, s.len() as int)];
                            assert(ps =~= done);
                        }
                        remaining = 0;
                    },
                }
            }
        }
        result
    }

    /// Trims ASCII whitespace from both ends, narrowing the span by the
    /// same amount; an all-whitespace string collapses to the empty string
    /// at its own start.
    pub fn trim(&self) -> (r: Spanned<&'a [u8]>)
        requires
            self.wf(),
        ensures
            is_piece(r, self.inner@, self.abs_start(), trim_range(self.inner@).0, trim_range(self.inner@).1),
            r.wf(),
    {
        let ghost s = self.inner@;
        let base = match self.span {
            Some(sp) => sp.start,
            None => 0,
        };
        let n = self.inner.len();
        let mut lo: usize = 0;
        while lo < n && read_is_space(self.inner[lo])
            invariant
                0 <= lo <= n,
                trim_lo(s, 0) == trim_lo(s, lo as int),
            decreases n - lo,
        {
            lo += 1;
        }
        if lo == n {
            let piece = Spanned {
                inner: &self.inner[0..0],
                span: Some(Span { start: base, length: 0 }),
            };
            proof {
                assert(piece.inner@ =~= s.subrange(0, 0));
            }
            return piece;
        }
        let mut hi: usize = n;
        while read_is_space(self.inner[hi - 1])
            invariant
                lo < hi <= n,
                lo == trim_lo(s, 0),
                !is_space(s[lo as int]),
                trim_hi(s, n as int) == trim_hi(s, hi as int),
            decreases hi,
        {
            hi -= 1;
        }
        let piece = Spanned {
            inner: &self.inner[lo..hi],
            span: Some(Span { start: base + lo, length: hi - lo }),
        };
        piece
    }

    /// Strips every leading occurrence of byte `b`, narrowing the span by
    /// the same amount.
    pub fn trim_start_matches(&self, b: u8) -> (r: Spanned<&'a [u8]>)
        requires
            self.wf(),
        ensures
            is_piece(
                r,
                self.inner@,
                self.abs_start(),
                leading_matches(self.inner@, b),
                self.inner@.len() as int,
            ),
            r.wf(),
    {
        let ghost s = self.inner@;
        let n = self.inner.len();
        let base = match self.span {
            Some(sp) => sp.start,
            None => 0,
        };
        let mut k: usize = 0;
        while k < n && self.inner[k] == b
            invariant
                0 <= k <= n,
                leading_matches(s, b) == leading_matches_from(s, b, k as int),
            decreases n - k,
        {
            k += 1;
        }
        Spanned { inner: &self.inner[k..n], span: Some(Span { start: base + k, length: n - k }) }
    }

    /// Strips every trailing occurrence of byte `b`, narrowing the span by
    /// the same amount.
    pub fn trim_end_matches(&self, b: u8) -> (r: Spanned<&'a [u8]>)
        requires
            self.wf(),
        ensures
            is_piece(r, self.inner@, self.abs_start(), 0, trailing_start(self.inner@, b)),
            r.wf(),
    {
        let ghost s = self.inner@;
        let n = self.inner.len();
        let base = match self.span {
            Some(sp) => sp.start,
            None => 0,
        };
        let mut k: usize = n;
        while k > 0 && self.inner[k - 1] == b
            invariant
                0 <= k <= n,
                trailing_start(s, b) == trailing_start_from(s, b, k as int),
            decreases k,
        {
            k -= 1;
        }
        Spanned { inner: &self.inner[0..k], span: Some(Span { start: base, length: k }) }
    }

    /// Strips the byte `a` from the start and the byte `b` from the end,
    /// keeping the content in between; when `b` is not at the very end, the
    /// content up to the last `b` is kept instead.  Returns `None` when the
    /// content is not enclosed that way.
    pub fn remove_start_end(&self, a: u8, b: u8) -> (r: Option<Spanned<&'a [u8]>>)
        requires
            self.wf(),
        ensures
            match remove_start_end_range(self.inner@, a, b) {
                Some((lo, hi)) => r matches Some(piece) && is_piece(
                    piece,
                    self.inner@,
                    self.abs_start(),
                    lo,
                    hi,
                ) && piece.wf(),
                None => r is None,
            },
    {
        let n = self.inner.len();
        if n >= 2 && self.inner[0] == a && self.inner[n - 1] == b {
            return self.get(1, n - 1);
        }
        if n >= 1 && self.inner[0] == a {
            let ghost s = self.inner@;
            let mut j: usize = n;
            while j > 0
                invariant
                    0 <= j <= n,
                    rfind(s, b, n as int) == rfind(s, b, j as int),
                decreases j,
            {
                if self.inner[j - 1] == b {
                    if j - 1 >= 1 {
                        return self.get(1, j - 1);
                    }
                    return None;
                }
                j -= 1;
            }
            return None;
        }
        None
    }

    /// Takes several local sub-ranges at once; each entry is `None` where
    /// the range reaches past the end of the content.
    pub fn sub_ranges(&self, ranges: &[(usize, usize)]) -> (r: Vec<Option<Spanned<&'a [u8]>>>)
        requires
            self.wf(),
            forall|i: int| 0 <= i < ranges@.len() ==> #[trigger] ranges@[i].0 <= ranges@[i].1,
        ensures
            r@.len() == ranges@.len(),
            forall|i: int|
                0 <= i < ranges@.len() ==> if ranges@[i].1 <= self.inner@.len() {
                    #[trigger] r@[i] matches Some(piece) && is_piece(
                        piece,
                        self.inner@,
                        self.abs_start(),
                        ranges@[i].0 as int,
                        ranges@[i].1 as int,
                    )
                } else {
                    r@[i] is None
                },
    {
        let mut result: Vec<Option<Spanned<&'a [u8]>>> = Vec::new();
        let mut k: usize = 0;
        while k < ranges.len()
            invariant
                0 <= k <= ranges@.len(),
                result@.len() == k,
                forall|i: int|
                    0 <= i < k ==> if ranges@[i].1 <= self.inner@.len() {
                        #[trigger] result@[i] matches Some(piece) && is_piece(
                            piece,
                            self.inner@,
                            self.abs_start(),
                            ranges@[i].0 as int,
                            ranges@[i].1 as int,
                        )
                    } else {
                        result@[i] is None
                    },
            decreases ranges@.len() - k,
        {
            let (lo, hi) = (ranges[k].0, ranges[k].1);
            result.push(self.get(lo, hi));
            k += 1;
        }
        result
    }

    /// Parses the content as an unsigned byte of `radix`; a failure carries
    /// this string's span.
    pub fn parse_radix_u8(&self, radix: u64) -> (r: Result<u8, Spanned<ParseIntError>>)
        requires
            radix == 10 || radix == 16,
        ensures
            match r {
                Ok(x) => parse_uint(self.inner@, radix as int, 255) == Ok::<int, ParseIntError>(
                    x as int,
                ),
                Err(e) => parse_uint(self.inner@, radix as int, 255) matches Err(k) && e == (
                Spanned { inner: k, span: self.span }),
            },
    {
        match parse_uint_bytes(self.inner, radix, 255) {
            Ok(v) => Ok(v as u8),
            Err(e) => Err(Spanned { inner: e, span: self.span }),
        }
    }
}

} // verus!
