use vstd::prelude::*;

use crate::pattern::{count_byte, outside_quotes, Sep, QUOTE_DOUBLE, QUOTE_SINGLE};
use crate::span::Span;
use crate::spanned::Spanned;

verus! {

/// The match that the (optionally quote-aware) searcher reports at position
/// `i` of `s`: the separator must match there, and, when `ignoring` quoted
/// regions, the position must lie outside every quoted region of `s`.
pub open spec fn match_at(sep: Sep, ignoring: bool, s: Seq<u8>, i: int) -> Option<int> {
    match sep.match_len_at(s, i) {
        Some(l) => if !ignoring || outside_quotes(s, i) {
            Some(l)
        } else {
            None
        },
        None => None,
    }
}

/// The first reported match at or after `from`: positions are scanned left
/// to right; a separator occurrence inside a quoted region is skipped whole,
/// as ordinary content.
pub open spec fn first_match(sep: Sep, ignoring: bool, s: Seq<u8>, from: int) -> Option<(int, int)>
    decreases s.len() - from,
{
    if !(0 <= from < s.len()) {
        None
    } else {
        match sep.match_len_at(s, from) {
            Some(l) => {
                let skip = if l >= 1 {
                    l
                } else {
                    1
                };
                if !ignoring || outside_quotes(s, from) {
                    Some((from, l))
                } else if from + skip <= s.len() {
                    first_match(sep, ignoring, s, from + skip)
                } else {
                    None
                }
            },
            None => first_match(sep, ignoring, s, from + 1),
        }
    }
}

/// A reported match lies within the text, at or after the position the
/// search started from, and is accepted by `match_at`.
pub proof fn lemma_first_match_bounds(sep: Sep, ignoring: bool, s: Seq<u8>, from: int)
    requires
        first_match(sep, ignoring, s, from) is Some,
    ensures
        ({
            let (p, l) = first_match(sep, ignoring, s, from)->Some_0;
            &&& from <= p < s.len()
            &&& 0 <= l
            &&& p + l <= s.len()
            &&& match_at(sep, ignoring, s, p) == Some(l)
        }),
    decreases s.len() - from,
{
    if 0 <= from < s.len() {
        match sep.match_len_at(s, from) {
            Some(l) => {
                let skip = if l >= 1 {
                    l
                } else {
                    1
                };
                if !ignoring || outside_quotes(s, from) {
                } else if from + skip <= s.len() {
                    lemma_first_match_bounds(sep, ignoring, s, from + skip);
                }
            },
            None => {
                lemma_first_match_bounds(sep, ignoring, s, from + 1);
            },
        }
    }
}

/// The pieces, as `(start, end)` offsets into `s`, that splitting `s` on
/// `sep` from position `from` onward yields, every trailing empty piece
/// included.
pub open spec fn split_pieces(sep: Sep, ignoring: bool, s: Seq<u8>, from: int) -> Seq<(int, int)>
    decreases s.len() - from,
    when 0 <= from <= s.len()
{
    match first_match(sep, ignoring, s, from) {
        None => seq![(from, s.len() as int)],
        Some((p, l)) => {
            let skip = if l >= 1 {
                l
            } else {
                1
            };
            proof {
                lemma_first_match_bounds(sep, ignoring, s, from);
            }
            seq![(from, p)] + split_pieces(sep, ignoring, s, p + skip)
        },
    }
}

/// The positions of the separator occurrences that the splitting reports.
pub open spec fn match_positions(sep: Sep, ignoring: bool, s: Seq<u8>, from: int) -> Seq<int>
    decreases s.len() - from,
    when 0 <= from <= s.len()
{
    match first_match(sep, ignoring, s, from) {
        None => Seq::<int>::empty(),
        Some((p, l)) => {
            let skip = if l >= 1 {
                l
            } else {
                1
            };
            proof {
                lemma_first_match_bounds(sep, ignoring, s, from);
            }
            seq![p] + match_positions(sep, ignoring, s, p + skip)
        },
    }
}

/// Splitting on a separator with `k` reported occurrences yields exactly
/// `k + 1` pieces.
pub proof fn lemma_split_count(sep: Sep, ignoring: bool, s: Seq<u8>, from: int)
    requires
        0 <= from <= s.len(),
    ensures
        split_pieces(sep, ignoring, s, from).len() == match_positions(sep, ignoring, s, from).len()
            + 1,
    decreases s.len() - from,
{
    match first_match(sep, ignoring, s, from) {
        None => {},
        Some((p, l)) => {
            let skip = if l >= 1 {
                l
            } else {
                1
            };
            lemma_first_match_bounds(sep, ignoring, s, from);
            lemma_split_count(sep, ignoring, s, p + skip);
        },
    }
}

/// The literal byte string of a fixed separator; a line terminator has no
/// single literal.
pub open spec fn sep_literal(sep: Sep) -> Option<Seq<u8>> {
    match sep {
        Sep::Byte(b) => Some(seq![b]),
        Sep::Bytes(v) => Some(v@),
        Sep::Arrow => Some(crate::pattern::arrow_lit()),
        Sep::Line => None,
    }
}

/// The pieces of `s`, concatenated with the separator literal reinserted
/// between them.
pub open spec fn join_pieces(s: Seq<u8>, pieces: Seq<(int, int)>, lit: Seq<u8>) -> Seq<u8>
    decreases pieces.len(),
{
    if pieces.len() == 0 {
        Seq::<u8>::empty()
    } else if pieces.len() == 1 {
        s.subrange(pieces[0].0, pieces[0].1)
    } else {
        s.subrange(pieces[0].0, pieces[0].1) + lit + join_pieces(s, pieces.skip(1), lit)
    }
}

/// Splitting loses no content: concatenating the pieces with the separator
/// literal reinserted between them reproduces the split text exactly.
pub proof fn lemma_split_join(sep: Sep, ignoring: bool, s: Seq<u8>, from: int, lit: Seq<u8>)
    requires
        0 <= from <= s.len(),
        sep.wf(),
        sep_literal(sep) == Some(lit),
    ensures
        join_pieces(s, split_pieces(sep, ignoring, s, from), lit) == s.subrange(
            from,
            s.len() as int,
        ),
    decreases s.len() - from,
{
    let pieces = split_pieces(sep, ignoring, s, from);
    match first_match(sep, ignoring, s, from) {
        None => {
            assert(pieces =~= seq![(from, s.len() as int)]);
        },
        Some((p, l)) => {
            lemma_first_match_bounds(sep, ignoring, s, from);
            assert(l >= 1) by {
                match sep {
                    Sep::Byte(_) => {},
                    Sep::Bytes(_) => {},
                    Sep::Arrow => {},
                    Sep::Line => {},
                }
            }
            let rest = split_pieces(sep, ignoring, s, p + l);
            lemma_split_join(sep, ignoring, s, p + l, lit);
            assert(rest.len() >= 1);
            assert(pieces.skip(1) =~= rest);
            assert(s.subrange(p, p + l) =~= lit) by {
                match sep {
                    Sep::Byte(b) => {},
                    Sep::Bytes(v) => {},
                    Sep::Arrow => {},
                    Sep::Line => {},
                }
            }
            assert(join_pieces(s, pieces, lit) == s.subrange(from, p) + s.subrange(p, p + l)
                + s.subrange(p + l, s.len() as int));
            assert(s.subrange(from, p) + s.subrange(p, p + l) + s.subrange(p + l, s.len() as int)
                =~= s.subrange(from, s.len() as int));
        },
    }
}

/// Quote-aware splitting never reports a match strictly between a
/// quote-open and its matching quote-close of the same character: `a` opens
/// a quoted region (an even number of `q` occurrences precede it), `b` is
/// the next occurrence of `q`, and no reported match position lies strictly
/// between the two.
pub proof fn lemma_no_match_between_quotes(
    sep: Sep,
    s: Seq<u8>,
    from: int,
    p: int,
    l: int,
    q: u8,
    a: int,
    b: int,
)
    requires
        q == QUOTE_SINGLE || q == QUOTE_DOUBLE,
        0 <= a < b < s.len(),
        s[a] == q,
        s[b] == q,
        count_byte(s, q, a) % 2 == 0,
        count_byte(s, q, b) == count_byte(s, q, a) + 1,
        first_match(sep, true, s, from) == Some((p, l)),
    ensures
        !(a < p < b),
{
    lemma_first_match_bounds(sep, true, s, from);
    assert(outside_quotes(s, p));
    if a < p < b {
        assert(count_byte(s, q, a + 1) == count_byte(s, q, a) + 1);
        crate::pattern::lemma_count_byte_monotone(s, q, a + 1, p);
        crate::pattern::lemma_count_byte_monotone(s, q, p, b);
        assert(count_byte(s, q, p) == count_byte(s, q, a) + 1);
        assert(count_byte(s, q, p) % 2 == 0);
        assert(false);
    }
}

/// The piece `s[lo..hi]`, position-tagged at absolute offset `base + lo`.
pub open spec fn is_piece(piece: Spanned<&[u8]>, s: Seq<u8>, base: int, lo: int, hi: int) -> bool {
    &&& piece.inner@ == s.subrange(lo, hi)
    &&& piece.span == Some(Span { start: (base + lo) as usize, length: (hi - lo) as usize })
}

/// Searches `text` for the first reported match of `sep` at or after
/// `from`, counting quote toggles from the start of `text`.
pub fn find_match(text: &[u8], sep: &Sep, ignoring: bool, from: usize) -> (r: Option<
    (usize, usize),
>)
    requires
        from <= text@.len(),
        sep.wf(),
    ensures
        match r {
            Some((p, l)) => first_match(*sep, ignoring, text@, from as int) == Some(
                (p as int, l as int),
            ) && from <= p && p + l <= text@.len() && l >= 1,
            None => first_match(*sep, ignoring, text@, from as int) is None,
        },
{
    let ghost s = text@;
    let mut sq = false;
    let mut dq = false;
    let mut j: usize = 0;
    while j < from
        invariant
            0 <= j <= from,
            sq == (count_byte(s, QUOTE_SINGLE, j as int) % 2 == 1),
            dq == (count_byte(s, QUOTE_DOUBLE, j as int) % 2 == 1),
        decreases from - j,
    {
        let c = text[j];
        if c == QUOTE_SINGLE {
            sq = !sq;
        } else if c == QUOTE_DOUBLE {
            dq = !dq;
        }
        j += 1;
    }
    let mut i = from;
    while i < text.len()
        invariant
            from <= i <= text@.len(),
            sq == (count_byte(s, QUOTE_SINGLE, i as int) % 2 == 1),
            dq == (count_byte(s, QUOTE_DOUBLE, i as int) % 2 == 1),
            first_match(*sep, ignoring, s, from as int) == first_match(*sep, ignoring, s, i as int),
        decreases text@.len() - i,
    {
        match sep.read_match_at(text, i) {
            Some(l) => {
                proof {
                    assert(l >= 1) by {
                        match *sep {
                            Sep::Byte(_) => {},
                            Sep::Bytes(_) => {},
                            Sep::Arrow => {},
                            Sep::Line => {},
                        }
                    }
                }
                if !ignoring || (!sq && !dq) {
                    return Some((i, l));
                }
                let stop = i + l;
                while i < stop
                    invariant
                        from <= i <= stop <= text@.len(),
                        sq == (count_byte(s, QUOTE_SINGLE, i as int) % 2 == 1),
                        dq == (count_byte(s, QUOTE_DOUBLE, i as int) % 2 == 1),
                    decreases stop - i,
                {
                    let c = text[i];
                    if c == QUOTE_SINGLE {
                        sq = !sq;
                    } else if c == QUOTE_DOUBLE {
                        dq = !dq;
                    }
                    i += 1;
                }
            },
            None => {
                let c = text[i];
                if c == QUOTE_SINGLE {
                    sq = !sq;
                } else if c == QUOTE_DOUBLE {
                    dq = !dq;
                }
                i += 1;
            },
        }
    }
    None
}

} // verus!

verus! {

/// The shared splitting state: a cursor over `text` that hands out one
/// position-tagged piece per reported separator match.
#[derive(Debug)]
pub struct SplitInternal<'a> {
    pub text: &'a [u8],
    pub sep: Sep,
    pub ignoring: bool,
    pub start: usize,
    pub end: usize,
    pub allow_trailing_empty: bool,
    pub finished: bool,
}

impl<'a> SplitInternal<'a> {
    pub open spec fn wf(self) -> bool {
        &&& self.sep.wf()
        &&& self.start <= self.end
        &&& self.end == self.text@.len()
    }

    /// Everything but the cursor state agrees.
    pub open spec fn same_setup(self, other: SplitInternal<'a>) -> bool {
        &&& self.text == other.text
        &&& self.sep == other.sep
        &&& self.ignoring == other.ignoring
        &&& self.end == other.end
        &&& self.allow_trailing_empty == other.allow_trailing_empty
    }

    pub fn new(text: &'a [u8], sep: Sep, ignoring: bool, allow_trailing_empty: bool) -> (r:
        SplitInternal<'a>)
        requires
            sep.wf(),
        ensures
            r.wf(),
            r.text == text,
            r.sep == sep,
            r.ignoring == ignoring,
            r.allow_trailing_empty == allow_trailing_empty,
            r.start == 0,
            !r.finished,
    {
        SplitInternal {
            text,
            sep,
            ignoring,
            start: 0,
            end: text.len(),
            allow_trailing_empty,
            finished: false,
        }
    }

    /// Hands out the final piece, from the cursor to the end; an empty one
    /// only when trailing empties are allowed.
    pub fn get_end(&mut self) -> (r: Option<Spanned<&'a [u8]>>)
        requires
            old(self).wf(),
        ensures
            final(self).wf(),
            final(self).same_setup(*old(self)),
            final(self).start == old(self).start,
            if !old(self).finished && (old(self).allow_trailing_empty || old(self).start < old(
                self,
            ).end) {
                &&& final(self).finished
                &&& r matches Some(piece) && is_piece(
                    piece,
                    old(self).text@,
                    0,
                    old(self).start as int,
                    old(self).end as int,
                )
            } else {
                &&& final(self).finished == old(self).finished
                &&& r is None
            },
    {
        if !self.finished && (self.allow_trailing_empty || self.end - self.start > 0) {
            self.finished = true;
            let content = &self.text[self.start..self.end];
            Some(
                Spanned {
                    inner: content,
                    span: Some(Span { start: self.start, length: self.end - self.start }),
                },
            )
        } else {
            None
        }
    }

    /// Hands out the next piece: the content up to the next reported
    /// separator match, or the remainder when no match is left.
    pub fn next(&mut self) -> (r: Option<Spanned<&'a [u8]>>)
        requires
            old(self).wf(),
        ensures
            final(self).wf(),
            final(self).same_setup(*old(self)),
            old(self).finished ==> r is None && *final(self) == *old(self),
            !old(self).finished ==> match first_match(
                old(self).sep,
                old(self).ignoring,
                old(self).text@,
                old(self).start as int,
            ) {
                Some((p, l)) => {
                    &&& r matches Some(piece) && is_piece(
                        piece,
                        old(self).text@,
                        0,
                        old(self).start as int,
                        p,
                    )
                    &&& final(self).start == p + l
                    &&& !final(self).finished
                },
                None => if old(self).allow_trailing_empty || old(self).start < old(self).end {
                    &&& r matches Some(piece) && is_piece(
                        piece,
                        old(self).text@,
                        0,
                        old(self).start as int,
                        old(self).end as int,
                    )
                    &&& final(self).start == old(self).start
                    &&& final(self).finished
                } else {
                    &&& r is None
                    &&& *final(self) == *old(self)
                },
            },
    {
        if self.finished {
            return None;
        }
        match find_match(self.text, &self.sep, self.ignoring, self.start) {
            Some((p, l)) => {
                let content = &self.text[self.start..p];
                let piece = Spanned {
                    inner: content,
                    span: Some(Span { start: self.start, length: p - self.start }),
                };
                self.start = p + l;
                Some(piece)
            },
            None => self.get_end(),
        }
    }

    /// The text being split.
    pub fn haystack(&self) -> (r: &'a [u8])
        ensures
            r == self.text,
    {
        self.text
    }

    /// The content not yet handed out; empty once the final piece is out.
    pub fn as_str(&self) -> (r: &'a [u8])
        requires
            self.wf(),
        ensures
            self.finished ==> r@ == Seq::<u8>::empty(),
            !self.finished ==> r@ == self.text@.subrange(self.start as int, self.end as int),
    {
        if self.finished {
            let r = &self.text[0..0];
            proof {
                assert(r@ =~= Seq::<u8>::empty());
            }
            r
        } else {
            &self.text[self.start..self.end]
        }
    }
}

/// What the bounded splitter yields: at most `n` pieces, the last of which
/// is the unsplit remainder.
pub open spec fn splitn_rec(sep: Sep, ignoring: bool, s: Seq<u8>, from: int, n: nat) -> Seq<
    (int, int),
>
    decreases n,
{
    if n == 0 {
        Seq::<(int, int)>::empty()
    } else {
        match first_match(sep, ignoring, s, from) {
            None => seq![(from, s.len() as int)],
            Some((p, l)) => if n == 1 {
                seq![(from, s.len() as int)]
            } else {
                seq![(from, p)] + splitn_rec(sep, ignoring, s, p + l, (n - 1) as nat)
            },
        }
    }
}

/// Every piece of the bounded split lies within the text, in order; the
/// first starts where the split started and the last ends at the text's
/// end.
pub proof fn lemma_splitn_bounds(sep: Sep, ignoring: bool, s: Seq<u8>, from: int, n: nat)
    requires
        0 <= from <= s.len(),
    ensures
        ({
            let ps = splitn_rec(sep, ignoring, s, from, n);
            &&& forall|i: int| 0 <= i < ps.len() ==> from <= #[trigger] ps[i].0 <= ps[i].1 <= s.len()
            &&& ps.len() > 0 ==> ps[0].0 == from
            &&& ps.len() > 0 ==> ps[ps.len() - 1].1 == s.len()
        }),
    decreases n,
{
    if n > 0 {
        match first_match(sep, ignoring, s, from) {
            None => {},
            Some((p, l)) => {
                lemma_first_match_bounds(sep, ignoring, s, from);
                if n > 1 {
                    lemma_splitn_bounds(sep, ignoring, s, p + l, (n - 1) as nat);
                    let rest = splitn_rec(sep, ignoring, s, p + l, (n - 1) as nat);
                    let ps = splitn_rec(sep, ignoring, s, from, n);
                    assert(rest.len() > 0);
                    assert(ps[ps.len() - 1] == rest[rest.len() - 1]);
                }
            },
        }
    }
}

/// A splitting cursor that stops after `count` pieces, handing out the
/// remainder unsplit as the final piece.
#[derive(Debug)]
pub struct SplitNInternal<'a> {
    pub iter: SplitInternal<'a>,
    /// The number of pieces still to hand out.
    pub count: usize,
}

impl<'a> SplitNInternal<'a> {
    pub fn next(&mut self) -> (r: Option<Spanned<&'a [u8]>>)
        requires
            old(self).iter.wf(),
            old(self).iter.allow_trailing_empty,
        ensures
            final(self).iter.wf(),
            final(self).iter.same_setup(old(self).iter),
            old(self).count == 0 ==> r is None && *final(self) == *old(self),
            old(self).count == 1 && !old(self).iter.finished ==> final(self).count == 0 && (
            r matches Some(piece) && is_piece(
                piece,
                old(self).iter.text@,
                0,
                old(self).iter.start as int,
                old(self).iter.end as int,
            )) && final(self).iter.finished,
            old(self).count > 1 && !old(self).iter.finished ==> final(self).count == old(
                self,
            ).count - 1 && match first_match(
                old(self).iter.sep,
                old(self).iter.ignoring,
                old(self).iter.text@,
                old(self).iter.start as int,
            ) {
                Some((p, l)) => {
                    &&& r matches Some(piece) && is_piece(
                        piece,
                        old(self).iter.text@,
                        0,
                        old(self).iter.start as int,
                        p,
                    )
                    &&& final(self).iter.start == p + l
                    &&& !final(self).iter.finished
                },
                None => {
                    &&& r matches Some(piece) && is_piece(
                        piece,
                        old(self).iter.text@,
                        0,
                        old(self).iter.start as int,
                        old(self).iter.end as int,
                    )
                    &&& final(self).iter.finished
                },
            },
            old(self).count >= 1 && old(self).iter.finished ==> r is None,
    {
        if self.count == 0 {
            None
        } else if self.count == 1 {
            self.count = 0;
            self.iter.get_end()
        } else {
            self.count = self.count - 1;
            self.iter.next()
        }
    }
}

/// Splits on a separator without yielding the final empty piece when the
/// text ends exactly on a separator.
#[derive(Debug)]
pub struct SplitTerminator<'a>(pub SplitInternal<'a>);

impl<'a> SplitTerminator<'a> {
    pub fn next(&mut self) -> (r: Option<Spanned<&'a [u8]>>)
        requires
            old(self).0.wf(),
            !old(self).0.allow_trailing_empty,
        ensures
            final(self).0.wf(),
            final(self).0.same_setup(old(self).0),
            old(self).0.finished ==> r is None && *final(self) == *old(self),
            !old(self).0.finished ==> match first_match(
                old(self).0.sep,
                old(self).0.ignoring,
                old(self).0.text@,
                old(self).0.start as int,
            ) {
                Some((p, l)) => {
                    &&& r matches Some(piece) && is_piece(
                        piece,
                        old(self).0.text@,
                        0,
                        old(self).0.start as int,
                        p,
                    )
                    &&& final(self).0.start == p + l
                    &&& !final(self).0.finished
                },
                None => if old(self).0.start < old(self).0.end {
                    &&& r matches Some(piece) && is_piece(
                        piece,
                        old(self).0.text@,
                        0,
                        old(self).0.start as int,
                        old(self).0.end as int,
                    )
                    &&& final(self).0.finished
                } else {
                    &&& r is None
                    &&& *final(self) == *old(self)
                },
            },
    {
        self.0.next()
    }

    /// The content not yet handed out.
    pub fn as_str(&self) -> (r: &'a [u8])
        requires
            self.0.wf(),
        ensures
            self.0.finished ==> r@ == Seq::<u8>::empty(),
            !self.0.finished ==> r@ == self.0.text@.subrange(self.0.start as int, self.0.end as int),
    {
        self.0.as_str()
    }
}

} // verus!

verus! {

/// No byte before `end` equals `b`.
pub proof fn lemma_count_byte_zero(s: Seq<u8>, b: u8, end: int)
    requires
        forall|j: int| 0 <= j < end ==> s[j] != b,
    ensures
        count_byte(s, b, end) == 0,
    decreases end,
{
    if end > 0 {
        lemma_count_byte_zero(s, b, end - 1);
    }
}

/// In a text without quote characters, the first occurrence of byte `b` at
/// or after `from` is exactly where the quote-aware search reports a match.
pub proof fn lemma_first_match_byte_at(s: Seq<u8>, b: u8, from: int, k: int)
    requires
        0 <= from <= k < s.len(),
        s[k] == b,
        forall|j: int| from <= j < k ==> s[j] != b,
        forall|j: int| 0 <= j < s.len() ==> s[j] != QUOTE_SINGLE && s[j] != QUOTE_DOUBLE,
    ensures
        first_match(Sep::Byte(b), true, s, from) == Some((k, 1int)),
    decreases k - from,
{
    lemma_count_byte_zero(s, QUOTE_SINGLE, k);
    lemma_count_byte_zero(s, QUOTE_DOUBLE, k);
    if from < k {
        lemma_first_match_byte_at(s, b, from + 1, k);
    }
}

} // verus!
