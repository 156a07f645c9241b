use vstd::prelude::*;

use crate::pattern::{Sep, QUOTE_DOUBLE, QUOTE_SINGLE};
use crate::span::Span;
use crate::spanned::{remove_start_end_range, Spanned};
use crate::split::{first_match, is_piece};
use crate::split_iter::SplitIter;

verus! {

/// Why an attribute failed to parse.
#[derive(Debug, Clone, Copy, PartialEq, Eq, Hash, Structural)]
pub enum ParseAttributeErrorKind {
    /// A value starts with a quote character but does not end with the
    /// same one.
    InvalidQuote,
}

/// An attribute-parse failure, carrying the span of the offending value.
#[derive(Debug, Clone, PartialEq, Eq)]
pub struct ParseAttributeError(pub Spanned<ParseAttributeErrorKind>);

/// The invalid-quote failure, blamed on the absolute range `lo..hi`.
pub open spec fn invalid_quote_at(lo: int, hi: int) -> ParseAttributeError {
    ParseAttributeError(
        Spanned {
            inner: ParseAttributeErrorKind::InvalidQuote,
            span: Some(Span { start: lo as usize, length: (hi - lo) as usize }),
        },
    )
}

impl ParseAttributeError {
    pub fn invalid_quote(span: Span) -> (r: ParseAttributeError)
        requires
            span.wf(),
        ensures
            r == invalid_quote_at(span.start as int, span.spec_end()),
    {
        ParseAttributeError(
            Spanned { inner: ParseAttributeErrorKind::InvalidQuote, span: Some(span) },
        )
    }
}

/// The local range that stripping matching quotes from both ends of `s`
/// keeps: an enclosing double- or single-quote pair is removed; a string
/// with a quote at only one end is rejected; anything else is kept whole.
pub open spec fn remove_quotes_range(s: Seq<u8>) -> Result<(int, int), ()> {
    if remove_start_end_range(s, QUOTE_DOUBLE, QUOTE_DOUBLE) is Some {
        Ok(remove_start_end_range(s, QUOTE_DOUBLE, QUOTE_DOUBLE)->Some_0)
    } else if remove_start_end_range(s, QUOTE_SINGLE, QUOTE_SINGLE) is Some {
        Ok(remove_start_end_range(s, QUOTE_SINGLE, QUOTE_SINGLE)->Some_0)
    } else if s.len() > 0 && (s[0] == QUOTE_DOUBLE || s[s.len() - 1] == QUOTE_DOUBLE || s[0]
        == QUOTE_SINGLE || s[s.len() - 1] == QUOTE_SINGLE) {
        Err(())
    } else {
        Ok((0int, s.len() as int))
    }
}

/// Removes either single or double quotes from the start and end of the
/// provided string; an unquoted string is returned as it is.  A string
/// quoted at only one end fails with an invalid-quote error over its span.
pub fn remove_quotes<'a>(string: Spanned<&'a [u8]>) -> (r: Result<
    Spanned<&'a [u8]>,
    ParseAttributeError,
>)
    requires
        string.wf(),
    ensures
        match remove_quotes_range(string.inner@) {
            Ok((lo, hi)) => r matches Ok(piece) && is_piece(
                piece,
                string.inner@,
                string.abs_start(),
                lo,
                hi,
            ),
            Err(_) => r == Err::<Spanned<&'a [u8]>, ParseAttributeError>(
                invalid_quote_at(string.abs_start(), string.abs_end()),
            ),
        },
{
    match string.remove_start_end(QUOTE_DOUBLE, QUOTE_DOUBLE) {
        Some(piece) => {
            return Ok(piece);
        },
        None => {},
    }
    match string.remove_start_end(QUOTE_SINGLE, QUOTE_SINGLE) {
        Some(piece) => {
            return Ok(piece);
        },
        None => {},
    }
    let n = string.inner.len();
    if n > 0 && (string.inner[0] == QUOTE_DOUBLE || string.inner[n - 1] == QUOTE_DOUBLE
        || string.inner[0] == QUOTE_SINGLE || string.inner[n - 1] == QUOTE_SINGLE) {
        let span = string.str_span();
        return Err(ParseAttributeError(
            Spanned { inner: ParseAttributeErrorKind::InvalidQuote, span: Some(span) },
        ));
    }
    let whole = Spanned { inner: &string.inner[0..n], span: Some(string.str_span()) };
    proof {
        assert(whole.inner@ =~= string.inner@.subrange(0, n as int));
    }
    Ok(whole)
}

/// What parsing `s` as a `name=value` pair yields: the local range of the
/// name, and, when a `=` occurs, the local range of the quote-stripped
/// value; a badly quoted value is rejected with the value's local range.
pub open spec fn attribute_parse_spec(s: Seq<u8>) -> Result<
    ((int, int), Option<(int, int)>),
    (int, int),
> {
    match first_match(Sep::Byte(61), true, s, 0) {
        None => Ok(((0int, s.len() as int), None)),
        Some((p, l)) => {
            let v = s.subrange(p + l, s.len() as int);
            match remove_quotes_range(v) {
                Ok((lo, hi)) => Ok(((0int, p), Some((p + l + lo, p + l + hi)))),
                Err(_) => Err((p + l, s.len() as int)),
            }
        },
    }
}

/// One `name=value` pair of a tag's attribute blob, with quote-stripping
/// applied to the value at parse time.  The value, along with the `=`, can
/// be omitted altogether.
#[derive(Debug, Clone, Copy, PartialEq, Eq, Hash)]
pub struct Attribute<'a> {
    pub name: &'a [u8],
    pub value: Option<&'a [u8]>,
}

impl<'a> Attribute<'a> {
    /// Creates a new attribute from the provided name and its associated
    /// value.
    pub fn new(name: &'a [u8], value: Option<&'a [u8]>) -> (r: Attribute<'a>)
        ensures
            r.name == name,
            r.value == value,
    {
        Attribute { name, value }
    }

    /// Returns the name of the attribute.
    pub fn name(&self) -> (r: &'a [u8])
        ensures
            r == self.name,
    {
        self.name
    }

    /// Returns the value of the attribute.
    pub fn value(&self) -> (r: Option<&'a [u8]>)
        ensures
            r == self.value,
    {
        self.value
    }

    /// Parses one `name=value` pair: the content up to the first
    /// quote-aware `=` is the name, the rest (with enclosing quotes
    /// stripped) the value.  Yields the name piece alongside, for callers
    /// that continue from it.
    pub fn parse(string: Spanned<&'a [u8]>) -> (r: Result<
        (Spanned<&'a [u8]>, Attribute<'a>),
        ParseAttributeError,
    >)
        requires
            string.wf(),
        ensures
            match attribute_parse_spec(string.inner@) {
                Ok(ranges) => r matches Ok((piece, attr)) && is_piece(
                    piece,
                    string.inner@,
                    string.abs_start(),
                    ranges.0.0,
                    ranges.0.1,
                ) && attr.name@ == string.inner@.subrange(ranges.0.0, ranges.0.1) && match ranges.1 {
                    Some((vlo, vhi)) => attr.value matches Some(v) && v@ == string.inner@.subrange(
                        vlo,
                        vhi,
                    ),
                    None => attr.value is None,
                },
                Err((elo, ehi)) => r == Err::<(Spanned<&'a [u8]>, Attribute<'a>),
                    ParseAttributeError>(
                    invalid_quote_at(string.abs_start() + elo, string.abs_start() + ehi),
                ),
            },
{
        let (name, value) = string.split_once(&Sep::Byte(61));
        match value {
            Some(v) => {
                proof {
                    crate::split::lemma_first_match_bounds(Sep::Byte(61), true, string.inner@, 0);
                    assert(v.wf());
                }
                match remove_quotes(v) {
                    Ok(stripped) => {
                        proof {
                            let s = string.inner@;
                            let pl = first_match(Sep::Byte(61), true, s, 0)->Some_0;
                            let vv = s.subrange(pl.0 + pl.1, s.len() as int);
                            match remove_quotes_range(vv) {
                                Ok((lo, hi)) => {
                                    if remove_start_end_range(vv, QUOTE_DOUBLE, QUOTE_DOUBLE) is Some {
                                        crate::spanned::lemma_remove_start_end_bounds(vv, QUOTE_DOUBLE, QUOTE_DOUBLE);
                                    } else if remove_start_end_range(vv, QUOTE_SINGLE, QUOTE_SINGLE) is Some {
                                        crate::spanned::lemma_remove_start_end_bounds(vv, QUOTE_SINGLE, QUOTE_SINGLE);
                                    }
                                    assert(stripped.inner@ =~= s.subrange(pl.0 + pl.1 + lo, pl.0 + pl.1 + hi));
                                },
                                Err(_) => {},
                            }
                        }
                        Ok(
                        (
                            name,
                            Attribute {
                                name: name.into_inner(),
                                value: Some(stripped.into_inner()),
                            },
                        ),
                    )
                    },
                    Err(e) => Err(e),
                }
            },
            None => Ok((name, Attribute { name: name.into_inner(), value: None })),
        }
    }

    /// Parses one `name=value` pair.
    pub fn try_from(value: Spanned<&'a [u8]>) -> (r: Result<Attribute<'a>, ParseAttributeError>)
        requires
            value.wf(),
        ensures
            match attribute_parse_spec(value.inner@) {
                Ok(ranges) => r matches Ok(attr) && attr.name@ == value.inner@.subrange(
                    ranges.0.0,
                    ranges.0.1,
                ) && match ranges.1 {
                    Some((vlo, vhi)) => attr.value matches Some(v) && v@ == value.inner@.subrange(
                        vlo,
                        vhi,
                    ),
                    None => attr.value is None,
                },
                Err((elo, ehi)) => r == Err::<Attribute<'a>, ParseAttributeError>(
                    invalid_quote_at(value.abs_start() + elo, value.abs_start() + ehi),
                ),
            },
    {
        match Attribute::parse(value) {
            Ok((_, attr)) => Ok(attr),
            Err(e) => Err(e),
        }
    }
}

/// A tag's attribute blob: the raw position-tagged content after the tag
/// name, parsed lazily into attributes on demand.
#[derive(Debug, Clone, Copy, PartialEq, Eq, Hash)]
pub struct Attributes<'a>(pub Spanned<&'a [u8]>);

impl<'a> Attributes<'a> {
    /// Wraps a blob that sits at absolute offset `start` of the original
    /// input buffer.
    pub fn new_spanned(string: &'a [u8], start: usize) -> (r: Attributes<'a>)
        requires
            start + string@.len() <= usize::MAX,
        ensures
            r.0.inner == string,
            r.0.span == Some(Span { start, length: string@.len() as usize }),
            r.0.wf(),
    {
        Attributes(
            Spanned { inner: string, span: Some(Span { start, length: string.len() }) },
        )
    }

    /// The attributes of the blob, parsed lazily.
    pub fn attributes(&self) -> (r: LazyAttributesIter<'a>)
        requires
            self.0.wf(),
        ensures
            r.0.wf(),
            r.0.iterator.text == self.0.inner,
            r.0.iterator.sep == Sep::Byte(61),
            r.0.iterator.start == 0,
            !r.0.iterator.finished,
            r.0.start as int == self.0.abs_start(),
    {
        LazyAttributesIter(self.0.split(Sep::Byte(61)))
    }
}

/// Hands out one parsed attribute per quote-aware `=`-separated piece of
/// the blob.
#[derive(Debug)]
pub struct LazyAttributesIter<'a>(pub SplitIter<'a>);

impl<'a> LazyAttributesIter<'a> {
    /// Hands out the next piece's parse.
    pub fn next(&mut self) -> (r: Option<Result<Attribute<'a>, ParseAttributeError>>)
        requires
            old(self).0.wf(),
        ensures
            final(self).0.wf(),
            final(self).0.start == old(self).0.start,
            final(self).0.iterator.same_setup(old(self).0.iterator),
            old(self).0.iterator.finished ==> r is None && *final(self) == *old(self),
            !old(self).0.iterator.finished ==> ({
                let s = old(self).0.iterator.text@;
                let lo = old(self).0.iterator.start as int;
                let hi = match first_match(
                    old(self).0.iterator.sep,
                    true,
                    s,
                    lo,
                ) {
                    Some((p, l)) => p,
                    None => old(self).0.iterator.end as int,
                };
                let piece = s.subrange(lo, hi);
                match attribute_parse_spec(piece) {
                    Ok(ranges) => r matches Some(rr) && rr matches Ok(attr) && attr.name@
                        == piece.subrange(ranges.0.0, ranges.0.1) && match ranges.1 {
                        Some((vlo, vhi)) => attr.value matches Some(v) && v@ == piece.subrange(
                            vlo,
                            vhi,
                        ),
                        None => attr.value is None,
                    },
                    Err((elo, ehi)) => r matches Some(rr) && rr matches Err(e) && e
                        == invalid_quote_at(
                        old(self).0.start + lo + elo,
                        old(self).0.start + lo + ehi,
                    ),
                }
            }),
    {
        let ghost s = self.0.iterator.text@;
        let ghost lo = self.0.iterator.start as int;
        match self.0.next() {
            None => None,
            Some(piece) => {
                proof {
                    if first_match(old(self).0.iterator.sep, true, s, lo) is Some {
                        crate::split::lemma_first_match_bounds(
                            old(self).0.iterator.sep,
                            true,
                            s,
                            lo,
                        );
                    }
                    assert(piece.wf());
                }
                Some(Attribute::try_from(piece))
            },
        }
    }
}

} // verus!
