use vstd::prelude::*;

use crate::attributes::Attributes;
use crate::pattern::Sep;
use crate::span::Span;
use crate::spanned::{remove_start_end_range, Spanned};
use crate::split::{first_match, lemma_first_match_bounds};

verus! {

/// Why a tag failed to parse.
#[derive(Debug, Clone, Copy, PartialEq, Eq, Hash, Structural)]
pub enum ParseTagErrorKind {
    /// The content is not enclosed in a matching bracket pair.
    MissingBrackets,
    /// An open tag was expected but a close tag found.
    ExpectedOpenTag,
    /// A close tag was expected but an open tag found.
    ExpectedCloseTag,
}

/// A tag-parse failure, carrying the span of the offending substring.
#[derive(Debug, Clone, PartialEq, Eq)]
pub struct ParseTagError(pub Spanned<ParseTagErrorKind>);

/// The missing-brackets failure, blamed on the absolute range `lo..hi`.
pub open spec fn missing_brackets_at(lo: int, hi: int) -> ParseTagError {
    ParseTagError(
        Spanned {
            inner: ParseTagErrorKind::MissingBrackets,
            span: Some(Span { start: lo as usize, length: (hi - lo) as usize }),
        },
    )
}

impl ParseTagError {
    pub fn new(kind: ParseTagErrorKind, span: Span) -> (r: ParseTagError)
        ensures
            r == ParseTagError(Spanned { inner: kind, span: Some(span) }),
    {
        ParseTagError(Spanned { inner: kind, span: Some(span) })
    }

    pub fn missing_brackets(span: Span) -> (r: ParseTagError)
        requires
            span.wf(),
        ensures
            r == missing_brackets_at(span.start as int, span.spec_end()),
    {
        ParseTagError(Spanned { inner: ParseTagErrorKind::MissingBrackets, span: Some(span) })
    }

    pub fn expected_open_tag(span: Span) -> (r: ParseTagError)
        ensures
            r == ParseTagError(
                Spanned { inner: ParseTagErrorKind::ExpectedOpenTag, span: Some(span) },
            ),
    {
        ParseTagError(Spanned { inner: ParseTagErrorKind::ExpectedOpenTag, span: Some(span) })
    }

    pub fn expected_close_tag(span: Span) -> (r: ParseTagError)
        ensures
            r == ParseTagError(
                Spanned { inner: ParseTagErrorKind::ExpectedCloseTag, span: Some(span) },
            ),
    {
        ParseTagError(Spanned { inner: ParseTagErrorKind::ExpectedCloseTag, span: Some(span) })
    }
}

/// The bracket style of a tag.
#[derive(Debug, Clone, Copy, PartialEq, Eq, Hash, Structural)]
pub enum TagKind {
    Braced,
    AngularBrackets,
}

/// One parsed inline-markup tag: its bracket style, its name, whether it
/// opens or closes, and its raw attribute blob, if any.
#[derive(Debug, Clone, Copy, PartialEq, Eq, Hash)]
pub struct ParsedTag<'a> {
    pub kind: TagKind,
    pub name: &'a [u8],
    pub is_open: bool,
    pub attributes: Option<Attributes<'a>>,
}

/// The first position at or after `i` (before `hi`) whose byte is not a
/// slash, or `hi` when only slashes remain.
pub open spec fn skip_slashes(s: Seq<u8>, i: int, hi: int) -> int
    decreases hi - i,
    when 0 <= i <= hi <= s.len()
{
    if i >= hi {
        i
    } else if s[i] != 47 {
        i
    } else {
        skip_slashes(s, i + 1, hi)
    }
}

pub proof fn lemma_skip_slashes_bounds(s: Seq<u8>, i: int, hi: int)
    requires
        0 <= i <= hi <= s.len(),
    ensures
        i <= skip_slashes(s, i, hi) <= hi,
    decreases hi - i,
{
    if i < hi && s[i] == 47 {
        lemma_skip_slashes_bounds(s, i + 1, hi);
    }
}

/// The mathematical shape of a parsed tag, as local ranges of the tag's
/// own content.
pub struct TagModel {
    pub kind: TagKind,
    pub name_lo: int,
    pub name_hi: int,
    pub is_open: bool,
    pub attrs: Option<(int, int)>,
}

/// What parsing `s` as a bracketed tag yields: the enclosing brackets
/// stripped (angular preferred, then braces), a leading `/` marking the
/// tag closed (every leading slash stripped from the name), and the
/// content split once on the first quote-aware space into name and
/// attribute blob.  Content without brackets is rejected with its whole
/// range.
pub open spec fn tag_parse_spec(s: Seq<u8>) -> Result<TagModel, ()> {
    let angular = remove_start_end_range(s, 60, 62);
    let braced = remove_start_end_range(s, 123, 125);
    if angular is None && braced is None {
        Err(())
    } else {
        let kind = if angular is Some {
            TagKind::AngularBrackets
        } else {
            TagKind::Braced
        };
        let inner = if angular is Some {
            angular->Some_0
        } else {
            braced->Some_0
        };
        let content = s.subrange(inner.0, inner.1);
        let is_open = !(content.len() > 0 && content[0] == 47);
        let split = first_match(Sep::Byte(32), true, content, 0);
        let name_hi = match split {
            Some((p, l)) => inner.0 + p,
            None => inner.1,
        };
        let attrs = match split {
            Some((p, l)) => Some((inner.0 + p + l, inner.1)),
            None => None,
        };
        let name_lo = if is_open {
            inner.0
        } else {
            skip_slashes(s, inner.0, name_hi)
        };
        Ok(TagModel { kind, name_lo, name_hi, is_open, attrs })
    }
}

/// The tag `tag` carries exactly what the model `m` says, relative to the
/// tag content `s` sitting at absolute offset `base`.
pub open spec fn tag_matches(tag: ParsedTag, m: TagModel, s: Seq<u8>, base: int) -> bool {
    &&& tag.kind == m.kind
    &&& tag.name@ == s.subrange(m.name_lo, m.name_hi)
    &&& tag.is_open == m.is_open
    &&& match m.attrs {
        Some((alo, ahi)) => tag.attributes matches Some(att) && att.0.inner@ == s.subrange(
            alo,
            ahi,
        ) && att.0.span == Some(Span { start: (base + alo) as usize, length: (ahi - alo) as usize }),
        None => tag.attributes is None,
    }
}

impl<'a> ParsedTag<'a> {
    pub fn new_open(name: &'a [u8], kind: TagKind, attributes: Option<Attributes<'a>>) -> (r:
        ParsedTag<'a>)
        ensures
            r == (ParsedTag { kind, name, is_open: true, attributes }),
    {
        ParsedTag { kind, name, is_open: true, attributes }
    }

    pub fn new_closed(name: &'a [u8], kind: TagKind, attributes: Option<Attributes<'a>>) -> (r:
        ParsedTag<'a>)
        ensures
            r == (ParsedTag { kind, name, is_open: false, attributes }),
    {
        ParsedTag { kind, name, is_open: false, attributes }
    }

    pub fn kind(&self) -> (r: TagKind)
        ensures
            r == self.kind,
    {
        self.kind
    }







    /// Parses a bracketed tag out of a position-tagged string.
    #[verifier::rlimit(80)]
    pub fn try_from(value: Spanned<&'a [u8]>) -> (r: Result<ParsedTag<'a>, ParseTagError>)
        requires
            value.wf(),
        ensures
            match tag_parse_spec(value.inner@) {
                Ok(m) => r matches Ok(tag) && tag_matches(tag, m, value.inner@, value.abs_start()),
                Err(_) => r == Err::<ParsedTag<'a>, ParseTagError>(
                    missing_brackets_at(value.abs_start(), value.abs_end()),
                ),
            },
    {
        let ghost s = value.inner@;
        let angular = value.remove_start_end(60, 62);
        let (content, kind) = match angular {
            Some(c) => (c, TagKind::AngularBrackets),
            None => {
                match value.remove_start_end(123, 125) {
                    Some(c) => (c, TagKind::Braced),
                    None => {
                        let span = value.str_span();
                        return Err(ParseTagError(
                            Spanned {
                                inner: ParseTagErrorKind::MissingBrackets,
                                span: Some(span),
                            },
                        ));
                    },
                }
            },
        };
        let ghost inner = if remove_start_end_range(s, 60, 62) is Some {
            remove_start_end_range(s, 60, 62)->Some_0
        } else {
            remove_start_end_range(s, 123, 125)->Some_0
        };
        proof {
            if remove_start_end_range(s, 60, 62) is Some {
                crate::spanned::lemma_remove_start_end_bounds(s, 60, 62);
            } else {
                crate::spanned::lemma_remove_start_end_bounds(s, 123, 125);
            }
            assert(content.wf());
        }
        let is_open = !(content.inner.len() > 0 && content.inner[0] == 47);
        let (mut name, attr_blob) = content.split_once(&Sep::Byte(32));
        proof {
            if first_match(Sep::Byte(32), true, content.inner@, 0) is Some {
                lemma_first_match_bounds(Sep::Byte(32), true, content.inner@, 0);
            }
            assert(name.wf());
            let name_hi = inner.0 + name.inner@.len();
            assert(name.inner@ =~= s.subrange(inner.0, name_hi));
            match attr_blob {
                Some(blob) => {
                    assert(blob.inner@ =~= s.subrange(
                        inner.0 + name.inner@.len() + 1,
                        inner.1,
                    ));
                },
                None => {},
            }
        }
        if !is_open {
            let ghost name_hi = inner.0 + name.inner@.len();
            proof {
                lemma_skip_slashes_bounds(s, inner.0, name_hi);
            }
            let mut k: usize = 0;
            let n = name.inner.len();
            while k < n && name.inner[k] == 47
                invariant
                    0 <= k <= n,
                    n == name.inner@.len(),
                    skip_slashes(s, inner.0, name_hi) == skip_slashes(s, inner.0 + k, name_hi),
                decreases n - k,
            {
                proof {
                    assert(s.subrange(inner.0, inner.1)[k as int] == s[inner.0 + k]);
                }
                k += 1;
            }
            proof {
                if k < n {
                    assert(s.subrange(inner.0, inner.1)[k as int] == s[inner.0 + k]);
                }
                assert(skip_slashes(s, inner.0, name_hi) == inner.0 + k);
            }
            let stripped = match name.get(k, n) {
                Some(piece) => piece,
                None => name,
            };
            proof {
                assert(stripped.inner@ =~= s.subrange(
                    skip_slashes(s, inner.0, name_hi),
                    name_hi,
                ));
            }
            name = stripped;
        }
        let attributes = match attr_blob {
            Some(blob) => Some(Attributes(blob)),
            None => None,
        };
        Ok(ParsedTag { kind, name: name.into_inner(), is_open, attributes })
    }
}

} // verus!
