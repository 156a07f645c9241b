use vstd::prelude::*;

use crate::num::{parse_uint, ParseIntError};
use crate::pattern::Sep;
use crate::span::Span;
use crate::spanned::{remove_start_end_range, trim_range, Spanned};
use crate::split::{is_piece, lemma_splitn_bounds, splitn_rec};

verus! {

/// Why a color value failed to parse.
#[derive(Debug, Clone, PartialEq, Eq)]
pub enum ColorErrorKind {
    /// A channel did not parse as a number of its radix.
    ParseIntError(ParseIntError),
    /// The `rgb(...)` wrapper is missing its parentheses.
    InvalidRgbString,
    /// The wrong number of channel fields was found.
    InvalidFormat,
}

/// A color-parse failure, carrying the span of the offending substring.
#[derive(Debug, Clone, PartialEq, Eq)]
pub struct ColorError(pub Spanned<ColorErrorKind>);

/// A channel-parse failure, blamed on the absolute range `lo..hi`.
pub open spec fn color_int_error_at(source: ParseIntError, lo: int, hi: int) -> ColorError {
    ColorError(
        Spanned {
            inner: ColorErrorKind::ParseIntError(source),
            span: Some(Span { start: lo as usize, length: (hi - lo) as usize }),
        },
    )
}

/// An invalid-rgb-string failure, blamed on the absolute range `lo..hi`.
pub open spec fn invalid_rgb_string_at(lo: int, hi: int) -> ColorError {
    ColorError(
        Spanned {
            inner: ColorErrorKind::InvalidRgbString,
            span: Some(Span { start: lo as usize, length: (hi - lo) as usize }),
        },
    )
}

/// An invalid-format failure, blamed on the absolute range `lo..hi`.
pub open spec fn invalid_format_at(lo: int, hi: int) -> ColorError {
    ColorError(
        Spanned {
            inner: ColorErrorKind::InvalidFormat,
            span: Some(Span { start: lo as usize, length: (hi - lo) as usize }),
        },
    )
}

impl ColorError {
    pub fn new(kind: ColorErrorKind, span: Span) -> (r: ColorError)
        ensures
            r == ColorError(Spanned { inner: kind, span: Some(span) }),
    {
        ColorError(Spanned { inner: kind, span: Some(span) })
    }

    pub fn invalid_rgb_string(span: Span) -> (r: ColorError)
        requires
            span.wf(),
        ensures
            r == invalid_rgb_string_at(span.start as int, span.spec_end()),
    {
        ColorError(Spanned { inner: ColorErrorKind::InvalidRgbString, span: Some(span) })
    }

    pub fn invalid_format(span: Span) -> (r: ColorError)
        requires
            span.wf(),
        ensures
            r == invalid_format_at(span.start as int, span.spec_end()),
    {
        ColorError(Spanned { inner: ColorErrorKind::InvalidFormat, span: Some(span) })
    }
}

/// A color value of an inline-markup attribute: either explicit channels
/// or a named color kept verbatim.
#[derive(Debug, Clone, Copy, PartialEq, Eq)]
pub enum Color<'a> {
    Rgb { red: u8, green: u8, blue: u8 },
    Name(&'a [u8]),
}

/// The mathematical shape of a parsed color.
pub enum ColorModel {
    Rgb { red: int, green: int, blue: int },
    Name,
}

/// What parsing one `rgb(...)` channel of `s` (at absolute offset `base`)
/// yields: the channel trimmed of surrounding whitespace, read as a
/// decimal byte; a failure is blamed on the trimmed range.
pub open spec fn rgb_channel_spec(s: Seq<u8>, lo: int, hi: int, base: int) -> Result<
    int,
    ColorError,
> {
    let piece = s.subrange(lo, hi);
    let t = trim_range(piece);
    match parse_uint(s.subrange(lo + t.0, lo + t.1), 10, 255) {
        Ok(v) => Ok(v),
        Err(e) => Err(color_int_error_at(e, base + lo + t.0, base + lo + t.1)),
    }
}

/// What parsing `s` (at absolute offset `base`) as a color yields.  A
/// leading `#` demands two hexadecimal digits per channel, each channel
/// failing at its own two-character span; a leading `rgb` demands a
/// parenthesized list of exactly three decimal channels; anything else is
/// a named color, kept verbatim.
pub open spec fn color_parse_spec(s: Seq<u8>, base: int) -> Result<ColorModel, ColorError> {
    if s.len() > 0 && s[0] == 35 {
        if 7 <= s.len() {
            let rr = parse_uint(s.subrange(1, 3), 16, 255);
            let rg = parse_uint(s.subrange(3, 5), 16, 255);
            let rb = parse_uint(s.subrange(5, 7), 16, 255);
            if rr is Err {
                Err(color_int_error_at(rr->Err_0, base + 1, base + 3))
            } else if rg is Err {
                Err(color_int_error_at(rg->Err_0, base + 3, base + 5))
            } else if rb is Err {
                Err(color_int_error_at(rb->Err_0, base + 5, base + 7))
            } else {
                Ok(ColorModel::Rgb { red: rr->Ok_0, green: rg->Ok_0, blue: rb->Ok_0 })
            }
        } else {
            Err(invalid_format_at(base, base + s.len()))
        }
    } else if s.len() >= 3 && s[0] == 114 && s[1] == 103 && s[2] == 98 {
        let tail = s.subrange(3, s.len() as int);
        match remove_start_end_range(tail, 40, 41) {
            None => Err(invalid_rgb_string_at(base, base + s.len())),
            Some((plo, phi)) => {
                let v = tail.subrange(plo, phi);
                let vbase = base + 3 + plo;
                let ps = splitn_rec(Sep::Byte(44), true, v, 0, 3);
                if ps.len() == 3 {
                    let r1 = rgb_channel_spec(v, ps[0].0, ps[0].1, vbase);
                    let r2 = rgb_channel_spec(v, ps[1].0, ps[1].1, vbase);
                    let r3 = rgb_channel_spec(v, ps[2].0, ps[2].1, vbase);
                    if r1 is Err {
                        Err(r1->Err_0)
                    } else if r2 is Err {
                        Err(r2->Err_0)
                    } else if r3 is Err {
                        Err(r3->Err_0)
                    } else {
                        Ok(ColorModel::Rgb { red: r1->Ok_0, green: r2->Ok_0, blue: r3->Ok_0 })
                    }
                } else {
                    Err(invalid_format_at(vbase, vbase + v.len()))
                }
            },
        }
    } else {
        Ok(ColorModel::Name)
    }
}

/// How a color is written back out; `Default` is lower-case hexadecimal.
#[derive(Debug, Clone, Copy, PartialEq, Eq, Hash, Structural)]
pub enum SerializeColorConfig {
    UpperHex,
    LowerHex,
    Rgb,
}

impl Default for SerializeColorConfig {
    fn default() -> (r: SerializeColorConfig)
        ensures
            r == SerializeColorConfig::LowerHex,
    {
        SerializeColorConfig::LowerHex
    }
}

/// Parses one trimmed decimal channel.
fn rgb_channel(piece: Spanned<&[u8]>, ghost_s: Ghost<Seq<u8>>, ghost_lo: Ghost<int>, ghost_hi: Ghost<int>, ghost_base: Ghost<int>) -> (r: Result<u8, ColorError>)
    requires
        piece.wf(),
        is_piece(piece, ghost_s@, ghost_base@, ghost_lo@, ghost_hi@),
        0 <= ghost_lo@ <= ghost_hi@ <= ghost_s@.len(),
        0 <= ghost_base@,
        ghost_base@ + ghost_hi@ <= usize::MAX,
    ensures
        match rgb_channel_spec(ghost_s@, ghost_lo@, ghost_hi@, ghost_base@) {
            Ok(v) => r matches Ok(c) && c as int == v,
            Err(e) => r == Err::<u8, ColorError>(e),
        },
{
    let trimmed = piece.trim();
    proof {
        crate::spanned::lemma_trim_range_bounds(piece.inner@);
        let t = trim_range(piece.inner@);
        assert(trimmed.inner@ =~= ghost_s@.subrange(ghost_lo@ + t.0, ghost_lo@ + t.1));
    }
    match trimmed.parse_radix_u8(10) {
        Ok(v) => Ok(v),
        Err(e) => {
            let span = trimmed.str_span();
            Err(ColorError(
                Spanned { inner: ColorErrorKind::ParseIntError(e.inner), span: Some(span) },
            ))
        },
    }
}

impl<'a> Color<'a> {
    /// Parses a position-tagged string as a color.
    #[verifier::rlimit(80)]
    pub fn try_from(value: Spanned<&'a [u8]>) -> (r: Result<Color<'a>, ColorError>)
        requires
            value.wf(),
        ensures
            match color_parse_spec(value.inner@, value.abs_start()) {
                Ok(m) => match m {
                    ColorModel::Rgb { red, green, blue } => r matches Ok(c) && c matches
                        Color::Rgb { red: cr, green: cg, blue: cb } && cr as int == red && cg as int
                        == green && cb as int == blue,
                    ColorModel::Name => r matches Ok(c) && c matches Color::Name(n) && n
                        == value.inner,
                },
                Err(e) => r == Err::<Color<'a>, ColorError>(e),
            },
    {
        let ghost s = value.inner@;
        let ghost base = value.abs_start();
        let n = value.inner.len();
        if n > 0 && value.inner[0] == 35 {
            if 7 <= n {
                let channels = value.sub_ranges(&[(1, 3), (3, 5), (5, 7)]);
                let red = match channels[0] {
                    Some(c) => c,
                    None => {
                        return Err(ColorError(
                            Spanned {
                                inner: ColorErrorKind::InvalidFormat,
                                span: Some(value.str_span()),
                            },
                        ));
                    },
                };
                let green = match channels[1] {
                    Some(c) => c,
                    None => {
                        return Err(ColorError(
                            Spanned {
                                inner: ColorErrorKind::InvalidFormat,
                                span: Some(value.str_span()),
                            },
                        ));
                    },
                };
                let blue = match channels[2] {
                    Some(c) => c,
                    None => {
                        return Err(ColorError(
                            Spanned {
                                inner: ColorErrorKind::InvalidFormat,
                                span: Some(value.str_span()),
                            },
                        ));
                    },
                };
                let rv = match red.parse_radix_u8(16) {
                    Ok(v) => v,
                    Err(e) => {
                        return Err(ColorError(
                            Spanned {
                                inner: ColorErrorKind::ParseIntError(e.inner),
                                span: e.span,
                            },
                        ));
                    },
                };
                let gv = match green.parse_radix_u8(16) {
                    Ok(v) => v,
                    Err(e) => {
                        return Err(ColorError(
                            Spanned {
                                inner: ColorErrorKind::ParseIntError(e.inner),
                                span: e.span,
                            },
                        ));
                    },
                };
                let bv = match blue.parse_radix_u8(16) {
                    Ok(v) => v,
                    Err(e) => {
                        return Err(ColorError(
                            Spanned {
                                inner: ColorErrorKind::ParseIntError(e.inner),
                                span: e.span,
                            },
                        ));
                    },
                };
                Ok(Color::Rgb { red: rv, green: gv, blue: bv })
            } else {
                Err(ColorError(
                    Spanned { inner: ColorErrorKind::InvalidFormat, span: Some(value.str_span()) },
                ))
            }
        } else if n >= 3 && value.inner[0] == 114 && value.inner[1] == 103 && value.inner[2] == 98 {
            let tail = match value.get(3, n) {
                Some(t) => t,
                None => {
                    return Ok(Color::Name(value.inner));
                },
            };
            proof {
                assert(tail.inner@ =~= s.subrange(3, s.len() as int));
            }
            match tail.remove_start_end(40, 41) {
                None => Err(ColorError(
                    Spanned {
                        inner: ColorErrorKind::InvalidRgbString,
                        span: Some(value.str_span()),
                    },
                )),
                Some(v) => {
                    proof {
                        crate::spanned::lemma_remove_start_end_bounds(tail.inner@, 40, 41);
                        assert(v.wf());
                        lemma_splitn_bounds(Sep::Byte(44), true, v.inner@, 0, 3);
                    }
                    let ghost pr = remove_start_end_range(tail.inner@, 40, 41)->Some_0;
                    let ghost ps = splitn_rec(Sep::Byte(44), true, v.inner@, 0, 3);
                    let fields = v.split_at_most(3, &Sep::Byte(44));
                    if fields.len() == 3 {
                        proof {
                            assert(is_piece(fields@[0], v.inner@, v.abs_start(), ps[0].0, ps[0].1));
                            assert(is_piece(fields@[1], v.inner@, v.abs_start(), ps[1].0, ps[1].1));
                            assert(is_piece(fields@[2], v.inner@, v.abs_start(), ps[2].0, ps[2].1));
                            assert(fields@[0].wf());
                            assert(fields@[1].wf());
                            assert(fields@[2].wf());
                        }
                        let rv = match rgb_channel(
                            fields[0],
                            Ghost(v.inner@),
                            Ghost(ps[0].0),
                            Ghost(ps[0].1),
                            Ghost(v.abs_start()),
                        ) {
                            Ok(c) => c,
                            Err(e) => {
                                return Err(e);
                            },
                        };
                        let gv = match rgb_channel(
                            fields[1],
                            Ghost(v.inner@),
                            Ghost(ps[1].0),
                            Ghost(ps[1].1),
                            Ghost(v.abs_start()),
                        ) {
                            Ok(c) => c,
                            Err(e) => {
                                return Err(e);
                            },
                        };
                        let bv = match rgb_channel(
                            fields[2],
                            Ghost(v.inner@),
                            Ghost(ps[2].0),
                            Ghost(ps[2].1),
                            Ghost(v.abs_start()),
                        ) {
                            Ok(c) => c,
                            Err(e) => {
                                return Err(e);
                            },
                        };
                        Ok(Color::Rgb { red: rv, green: gv, blue: bv })
                    } else {
                        let span = v.str_span();
                        Err(ColorError(
                            Spanned { inner: ColorErrorKind::InvalidFormat, span: Some(span) },
                        ))
                    }
                },
            }
        } else {
            Ok(Color::Name(value.inner))
        }
    }
}

} // verus!
