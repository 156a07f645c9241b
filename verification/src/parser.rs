use vstd::prelude::*;

use crate::duration::Duration;
use crate::lines::{lines_next_spec, Lines};
use crate::num::{parse_uint, ParseIntError};
use crate::pattern::Sep;
use crate::span::Span;
use crate::spanned::{trim_range, Spanned};
use crate::split::{
    first_match, is_piece, lemma_first_match_bounds, lemma_splitn_bounds, splitn_rec,
};
use crate::text::Text;

verus! {

/// What went wrong while parsing an event.
#[derive(Debug, Clone, PartialEq, Eq)]
pub enum ParserErrorKind {
    /// A field expected to hold an unsigned integer did not parse as one.
    ParseIntError { source: ParseIntError },
    /// A time-range line or a duration field had the wrong shape.
    InvalidDuration,
}

/// A parse failure, carrying the span of the offending substring of the
/// original input.
#[derive(Debug, Clone, PartialEq, Eq)]
pub struct ParserError(pub Spanned<ParserErrorKind>);

/// The integer-parse failure `source`, blamed on the absolute range
/// `lo..hi` of the input.
pub open spec fn parse_int_error_at(source: ParseIntError, lo: int, hi: int) -> ParserError {
    ParserError(
        Spanned {
            inner: ParserErrorKind::ParseIntError { source },
            span: Some(Span { start: lo as usize, length: (hi - lo) as usize }),
        },
    )
}

/// An invalid-duration failure, blamed on the absolute range `lo..hi`.
pub open spec fn invalid_duration_at(lo: int, hi: int) -> ParserError {
    ParserError(
        Spanned {
            inner: ParserErrorKind::InvalidDuration,
            span: Some(Span { start: lo as usize, length: (hi - lo) as usize }),
        },
    )
}

impl ParserError {
    pub fn new(kind: ParserErrorKind, span: Span) -> (r: ParserError)
        ensures
            r == ParserError(Spanned { inner: kind, span: Some(span) }),
    {
        ParserError(Spanned { inner: kind, span: Some(span) })
    }

    pub fn invalid_duration(span: Span) -> (r: ParserError)
        requires
            span.wf(),
        ensures
            r == invalid_duration_at(span.start as int, span.spec_end()),
            r == ParserError(
                Spanned { inner: ParserErrorKind::InvalidDuration, span: Some(span) },
            ),
    {
        ParserError(Spanned { inner: ParserErrorKind::InvalidDuration, span: Some(span) })
    }

    pub fn parse_int_error(source: ParseIntError, span: Span) -> (r: ParserError)
        requires
            span.wf(),
        ensures
            r == parse_int_error_at(source, span.start as int, span.spec_end()),
    {
        ParserError(Spanned { inner: ParserErrorKind::ParseIntError { source }, span: Some(span) })
    }
}

/// Which structural element of a block the parser expects next; the states
/// cycle `Counter -> Duration -> Text -> Empty -> Counter`.
#[derive(Debug, Clone, Copy, PartialEq, Eq, Hash, Structural)]
pub enum State {
    Counter,
    Duration,
    Text,
    Empty,
}

impl State {
    /// The state that follows this one.
    pub open spec fn spec_update(self) -> State {
        match self {
            State::Counter => State::Duration,
            State::Duration => State::Text,
            State::Text => State::Counter,
            State::Empty => State::Counter,
        }
    }

    /// Advances to the next state of the cycle.
    pub fn update(&mut self)
        ensures
            *final(self) == old(self).spec_update(),
    {
        match self {
            State::Counter => {
                *self = State::Duration;
            },
            State::Duration => {
                *self = State::Text;
            },
            State::Text => {
                *self = State::Counter;
            },
            State::Empty => {
                *self = State::Counter;
            },
        }
    }
}

/// One structural element of a block.
#[derive(Debug, Clone, PartialEq, Eq)]
pub enum Event<'a> {
    /// The block's sequence number.
    Counter(usize),
    /// The block's time range.
    Duration { start: Duration, end: Duration },
    /// The block's caption text; its span covers the whole multi-line
    /// substring, inner newlines included.
    Text(Text<'a>),
    /// An empty line, which signals that the block is finished.
    Empty,
}

/// The mathematical shape of an event: caption text as a range of the
/// input, durations as milliseconds.
pub enum EventModel {
    Counter(int),
    Duration { start: int, end: int },
    Text { lo: int, hi: int },
    Empty,
}

/// The event `e` carries exactly what the model `m` says, relative to the
/// input `s`.
pub open spec fn event_matches(e: Event, m: EventModel, s: Seq<u8>) -> bool {
    match m {
        EventModel::Counter(c) => e matches Event::Counter(ec) && ec as int == c,
        EventModel::Duration { start, end } => e matches Event::Duration {
            start: es,
            end: ee,
        } && es.millis == start && ee.millis == end,
        EventModel::Text { lo, hi } => e matches Event::Text(t) && is_piece(t.text, s, 0, lo, hi),
        EventModel::Empty => e matches Event::Empty,
    }
}

/// What parsing `s` (at absolute offset `base`) as `H:MM:SS,mmm` returns:
/// the first two `:`-separated fields and the remainder, the remainder
/// split once on `,`, each of the four fields read as a decimal integer,
/// and the whole summed into milliseconds.  A missing colon or comma is an
/// invalid duration blamed on the whole input; a bad field is an
/// integer-parse failure blamed on that field.
pub open spec fn parse_duration_spec(s: Seq<u8>, base: int) -> Result<int, ParserError> {
    let ps = splitn_rec(Sep::Byte(58), true, s, 0, 3);
    if ps.len() == 3 {
        let rest = s.subrange(ps[2].0, ps[2].1);
        match first_match(Sep::Byte(44), true, rest, 0) {
            None => Err(invalid_duration_at(base, base + s.len())),
            Some((c, l)) => {
                let rh = parse_uint(s.subrange(ps[0].0, ps[0].1), 10, u64::MAX as int);
                let rm = parse_uint(s.subrange(ps[1].0, ps[1].1), 10, u64::MAX as int);
                let rs = parse_uint(rest.subrange(0, c), 10, u64::MAX as int);
                let rms = parse_uint(rest.subrange(c + l, rest.len() as int), 10, u64::MAX as int);
                if rh is Err {
                    Err(parse_int_error_at(rh->Err_0, base + ps[0].0, base + ps[0].1))
                } else if rm is Err {
                    Err(parse_int_error_at(rm->Err_0, base + ps[1].0, base + ps[1].1))
                } else if rs is Err {
                    Err(parse_int_error_at(rs->Err_0, base + ps[2].0, base + ps[2].0 + c))
                } else if rms is Err {
                    Err(parse_int_error_at(rms->Err_0, base + ps[2].0 + c + l, base + ps[2].1))
                } else {
                    Ok(rh->Ok_0 * 3600000 + rm->Ok_0 * 60000 + rs->Ok_0 * 1000 + rms->Ok_0)
                }
            },
        }
    } else {
        Err(invalid_duration_at(base, base + s.len()))
    }
}

/// Parses a decimal field of a duration; a failure carries the field's
/// span.
fn parse_u64(string: Spanned<&[u8]>) -> (r: Result<u64, ParserError>)
    requires
        string.wf(),
    ensures
        match r {
            Ok(x) => parse_uint(string.inner@, 10, u64::MAX as int) == Ok::<int, ParseIntError>(
                x as int,
            ),
            Err(pe) => parse_uint(string.inner@, 10, u64::MAX as int) matches Err(e) && pe
                == ParserError(
                Spanned {
                    inner: ParserErrorKind::ParseIntError { source: e },
                    span: Some(string.str_span_spec()),
                },
            ),
        },
{
    match crate::num::parse_uint_bytes(string.inner, 10, u64::MAX) {
        Ok(v) => Ok(v),
        Err(e) => {
            let span = string.str_span();
            Err(ParserError(Spanned { inner: ParserErrorKind::ParseIntError { source: e }, span: Some(span) }))
        },
    }
}

/// Parses a position-tagged string of the form
/// `hours:minutes:seconds,milliseconds` into a duration: the sum of the
/// four fields, each field an unsigned decimal integer of any width.
pub fn parse_duration(input: Spanned<&[u8]>) -> (r: Result<Duration, ParserError>)
    requires
        input.wf(),
    ensures
        match parse_duration_spec(input.inner@, input.abs_start()) {
            Ok(ms) => r matches Ok(d) && d.millis == ms,
            Err(e) => r == Err::<Duration, ParserError>(e),
        },
{
    let ghost s = input.inner@;
    let ghost base = input.abs_start();
    proof {
        lemma_splitn_bounds(Sep::Byte(58), true, s, 0, 3);
    }
    let pieces = input.split_at_most(3, &Sep::Byte(58));
    if pieces.len() == 3 {
        let rest = pieces[2];
        let ghost ps = splitn_rec(Sep::Byte(58), true, s, 0, 3);
        proof {
            assert(is_piece(pieces@[0], s, base, ps[0].0, ps[0].1));
            assert(is_piece(pieces@[1], s, base, ps[1].0, ps[1].1));
            assert(is_piece(pieces@[2], s, base, ps[2].0, ps[2].1));
            assert(rest.wf());
        }
        let (sec_str, opt_ms) = rest.split_once(&Sep::Byte(44));
        match opt_ms {
            Some(ms_str) => {
                proof {
                    assert(rest.inner@ == s.subrange(ps[2].0, ps[2].1));
                    lemma_first_match_bounds(Sep::Byte(44), true, rest.inner@, 0);
                }
                let h = match parse_u64(pieces[0]) {
                    Ok(v) => v,
                    Err(e) => {
                        return Err(e);
                    },
                };
                let m = match parse_u64(pieces[1]) {
                    Ok(v) => v,
                    Err(e) => {
                        return Err(e);
                    },
                };
                let sec = match parse_u64(sec_str) {
                    Ok(v) => v,
                    Err(e) => {
                        return Err(e);
                    },
                };
                let ms = match parse_u64(ms_str) {
                    Ok(v) => v,
                    Err(e) => {
                        return Err(e);
                    },
                };
                let total: u128 = h as u128 * 3600000 + m as u128 * 60000 + sec as u128 * 1000
                    + ms as u128;
                proof {
                    let srest = s.subrange(ps[2].0, ps[2].1);
                    let cl = first_match(Sep::Byte(44), true, srest, 0)->Some_0;
                    assert(pieces@[0].inner@ == s.subrange(ps[0].0, ps[0].1));
                    assert(parse_uint(s.subrange(ps[0].0, ps[0].1), 10, u64::MAX as int) == Ok::<
                        int,
                        ParseIntError,
                    >(h as int));
                    assert(parse_uint(s.subrange(ps[1].0, ps[1].1), 10, u64::MAX as int) == Ok::<
                        int,
                        ParseIntError,
                    >(m as int));
                    assert(sec_str.inner@ == srest.subrange(0, cl.0));
                    assert(parse_uint(srest.subrange(0, cl.0), 10, u64::MAX as int) == Ok::<
                        int,
                        ParseIntError,
                    >(sec as int));
                    assert(ms_str.inner@ == srest.subrange(cl.0 + cl.1, srest.len() as int));
                    assert(parse_uint(
                        srest.subrange(cl.0 + cl.1, srest.len() as int),
                        10,
                        u64::MAX as int,
                    ) == Ok::<int, ParseIntError>(ms as int));
                    assert(total as int == (h as int) * 3600000 + (m as int) * 60000 + (
                    sec as int) * 1000 + (ms as int));
                }
                Ok(Duration { millis: total })
            },
            None => {
                let span = input.str_span();
                Err(ParserError(
                    Spanned { inner: ParserErrorKind::InvalidDuration, span: Some(span) },
                ))
            },
        }
    } else {
        let span = input.str_span();
        Err(ParserError(Spanned { inner: ParserErrorKind::InvalidDuration, span: Some(span) }))
    }
}

} // verus!

verus! {

/// Reads lines from position `pos` on until an empty line or the end of the
/// text, carrying along the absolute end offset of the last non-empty line
/// read; yields that offset (if any line was read) and the position after
/// the consumed lines.
pub open spec fn text_block_end(s: Seq<u8>, pos: int, acc: Option<int>) -> (Option<int>, int)
    decreases s.len() - pos,
    when 0 <= pos <= s.len()
{
    match lines_next_spec(s, pos) {
        None => (acc, pos),
        Some((lo, hi, p)) => {
            proof {
                if first_match(Sep::Line, false, s, pos) is Some {
                    lemma_first_match_bounds(Sep::Line, false, s, pos);
                }
            }
            if lo == hi {
                (acc, p)
            } else {
                text_block_end(s, p, Some(hi))
            }
        },
    }
}

/// What parsing the line `s[lo..hi]` as a block counter returns: the line
/// trimmed of surrounding whitespace, read as a decimal integer; a failure
/// is blamed on the trimmed range.
pub open spec fn parse_counter_line(s: Seq<u8>, lo: int, hi: int) -> Result<
    EventModel,
    ParserError,
> {
    let line = s.subrange(lo, hi);
    let t = trim_range(line);
    match parse_uint(s.subrange(lo + t.0, lo + t.1), 10, usize::MAX as int) {
        Ok(v) => Ok(EventModel::Counter(v)),
        Err(e) => Err(parse_int_error_at(e, lo + t.0, lo + t.1)),
    }
}

/// What parsing the line `s[lo..hi]` as a time range returns: the line
/// split once on `" --> "`, both halves read as durations; a missing
/// separator is an invalid duration blamed on the whole line.
pub open spec fn duration_line(s: Seq<u8>, lo: int, hi: int) -> Result<EventModel, ParserError> {
    let line = s.subrange(lo, hi);
    match first_match(Sep::Arrow, true, line, 0) {
        None => Err(invalid_duration_at(lo, hi)),
        Some((p, l)) => match parse_duration_spec(line.subrange(0, p), lo) {
            Err(e) => Err(e),
            Ok(d1) => match parse_duration_spec(
                line.subrange(p + l, line.len() as int),
                lo + p + l,
            ) {
                Err(e) => Err(e),
                Ok(d2) => Ok(EventModel::Duration { start: d1, end: d2 }),
            },
        },
    }
}

/// One step of the event parser at position `pos` in state `st`: the event
/// produced (none at the end of the input), the new position, and the new
/// state.
pub open spec fn next_event_spec(s: Seq<u8>, pos: int, st: State) -> (
    Option<Result<EventModel, ParserError>>,
    int,
    State,
) {
    if st == State::Empty {
        (Some(Ok(EventModel::Empty)), pos, State::Counter)
    } else if st == State::Counter {
        match lines_next_spec(s, pos) {
            None => (None, pos, State::Counter),
            Some((lo, hi, p)) => if lo == hi {
                (Some(Ok(EventModel::Empty)), p, State::Counter)
            } else {
                (Some(parse_counter_line(s, lo, hi)), p, State::Duration)
            },
        }
    } else if st == State::Duration {
        match lines_next_spec(s, pos) {
            None => (None, pos, State::Text),
            Some((lo, hi, p)) => (Some(duration_line(s, lo, hi)), p, State::Text),
        }
    } else {
        let r = text_block_end(s, pos, None);
        match r.0 {
            None => (None, r.1, State::Empty),
            Some(e) => (Some(Ok(EventModel::Text { lo: pos, hi: e })), r.1, State::Empty),
        }
    }
}

/// Parses a counter line's content; a failure carries the content's span.
fn parse_usize(string: Spanned<&[u8]>) -> (r: Result<usize, ParserError>)
    requires
        string.wf(),
    ensures
        match r {
            Ok(x) => parse_uint(string.inner@, 10, usize::MAX as int) == Ok::<int, ParseIntError>(
                x as int,
            ),
            Err(pe) => parse_uint(string.inner@, 10, usize::MAX as int) matches Err(e) && pe
                == ParserError(
                Spanned {
                    inner: ParserErrorKind::ParseIntError { source: e },
                    span: Some(string.str_span_spec()),
                },
            ),
        },
{
    match crate::num::parse_uint_bytes(string.inner, 10, usize::MAX as u64) {
        Ok(v) => Ok(v as usize),
        Err(e) => {
            let span = string.str_span();
            Err(ParserError(
                Spanned { inner: ParserErrorKind::ParseIntError { source: e }, span: Some(span) },
            ))
        },
    }
}

/// Parses each line of the input and produces one structured event per
/// step, cycling through the expected block structure.
#[derive(Debug)]
pub struct EventParser<'a> {
    pub lines: Lines<'a>,
    pub state: State,
}

impl<'a> EventParser<'a> {
    pub open spec fn wf(self) -> bool {
        &&& self.lines.wf()
        &&& self.lines.start == 0
    }

    pub fn new(text: &'a [u8]) -> (r: EventParser<'a>)
        requires
            text@.len() <= usize::MAX,
        ensures
            r.wf(),
            r.lines.text == text,
            r.lines.pos == 0,
            r.state == State::Counter,
    {
        EventParser { lines: Lines::new(text), state: State::Counter }
    }

    /// Performs one parse step: reads what the current state expects and
    /// emits the corresponding event, or an error tagged with the offending
    /// span; at the end of the input the sequence ends.
    #[verifier::rlimit(60)]
    pub fn next(&mut self) -> (r: Option<Result<Event<'a>, ParserError>>)
        requires
            old(self).wf(),
        ensures
            final(self).wf(),
            final(self).lines.text == old(self).lines.text,
            ({
                let step = next_event_spec(
                    old(self).lines.text@,
                    old(self).lines.pos as int,
                    old(self).state,
                );
                &&& final(self).lines.pos as int == step.1
                &&& final(self).state == step.2
                &&& match step.0 {
                    None => r is None,
                    Some(res) => match res {
                        Ok(m) => r matches Some(rr) && rr matches Ok(e) && event_matches(
                            e,
                            m,
                            old(self).lines.text@,
                        ),
                        Err(pe) => r matches Some(rr) && rr matches Err(pe2) && pe2 == pe,
                    },
                }
            }),
    {
        let ghost s = self.lines.text@;
        let start_index = self.lines.index();
        if self.state == State::Empty {
            self.state.update();
            return Some(Ok(Event::Empty));
        }
        match self.state {
            State::Counter => {
                let line = match self.lines.next() {
                    Some(l) => l,
                    None => {
                        return None;
                    },
                };
                proof {
                    if first_match(Sep::Line, false, s, old(self).lines.pos as int) is Some {
                        lemma_first_match_bounds(Sep::Line, false, s, old(self).lines.pos as int);
                    }
                }
                if line.inner.len() == 0 {
                    return Some(Ok(Event::Empty));
                }
                self.state.update();
                proof {
                    assert(line.wf());
                }
                let trimmed = line.trim();
                proof {
                    let step = lines_next_spec(s, old(self).lines.pos as int)->Some_0;
                    let tr = trim_range(line.inner@);
                    crate::spanned::lemma_trim_range_bounds(line.inner@);
                    assert(trimmed.inner@ =~= s.subrange(step.0 + tr.0, step.0 + tr.1));
                }
                match parse_usize(trimmed) {
                    Ok(v) => Some(Ok(Event::Counter(v))),
                    Err(e) => Some(Err(e)),
                }
            },
            State::Duration => {
                self.state.update();
                let line = match self.lines.next() {
                    Some(l) => l,
                    None => {
                        return None;
                    },
                };
                proof {
                    if first_match(Sep::Line, false, s, old(self).lines.pos as int) is Some {
                        lemma_first_match_bounds(Sep::Line, false, s, old(self).lines.pos as int);
                    }
                    assert(line.wf());
                }
                let (start_str, opt_end) = line.split_once(&Sep::Arrow);
                match opt_end {
                    Some(end_str) => {
                        proof {
                            if first_match(Sep::Arrow, true, line.inner@, 0) is Some {
                                lemma_first_match_bounds(Sep::Arrow, true, line.inner@, 0);
                            }
                            assert(start_str.wf());
                            assert(end_str.wf());
                        }
                        let start = match parse_duration(start_str) {
                            Ok(v) => v,
                            Err(e) => {
                                return Some(Err(e));
                            },
                        };
                        let end = match parse_duration(end_str) {
                            Ok(v) => v,
                            Err(e) => {
                                return Some(Err(e));
                            },
                        };
                        Some(Ok(Event::Duration { start, end }))
                    },
                    None => {
                        let span = line.str_span();
                        Some(Err(ParserError(
                            Spanned { inner: ParserErrorKind::InvalidDuration, span: Some(span) },
                        )))
                    },
                }
            },
            State::Text => {
                self.state = State::Empty;
                let ghost pos0 = old(self).lines.pos as int;
                let mut range_end: Option<usize> = None;
                let mut done = false;
                while !done
                    invariant
                        self.lines.wf(),
                        self.lines.text == old(self).lines.text,
                        self.lines.start == 0,
                        self.state == State::Empty,
                        pos0 <= self.lines.pos as int,
                        match range_end {
                            Some(e) => pos0 <= e as int <= s.len(),
                            None => true,
                        },
                        !done ==> text_block_end(s, pos0, None) == text_block_end(
                            s,
                            self.lines.pos as int,
                            match range_end {
                                Some(e) => Some(e as int),
                                None => None,
                            },
                        ),
                        done ==> text_block_end(s, pos0, None) == (
                            match range_end {
                                Some(e) => Some(e as int),
                                None => None,
                            },
                            self.lines.pos as int,
                        ),
                    decreases s.len() - self.lines.pos + if done {
                        0int
                    } else {
                        1int
                    },
                {
                    let ghost cur = self.lines.pos as int;
                    match self.lines.next() {
                        None => {
                            done = true;
                        },
                        Some(line) => {
                            proof {
                                if first_match(Sep::Line, false, s, cur) is Some {
                                    lemma_first_match_bounds(Sep::Line, false, s, cur);
                                }
                            }
                            if line.inner.len() == 0 {
                                done = true;
                            } else {
                                let sp = line.str_span();
                                range_end = Some(sp.start + sp.length);
                            }
                        },
                    }
                }
                match range_end {
                    None => None,
                    Some(e) => {
                        match self.lines.get(start_index, e) {
                            Some(piece) => Some(Ok(Event::Text(Text { text: piece }))),
                            None => None,
                        }
                    },
                }
            },
            State::Empty => {
                self.state.update();
                Some(Ok(Event::Empty))
            },
        }
    }
}

} // verus!

verus! {

/// Reading a text block never moves the cursor backward, and an offset it
/// yields lies within the text; a block that yields an offset consumed at
/// least one line.
pub proof fn lemma_text_block_bounds(s: Seq<u8>, pos: int, acc: Option<int>)
    requires
        0 <= pos <= s.len(),
        match acc {
            Some(a) => 0 <= a <= s.len(),
            None => true,
        },
    ensures
        ({
            let r = text_block_end(s, pos, acc);
            &&& pos <= r.1 <= s.len()
            &&& match r.0 {
                Some(e) => 0 <= e <= s.len() && (acc == Some(e) || pos < e),
                None => acc is None,
            }
            &&& (acc is None && r.0 is Some ==> r.1 > pos)
        }),
    decreases s.len() - pos,
{
    crate::lines::lemma_lines_next_bounds(s, pos);
    match lines_next_spec(s, pos) {
        None => {},
        Some((lo, hi, p)) => {
            if lo == hi {
            } else {
                lemma_text_block_bounds(s, p, Some(hi));
            }
        },
    }
}

/// One parse step never moves the cursor backward; it stands still only at
/// the end of the input or when the pending empty event is delivered.
pub proof fn lemma_next_event_bounds(s: Seq<u8>, pos: int, st: State)
    requires
        0 <= pos <= s.len(),
    ensures
        ({
            let step = next_event_spec(s, pos, st);
            &&& pos <= step.1 <= s.len()
            &&& (st == State::Empty ==> step.1 == pos && step.2 == State::Counter)
            &&& (st != State::Empty && step.0 is Some ==> step.1 > pos)
            &&& match step.0 {
                Some(res) => match res {
                    Ok(m) => match m {
                        EventModel::Text { lo, hi } => 0 <= lo <= hi <= s.len(),
                        _ => true,
                    },
                    _ => true,
                },
                None => true,
            }
        }),
{
    crate::lines::lemma_lines_next_bounds(s, pos);
    if st == State::Text {
        lemma_text_block_bounds(s, pos, None);
    }
}

} // verus!

verus! {

/// Every well-formed `hours:minutes:seconds,milliseconds` string parses to
/// the exact sum of its four fields weighted by their units: each field a
/// non-empty run of decimal digits whose value fits 64 bits, the result
/// `hours * 3600000 + minutes * 60000 + seconds * 1000 + milliseconds`
/// milliseconds.
pub proof fn lemma_parse_duration_round_trip(
    h: Seq<u8>,
    m: Seq<u8>,
    sec: Seq<u8>,
    ms: Seq<u8>,
    base: int,
)
    requires
        h.len() > 0 && crate::num::all_dec_digits(h) && crate::num::dec_value(h) <= u64::MAX,
        m.len() > 0 && crate::num::all_dec_digits(m) && crate::num::dec_value(m) <= u64::MAX,
        sec.len() > 0 && crate::num::all_dec_digits(sec) && crate::num::dec_value(sec)
            <= u64::MAX,
        ms.len() > 0 && crate::num::all_dec_digits(ms) && crate::num::dec_value(ms) <= u64::MAX,
    ensures
        ({
            let s = h + seq![58u8] + m + seq![58u8] + sec + seq![44u8] + ms;
            parse_duration_spec(s, base) == Ok::<int, ParserError>(
                crate::num::dec_value(h) * 3600000 + crate::num::dec_value(m) * 60000
                    + crate::num::dec_value(sec) * 1000 + crate::num::dec_value(ms),
            )
        }),
{
    let s = h + seq![58u8] + m + seq![58u8] + sec + seq![44u8] + ms;
    let hl = h.len() as int;
    let ml = m.len() as int;
    let sl = sec.len() as int;
    let p2 = hl + 1 + ml;
    assert(forall|j: int|
        0 <= j < s.len() ==> s[j] != crate::pattern::QUOTE_SINGLE && s[j]
            != crate::pattern::QUOTE_DOUBLE && (48 <= s[j] <= 57 || s[j] == 58 || s[j] == 44));
    assert(s[hl] == 58);
    assert(forall|j: int| 0 <= j < hl ==> s[j] == h[j] && s[j] != 58);
    crate::split::lemma_first_match_byte_at(s, 58, 0, hl);
    assert(s[p2] == 58);
    assert(forall|j: int| hl + 1 <= j < p2 ==> s[j] == m[j - (hl + 1)] && s[j] != 58);
    crate::split::lemma_first_match_byte_at(s, 58, hl + 1, p2);
    let ps = splitn_rec(Sep::Byte(58), true, s, 0, 3);
    assert(splitn_rec(Sep::Byte(58), true, s, p2 + 1, 1) =~= seq![(p2 + 1, s.len() as int)]);
    assert(splitn_rec(Sep::Byte(58), true, s, hl + 1, 2) =~= seq![(hl + 1, p2)] + splitn_rec(
        Sep::Byte(58),
        true,
        s,
        p2 + 1,
        1,
    ));
    assert(ps =~= seq![(0int, hl), (hl + 1, p2), (p2 + 1, s.len() as int)]);
    let rest = s.subrange(p2 + 1, s.len() as int);
    assert(rest =~= sec + seq![44u8] + ms);
    assert(forall|j: int|
        0 <= j < rest.len() ==> rest[j] != crate::pattern::QUOTE_SINGLE && rest[j]
            != crate::pattern::QUOTE_DOUBLE);
    assert(rest[sl] == 44);
    assert(forall|j: int| 0 <= j < sl ==> rest[j] == sec[j] && rest[j] != 44);
    crate::split::lemma_first_match_byte_at(rest, 44, 0, sl);
    assert(s.subrange(0, hl) =~= h);
    assert(s.subrange(hl + 1, p2) =~= m);
    assert(rest.subrange(0, sl) =~= sec);
    assert(rest.subrange(sl + 1, rest.len() as int) =~= ms);
    crate::num::lemma_parse_uint_digits(h, u64::MAX as int);
    crate::num::lemma_parse_uint_digits(m, u64::MAX as int);
    crate::num::lemma_parse_uint_digits(sec, u64::MAX as int);
    crate::num::lemma_parse_uint_digits(ms, u64::MAX as int);
}

} // verus!
