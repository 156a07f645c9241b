use vstd::prelude::*;

use crate::duration::Duration;
use crate::parser::{
    lemma_next_event_bounds, next_event_spec, Event, EventModel, EventParser, ParserError, State,
};
use crate::split::is_piece;
use crate::subtitle::{InitError, Subtitle, SubtitleError, SubtitleInit};
use crate::text::Text;

verus! {

/// The mathematical shape of a subtitle record: times as milliseconds,
/// caption text as a range of the input.
pub struct SubtitleModel {
    pub counter: int,
    pub start: int,
    pub duration: int,
    pub lo: int,
    pub hi: int,
}

/// The record `sub` carries exactly what the model `m` says, relative to
/// the input `s`.
pub open spec fn subtitle_matches(sub: Subtitle, m: SubtitleModel, s: Seq<u8>) -> bool {
    &&& sub.spec_counter() as int == m.counter
    &&& sub.spec_start().millis == m.start
    &&& sub.spec_duration().millis == m.duration
    &&& is_piece(sub.spec_text().text, s, 0, m.lo, m.hi)
}

/// Breaks the tie for the termination measure of the assembler: delivering
/// the pending empty event stands still, every other step consumes input.
pub open spec fn state_rank(st: State) -> int {
    if st == State::Empty {
        1
    } else {
        0
    }
}

/// What the assembler yields next, given the parser position and state and
/// the fields gathered since the last record: events are folded until an
/// empty line closes the block.  A block with all three fields becomes a
/// record (validated: non-zero duration, non-empty text, the duration
/// being the end time minus the start time, clamped at zero); a block with
/// only some fields fails, blaming the first absent field in the order
/// counter, duration, text; an empty line before any field is padding and
/// is skipped.
pub open spec fn next_subtitle_spec(
    s: Seq<u8>,
    pos: int,
    st: State,
    c: Option<int>,
    d: Option<(int, int)>,
    t: Option<(int, int)>,
) -> (Option<Result<SubtitleModel, SubtitleError>>, int, State)
    decreases s.len() - pos, state_rank(st),
    when 0 <= pos <= s.len()
{
    let step = next_event_spec(s, pos, st);
    proof {
        lemma_next_event_bounds(s, pos, st);
    }
    match step.0 {
        None => (None, step.1, step.2),
        Some(res) => match res {
            Err(e) => (Some(Err(SubtitleError::Parser(e))), step.1, step.2),
            Ok(ev) => match ev {
                EventModel::Counter(n) => next_subtitle_spec(s, step.1, step.2, Some(n), d, t),
                EventModel::Duration { start, end } => next_subtitle_spec(
                    s,
                    step.1,
                    step.2,
                    c,
                    Some((start, end)),
                    t,
                ),
                EventModel::Text { lo, hi } => next_subtitle_spec(
                    s,
                    step.1,
                    step.2,
                    c,
                    d,
                    Some((lo, hi)),
                ),
                EventModel::Empty => {
                    if c is None && d is None && t is None {
                        next_subtitle_spec(s, step.1, step.2, None, None, None)
                    } else if c is Some && d is Some && t is Some {
                        let dd = d->Some_0;
                        let tt = t->Some_0;
                        let dur = if dd.1 > dd.0 {
                            dd.1 - dd.0
                        } else {
                            0int
                        };
                        if dur == 0 {
                            (
                                Some(Err(SubtitleError::Init(InitError::ZeroDuration))),
                                step.1,
                                step.2,
                            )
                        } else if tt.1 - tt.0 == 0 {
                            (
                                Some(Err(SubtitleError::Init(InitError::MissingSubtitleText))),
                                step.1,
                                step.2,
                            )
                        } else {
                            (
                                Some(
                                    Ok(
                                        SubtitleModel {
                                            counter: c->Some_0,
                                            start: dd.0,
                                            duration: dur,
                                            lo: tt.0,
                                            hi: tt.1,
                                        },
                                    ),
                                ),
                                step.1,
                                step.2,
                            )
                        }
                    } else if c is None {
                        (Some(Err(SubtitleError::MissingCounter)), step.1, step.2)
                    } else if d is None {
                        (Some(Err(SubtitleError::MissingDuration)), step.1, step.2)
                    } else {
                        (Some(Err(SubtitleError::MissingText)), step.1, step.2)
                    }
                },
            },
        },
    }
}

/// Folds one finished block's gathered fields into a record.  All three
/// fields absent is pre-block padding and yields nothing; all three
/// present builds the record, whose duration is the end time minus the
/// start time (clamped at zero) and is validated by `SubtitleInit::init`;
/// anything in between fails, blaming the first absent field in the order
/// counter, duration, text.
pub fn assemble<'a>(
    counter: Option<usize>,
    duration: Option<(Duration, Duration)>,
    text: Option<Text<'a>>,
) -> (r: Option<Result<Subtitle<'a>, SubtitleError>>)
    ensures
        counter is None && duration is None && text is None ==> r is None,
        counter is None && !(duration is None && text is None) ==> r == Some(
            Err::<Subtitle<'a>, SubtitleError>(SubtitleError::MissingCounter),
        ),
        counter is Some && duration is None && text is Some ==> r == Some(
            Err::<Subtitle<'a>, SubtitleError>(SubtitleError::MissingDuration),
        ),
        counter is Some && duration is Some && text is None ==> r == Some(
            Err::<Subtitle<'a>, SubtitleError>(SubtitleError::MissingText),
        ),
        counter is Some && duration is None && text is None ==> r == Some(
            Err::<Subtitle<'a>, SubtitleError>(SubtitleError::MissingDuration),
        ),
        match (counter, duration, text) {
            (Some(c), Some((start, end)), Some(t)) => {
                let dur = if end.millis > start.millis {
                    end.millis - start.millis
                } else {
                    0int
                };
                if dur == 0 {
                    r == Some(
                        Err::<Subtitle<'a>, SubtitleError>(
                            SubtitleError::Init(InitError::ZeroDuration),
                        ),
                    )
                } else if t.text.inner@.len() == 0 {
                    r == Some(
                        Err::<Subtitle<'a>, SubtitleError>(
                            SubtitleError::Init(InitError::MissingSubtitleText),
                        ),
                    )
                } else {
                    r matches Some(rr) && rr matches Ok(sub) && sub.spec_counter() == c
                        && sub.spec_start() == start && sub.spec_duration().millis == dur
                        && sub.spec_text() == t
                }
            },
            _ => true,
        },
{
    if counter.is_none() && duration.is_none() && text.is_none() {
        return None;
    }
    match (counter, duration, text) {
        (Some(c), Some((start, end)), Some(t)) => {
            let dur = end.saturating_sub(start);
            let built = SubtitleInit { counter: c, start, duration: dur, text: t }.init();
            match built {
                Ok(v) => Some(Ok(v)),
                Err(e) => Some(Err(SubtitleError::Init(e))),
            }
        },
        _ => {
            if counter.is_none() {
                Some(Err(SubtitleError::MissingCounter))
            } else if duration.is_none() {
                Some(Err(SubtitleError::MissingDuration))
            } else {
                Some(Err(SubtitleError::MissingText))
            }
        },
    }
}

/// Folds the event stream into validated subtitle records, one
/// `Empty`-delimited block at a time.
#[derive(Debug)]
pub struct SubtitleIterator<'a> {
    pub parser: EventParser<'a>,
}

impl<'a> SubtitleIterator<'a> {
    pub open spec fn wf(self) -> bool {
        self.parser.wf()
    }

    pub fn new(text: &'a [u8]) -> (r: SubtitleIterator<'a>)
        requires
            text@.len() <= usize::MAX,
        ensures
            r.wf(),
            r.parser.lines.text == text,
            r.parser.lines.pos == 0,
            r.parser.state == State::Counter,
    {
        SubtitleIterator { parser: EventParser::new(text) }
    }

    /// Assembles the next record: pulls events, keeping the most recent
    /// counter, time range and caption text, and closes the block at the
    /// next empty line; a failed block is reported as one failed item and
    /// pulling may continue.
    pub fn next(&mut self) -> (r: Option<Result<Subtitle<'a>, SubtitleError>>)
        requires
            old(self).wf(),
        ensures
            final(self).wf(),
            final(self).parser.lines.text == old(self).parser.lines.text,
            ({
                let step = next_subtitle_spec(
                    old(self).parser.lines.text@,
                    old(self).parser.lines.pos as int,
                    old(self).parser.state,
                    None,
                    None,
                    None,
                );
                &&& final(self).parser.lines.pos as int == step.1
                &&& final(self).parser.state == step.2
                &&& match step.0 {
                    None => r is None,
                    Some(res) => match res {
                        Ok(m) => r matches Some(rr) && rr matches Ok(sub) && subtitle_matches(
                            sub,
                            m,
                            old(self).parser.lines.text@,
                        ),
                        Err(e) => r matches Some(rr) && rr matches Err(e2) && e2 == e,
                    },
                }
            }),
    {
        let ghost s = self.parser.lines.text@;
        let ghost pos0 = self.parser.lines.pos as int;
        let ghost st0 = self.parser.state;
        let mut counter: Option<usize> = None;
        let mut duration: Option<(Duration, Duration)> = None;
        let mut text: Option<Text<'a>> = None;
        loop
            invariant
                self.wf(),
                self.parser.lines.text@ == s,
                self.parser.lines.text == old(self).parser.lines.text,
                match text {
                    Some(t) => is_piece(t.text, s, 0, t.text.abs_start(), t.text.abs_end()),
                    None => true,
                },
                next_subtitle_spec(s, pos0, st0, None, None, None) == next_subtitle_spec(
                    s,
                    self.parser.lines.pos as int,
                    self.parser.state,
                    match counter {
                        Some(c) => Some(c as int),
                        None => None,
                    },
                    match duration {
                        Some(d) => Some((d.0.millis as int, d.1.millis as int)),
                        None => None,
                    },
                    match text {
                        Some(t) => Some((t.text.abs_start(), t.text.abs_end())),
                        None => None,
                    },
                ),
            decreases s.len() - self.parser.lines.pos, state_rank(self.parser.state),
        {
            let ghost cur_pos = self.parser.lines.pos as int;
            let ghost cur_st = self.parser.state;
            proof {
                lemma_next_event_bounds(s, cur_pos, cur_st);
            }
            match self.parser.next() {
                None => {
                    return None;
                },
                Some(Err(e)) => {
                    return Some(Err(SubtitleError::Parser(e)));
                },
                Some(Ok(event)) => {
                    match event {
                        Event::Counter(c) => {
                            counter = Some(c);
                        },
                        Event::Duration { start, end } => {
                            duration = Some((start, end));
                        },
                        Event::Text(t) => {
                            text = Some(t);
                        },
                        Event::Empty => {
                            match assemble(counter, duration, text) {
                                None => {
                                    // padding before a block: keep pulling
                                },
                                Some(outcome) => {
                                    return Some(outcome);
                                },
                            }
                        },
                    }
                },
            }
        }
    }
}

impl<'a> Subtitle<'a> {
    /// Parses a single complete block directly: the first record of the
    /// input, or `EmptyString` when the input holds no block at all.
    pub fn try_from(input: &'a [u8]) -> (r: Result<Subtitle<'a>, SubtitleError>)
        requires
            input@.len() <= usize::MAX,
        ensures
            ({
                let step = next_subtitle_spec(input@, 0, State::Counter, None, None, None);
                match step.0 {
                    None => r == Err::<Subtitle, SubtitleError>(SubtitleError::EmptyString),
                    Some(res) => match res {
                        Ok(m) => r matches Ok(sub) && subtitle_matches(sub, m, input@),
                        Err(e) => r matches Err(e2) && e2 == e,
                    },
                }
            }),
    {
        let mut iterator = SubtitleIterator::new(input);
        match iterator.next() {
            None => Err(SubtitleError::EmptyString),
            Some(Ok(sub)) => Ok(sub),
            Some(Err(e)) => Err(e),
        }
    }
}

} // verus!
