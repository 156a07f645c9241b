use vstd::prelude::*;

use crate::duration::Duration;
use crate::parser::ParserError;
use crate::text::Text;

verus! {

/// Why a subtitle record could not be built from its fields.
#[derive(Debug, Clone, PartialEq, Eq)]
pub enum InitError {
    /// The caption text is empty.
    MissingSubtitleText,
    /// The duration is zero.
    ZeroDuration,
}

/// Why a subtitle record could not be produced from the input.
#[derive(Debug, Clone, PartialEq, Eq)]
pub enum SubtitleError {
    /// An event failed to parse.
    Parser(ParserError),
    /// The assembled fields were rejected.
    Init(InitError),
    /// A block ended without a time-range line.
    MissingDuration,
    /// A block ended without any caption text.
    MissingText,
    /// A block ended without a counter line.
    MissingCounter,
    /// The input holds no block at all.
    EmptyString,
    /// Two records carry the same counter.
    DuplicateEntry,
}

/// The fields of a subtitle record, to be validated by `init`.
#[derive(Debug, Clone, Copy, PartialEq, Eq)]
pub struct SubtitleInit<'a> {
    pub counter: usize,
    pub start: Duration,
    pub duration: Duration,
    pub text: Text<'a>,
}

impl<'a> SubtitleInit<'a> {
    /// Validates the fields and builds the record: the duration must not be
    /// zero and the caption text must not be empty.
    pub fn init(self) -> (r: Result<Subtitle<'a>, InitError>)
        ensures
            self.duration.millis == 0 ==> r == Err::<Subtitle, InitError>(InitError::ZeroDuration),
            self.duration.millis != 0 && self.text.text.inner@.len() == 0 ==> r == Err::<
                Subtitle,
                InitError,
            >(InitError::MissingSubtitleText),
            self.duration.millis != 0 && self.text.text.inner@.len() > 0 ==> (r matches Ok(sub)
                && sub.spec_counter() == self.counter && sub.spec_start() == self.start
                && sub.spec_duration() == self.duration && sub.spec_text() == self.text),
    {
        if self.duration.is_zero() {
            return Err(InitError::ZeroDuration);
        }
        if self.text.as_raw().len() == 0 {
            return Err(InitError::MissingSubtitleText);
        }
        Ok(Subtitle {
            counter: self.counter,
            start: self.start,
            duration: self.duration,
            text: self.text,
        })
    }
}

impl<'a> Default for SubtitleInit<'a> {
    /// Counter zero, zero durations, and empty spanless text.
    fn default() -> (r: SubtitleInit<'a>)
        ensures
            r.counter == 0,
            r.start.millis == 0,
            r.duration.millis == 0,
            r.text.text.inner@.len() == 0,
            r.text.text.span is None,
    {
        SubtitleInit {
            counter: 0,
            start: Duration { millis: 0 },
            duration: Duration { millis: 0 },
            text: Text { text: crate::spanned::Spanned { inner: &[], span: None } },
        }
    }
}

/// One validated subtitle record: a counter, a start time, a non-zero
/// duration and a non-empty caption text.  Built only through
/// `SubtitleInit::init`, so the validity of the fields always holds.
#[derive(Debug, Clone, PartialEq, Eq)]
pub struct Subtitle<'a> {
    counter: usize,
    start: Duration,
    duration: Duration,
    text: Text<'a>,
}

impl<'a> Subtitle<'a> {
    pub closed spec fn spec_counter(self) -> usize {
        self.counter
    }

    pub closed spec fn spec_start(self) -> Duration {
        self.start
    }

    pub closed spec fn spec_duration(self) -> Duration {
        self.duration
    }

    pub closed spec fn spec_text(self) -> Text<'a> {
        self.text
    }

    /// The counter this subtitle carries.
    pub fn counter(&self) -> (r: usize)
        ensures
            r == self.spec_counter(),
    {
        self.counter
    }

    /// The caption text of this subtitle.
    pub fn text(&self) -> (r: &Text<'a>)
        ensures
            r == self.spec_text(),
    {
        &self.text
    }

    /// When this subtitle starts.
    pub fn start(&self) -> (r: Duration)
        ensures
            r == self.spec_start(),
    {
        self.start
    }

    /// How long this subtitle stays on screen.
    pub fn duration(&self) -> (r: Duration)
        ensures
            r == self.spec_duration(),
    {
        self.duration
    }
}

} // verus!
