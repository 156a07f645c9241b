use libsrt::duration::Duration;
use libsrt::pattern::Reviewer;
use libsrt::spanned::Spanned;
use libsrt::subtitle::{InitError, SubtitleError, SubtitleInit};
use libsrt::subtitle_iterator::{assemble, SubtitleIterator};
use libsrt::tags::{ParsedTag, ParseTagError, ParseTagErrorKind};
use libsrt::span::Span;
use libsrt::text::Text;

#[test]
fn assembler_missing_text() {
    // a block with a counter and a duration but no text line fails the
    // assembler with the missing-text error
    let r = assemble(
        Some(1),
        Some((Duration::from_millis(6500), Duration::from_secs(9))),
        None,
    );
    assert_eq!(r, Some(Err(SubtitleError::MissingText)));
}

#[test]
fn assembler_missing_counter_and_duration() {
    let text = Text::new_spanned(b"hello", 0);
    assert_eq!(
        assemble(None, None, Some(text)),
        Some(Err(SubtitleError::MissingCounter))
    );
    assert_eq!(
        assemble(Some(1), None, Some(text)),
        Some(Err(SubtitleError::MissingDuration))
    );
    assert_eq!(assemble(None, None, None), None);
}

#[test]
fn assembler_rejects_zero_duration() {
    let text = Text::new_spanned(b"hello", 0);
    let at = Duration::from_secs(3);
    assert_eq!(
        assemble(Some(1), Some((at, at)), Some(text)),
        Some(Err(SubtitleError::Init(InitError::ZeroDuration)))
    );
}

#[test]
fn init_validates_fields() {
    assert_eq!(
        SubtitleInit {
            counter: 0,
            start: Duration::from_secs(1),
            duration: Duration::from_secs(0),
            text: Text::new_spanned(b"Example Subtitle", 0),
        }
        .init(),
        Err(InitError::ZeroDuration)
    );

    assert_eq!(
        SubtitleInit {
            counter: 0,
            start: Duration::from_secs(0),
            duration: Duration::from_secs(1),
            text: Text::new_spanned(b"", 0),
        }
        .init(),
        Err(InitError::MissingSubtitleText)
    );

    let ok = SubtitleInit {
        counter: 1,
        start: Duration::from_secs(1),
        duration: Duration::from_millis(1400),
        text: Text::new_spanned(b"Example Subtitle", 0),
    }
    .init()
    .unwrap();
    assert_eq!(ok.counter(), 1);
    assert_eq!(ok.start(), Duration::from_secs(1));
    assert_eq!(ok.duration(), Duration::from_millis(1400));
    assert_eq!(ok.text().as_raw(), b"Example Subtitle");
}

#[test]
fn zero_duration_block_is_rejected() {
    let string = "1\n00:00:01,000 --> 00:00:01,000\nSome text\n\n";
    let mut iterator = SubtitleIterator::new(string.as_bytes());
    assert_eq!(
        iterator.next(),
        Some(Err(SubtitleError::Init(InitError::ZeroDuration)))
    );
}

#[test]
fn bad_counter_then_missing_counter() {
    // a counter line that is no integer fails that block; the rest of the
    // block is then missing its counter
    let string = "x\n00:00:06,500 --> 00:00:09,000\nSome text\n\n";
    let mut iterator = SubtitleIterator::new(string.as_bytes());
    match iterator.next() {
        Some(Err(SubtitleError::Parser(_))) => {},
        other => panic!("expected a parser error, got {:?}", other),
    }
    assert_eq!(iterator.next(), Some(Err(SubtitleError::MissingCounter)));
}

#[test]
fn missing_brackets_error() {
    assert_eq!(
        ParsedTag::try_from(Spanned::new(b"plain")),
        Err(ParseTagError(
            Spanned::new(ParseTagErrorKind::MissingBrackets).with_span(Span::from_range(0, 5))
        ))
    );
}

#[test]
fn braced_tag_parses() {
    let tag = ParsedTag::try_from(Spanned::new(b"{i}")).unwrap();
    assert_eq!(tag, ParsedTag::new_open(b"i", libsrt::tags::TagKind::Braced, None));
}

#[test]
fn duration_arithmetic() {
    assert_eq!(Duration::from_hours(1), Duration::from_mins(60));
    assert_eq!(Duration::from_mins(1), Duration::from_secs(60));
    assert_eq!(Duration::from_secs(1), Duration::from_millis(1000));
    assert!(Duration::zero().is_zero());
    assert_eq!(
        Duration::from_secs(9).saturating_sub(Duration::from_millis(6500)),
        Duration::from_millis(2500)
    );
    assert_eq!(
        Duration::from_secs(1).saturating_sub(Duration::from_secs(2)),
        Duration::zero()
    );
}

#[test]
fn reviewer_toggles() {
    let mut reviewer = Reviewer::new(vec![b'\'', b'"']);
    assert!(!reviewer.partial());
    assert!(reviewer.visit(b'\''));
    assert!(reviewer.partial());
    assert!(!reviewer.visit(b'\''));
    assert!(!reviewer.partial());
    assert!(reviewer.visit(b'"'));
    assert!(!reviewer.visit(b'x'));
    assert!(reviewer.partial());
    reviewer.reset();
    assert!(!reviewer.partial());
}

#[test]
fn invalid_duration_line() {
    let string = "1\n00:00:06,500 -> 00:00:09,000\nSome text\n\n";
    let mut iterator = SubtitleIterator::new(string.as_bytes());
    match iterator.next() {
        Some(Err(SubtitleError::Parser(_))) => {},
        other => panic!("expected a parser error, got {:?}", other),
    }
}
