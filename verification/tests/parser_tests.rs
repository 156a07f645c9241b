use libsrt::duration::Duration;
use libsrt::num::ParseIntError;
use libsrt::parser::{parse_duration, Event, EventParser, ParserError, ParserErrorKind};
use libsrt::span::Span;
use libsrt::spanned::Spanned;
use libsrt::text::Text;

#[test]
fn test_parse_duration() {
    assert_eq!(
        parse_duration(Spanned::new(b"00:00:06,500")),
        Ok(Duration::from_millis(6500))
    );
    assert_eq!(
        parse_duration(Spanned::new(b"00:00:11,000")),
        Ok(Duration::from_secs(11))
    );
    assert_eq!(
        parse_duration(Spanned::new(b"00:00:11,00")),
        Ok(Duration::from_secs(11))
    );
    assert_eq!(
        parse_duration(Spanned::new(b"00:00:11,001")),
        Ok(Duration::from_millis(11001))
    );
    assert_eq!(
        parse_duration(Spanned::new(b"999:99:99,999")),
        Ok(Duration::from_millis(999 * 3600000 + 99 * 60000 + 99 * 1000 + 999))
    );
}

#[test]
fn test_parser_single_text() {
    let string = "1\n00:00:06,500 --> 00:00:09,000\nSingle line of Text\n\n";

    let mut parser = EventParser::new(string.as_bytes());

    assert_eq!(parser.next(), Some(Ok(Event::Counter(1))));
    assert_eq!(
        parser.next(),
        Some(Ok(Event::Duration {
            start: Duration::from_millis(6500),
            end: Duration::from_secs(9)
        }))
    );
    assert_eq!(
        parser.next(),
        Some(Ok(Event::Text(Text::new_spanned(b"Single line of Text", 32))))
    );
    assert_eq!(parser.next(), Some(Ok(Event::Empty)));
    assert_eq!(parser.next(), None);
}

#[test]
fn test_parser_multi_text() {
    let string = "1\n00:00:06,500 --> 00:00:09,000\nFirst Line of Text\nSecond Line of Text\n\n";

    let mut parser = EventParser::new(string.as_bytes());

    assert_eq!(parser.next(), Some(Ok(Event::Counter(1))));
    assert_eq!(
        parser.next(),
        Some(Ok(Event::Duration {
            start: Duration::from_millis(6500),
            end: Duration::from_secs(9)
        }))
    );
    assert_eq!(
        parser.next(),
        Some(Ok(Event::Text(Text::new_spanned(
            b"First Line of Text\nSecond Line of Text",
            32
        ))))
    );
    assert_eq!(parser.next(), Some(Ok(Event::Empty)));
    assert_eq!(parser.next(), None);
}

#[test]
fn test_parser_multi_text_multi() {
    let string = "1\n00:00:06,500 --> 00:00:09,000\nFirst Line of Text\nSecond Line of Text\r\n\n2\n00:00:09,500 --> 00:00:11,000\nThird Line of Text\nFourth Line of Text";

    let mut parser = EventParser::new(string.as_bytes());

    assert_eq!(parser.next(), Some(Ok(Event::Counter(1))));
    assert_eq!(
        parser.next(),
        Some(Ok(Event::Duration {
            start: Duration::from_millis(6500),
            end: Duration::from_secs(9)
        }))
    );
    assert_eq!(
        parser.next(),
        Some(Ok(Event::Text(Text::new_spanned(
            b"First Line of Text\nSecond Line of Text",
            32
        ))))
    );
    assert_eq!(parser.next(), Some(Ok(Event::Empty)));

    assert_eq!(parser.next(), Some(Ok(Event::Counter(2))));
    assert_eq!(
        parser.next(),
        Some(Ok(Event::Duration {
            start: Duration::from_millis(9500),
            end: Duration::from_secs(11)
        }))
    );
    assert_eq!(
        parser.next(),
        Some(Ok(Event::Text(Text::new_spanned(
            b"Third Line of Text\nFourth Line of Text",
            105
        ))))
    );
    assert_eq!(parser.next(), Some(Ok(Event::Empty)));
    assert_eq!(parser.next(), None);
}

#[test]
fn test_with_additional_space() {
    let string = "\n1\n00:00:06,500 --> 00:00:09,000\nFirst Line of Text\nSecond Line of Text\r\n\n\n2\n00:00:09,500 --> 00:00:11,000\nThird Line of Text\nFourth Line of Text\n\n";

    let mut parser = EventParser::new(string.as_bytes());

    assert_eq!(parser.next(), Some(Ok(Event::Empty)));
    assert_eq!(parser.next(), Some(Ok(Event::Counter(1))));
    assert_eq!(
        parser.next(),
        Some(Ok(Event::Duration {
            start: Duration::from_millis(6500),
            end: Duration::from_secs(9)
        }))
    );
    assert_eq!(
        parser.next(),
        Some(Ok(Event::Text(Text::new_spanned(
            b"First Line of Text\nSecond Line of Text",
            33
        ))))
    );
    assert_eq!(parser.next(), Some(Ok(Event::Empty)));
    assert_eq!(parser.next(), Some(Ok(Event::Empty)));

    assert_eq!(parser.next(), Some(Ok(Event::Counter(2))));
    assert_eq!(
        parser.next(),
        Some(Ok(Event::Duration {
            start: Duration::from_millis(9500),
            end: Duration::from_secs(11)
        }))
    );
    assert_eq!(
        parser.next(),
        Some(Ok(Event::Text(Text::new_spanned(
            b"Third Line of Text\nFourth Line of Text",
            107
        ))))
    );
    assert_eq!(parser.next(), Some(Ok(Event::Empty)));
    // the parser ignores additional empty lines at the very end of the
    // input and ends the sequence instead of yielding one more Empty
    assert_eq!(parser.next(), None);
}

#[test]
fn parse_duration_errors() {
    // a missing comma is an invalid duration blamed on the whole input
    assert_eq!(
        parse_duration(Spanned::new(b"00:00:06")),
        Err(ParserError(
            Spanned::new(ParserErrorKind::InvalidDuration).with_span(Span::from_range(0, 8))
        ))
    );

    // too few colons as well
    assert_eq!(
        parse_duration(Spanned::new(b"00:06,500")),
        Err(ParserError(
            Spanned::new(ParserErrorKind::InvalidDuration).with_span(Span::from_range(0, 9))
        ))
    );

    // a bad numeric field is blamed on that field's own span
    assert_eq!(
        parse_duration(Spanned::new(b"aa:00:06,500")),
        Err(ParserError(
            Spanned::new(ParserErrorKind::ParseIntError {
                source: ParseIntError::InvalidDigit
            })
            .with_span(Span::from_range(0, 2))
        ))
    );
    assert_eq!(
        parse_duration(Spanned::new(b"00:00:06,5x0")),
        Err(ParserError(
            Spanned::new(ParserErrorKind::ParseIntError {
                source: ParseIntError::InvalidDigit
            })
            .with_span(Span::from_range(9, 12))
        ))
    );
}
