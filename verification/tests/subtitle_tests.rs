use libsrt::duration::Duration;
use libsrt::subtitle::{Subtitle, SubtitleError, SubtitleInit};
use libsrt::subtitle_iterator::SubtitleIterator;
use libsrt::text::Text;

#[test]
fn test_from_empty_string() {
    assert_eq!(Subtitle::try_from(b""), Err(SubtitleError::EmptyString));
}

#[test]
fn test_try_from_str() {
    assert_eq!(
        Subtitle::try_from(
            "1\n00:00:01,600 --> 00:00:04,200\nEnglish (US)\n".as_bytes()
        ),
        Ok(SubtitleInit {
            counter: 1,
            start: Duration::from_millis(1600),
            duration: Duration::from_millis(4200 - 1600),
            text: Text::new_spanned(b"English (US)", 32),
        }
        .init()
        .unwrap())
    );

    assert_eq!(
        Subtitle::try_from(
            "2\n00:00:05,900 --> 00:00:07,999\nThis is a subtitle in American English\n"
            .as_bytes()
        ),
        Ok(SubtitleInit {
            counter: 2,
            start: Duration::from_millis(5900),
            duration: Duration::from_millis(2099),
            text: Text::new_spanned(b"This is a subtitle in American English", 32),
        }
        .init()
        .unwrap())
    );

    assert_eq!(
        Subtitle::try_from(
            "3\n00:00:10,000 --> 00:00:14,000\nAdding subtitles is very easy to do"
            .as_bytes()
        ),
        Ok(SubtitleInit {
            counter: 3,
            start: Duration::from_secs(10),
            duration: Duration::from_secs(14 - 10),
            text: Text::new_spanned(b"Adding subtitles is very easy to do", 32),
        }
        .init()
        .unwrap())
    );
}

#[test]
fn subtitle_sequence_single_record() {
    // the whole record sequence of one simple block: exactly one record
    let string = "1\n00:00:06,500 --> 00:00:09,000\nSingle line of Text\n\n";
    let mut iterator = SubtitleIterator::new(string.as_bytes());

    let expected = SubtitleInit {
        counter: 1,
        start: Duration::from_millis(6500),
        duration: Duration::from_millis(2500),
        text: Text::new_spanned(b"Single line of Text", 32),
    }
    .init()
    .unwrap();
    assert_eq!(iterator.next(), Some(Ok(expected)));
    assert_eq!(iterator.next(), None);
}
