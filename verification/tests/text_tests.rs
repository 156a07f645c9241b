use libsrt::attributes::Attributes;
use libsrt::tags::{ParsedTag, TagKind};
use libsrt::text::{Text, TextEvent};

#[test]
fn test_text_iter() {
    let raw = "<font color=#AABBCC>text with color #AABBCC</font>\n<b>fat text</b><i><u>underlined and italic text</i>underlined text</u>";
    let mut iterator = Text::new(raw.as_bytes()).into_iter();

    assert_eq!(
        iterator.next(),
        Some(Ok(TextEvent::Tag(ParsedTag::new_open(
            b"font",
            TagKind::AngularBrackets,
            Some(Attributes::new_spanned(b"color=#AABBCC", 6))
        ))))
    );
    assert_eq!(iterator.next(), Some(Ok(TextEvent::Text(b"text with color #AABBCC"))));
    assert_eq!(
        iterator.next(),
        Some(Ok(TextEvent::Tag(ParsedTag::new_closed(
            b"font",
            TagKind::AngularBrackets,
            None
        ))))
    );
    assert_eq!(iterator.next(), Some(Ok(TextEvent::Text(b"\n"))));
    assert_eq!(
        iterator.next(),
        Some(Ok(TextEvent::Tag(ParsedTag::new_open(b"b", TagKind::AngularBrackets, None))))
    );
    assert_eq!(iterator.next(), Some(Ok(TextEvent::Text(b"fat text"))));
    assert_eq!(
        iterator.next(),
        Some(Ok(TextEvent::Tag(ParsedTag::new_closed(b"b", TagKind::AngularBrackets, None))))
    );
    assert_eq!(
        iterator.next(),
        Some(Ok(TextEvent::Tag(ParsedTag::new_open(b"i", TagKind::AngularBrackets, None))))
    );
    assert_eq!(
        iterator.next(),
        Some(Ok(TextEvent::Tag(ParsedTag::new_open(b"u", TagKind::AngularBrackets, None))))
    );
    assert_eq!(iterator.next(), Some(Ok(TextEvent::Text(b"underlined and italic text"))));
    assert_eq!(
        iterator.next(),
        Some(Ok(TextEvent::Tag(ParsedTag::new_closed(b"i", TagKind::AngularBrackets, None))))
    );
    assert_eq!(iterator.next(), Some(Ok(TextEvent::Text(b"underlined text"))));
    assert_eq!(
        iterator.next(),
        Some(Ok(TextEvent::Tag(ParsedTag::new_closed(b"u", TagKind::AngularBrackets, None))))
    );
    assert_eq!(iterator.next(), None);
}

#[test]
fn test_text_iter_ignore() {
    let raw = "<font color=\"<\">text></font>\n<<b>fat> text</<b>";
    let mut iterator = Text::new(raw.as_bytes()).into_iter();

    assert_eq!(
        iterator.next(),
        Some(Ok(TextEvent::Tag(ParsedTag::new_open(
            b"font",
            TagKind::AngularBrackets,
            Some(Attributes::new_spanned(b"color=\"<\"", 6))
        ))))
    );
    assert_eq!(iterator.next(), Some(Ok(TextEvent::Text(b"text>"))));
    assert_eq!(
        iterator.next(),
        Some(Ok(TextEvent::Tag(ParsedTag::new_closed(
            b"font",
            TagKind::AngularBrackets,
            None
        ))))
    );
    assert_eq!(iterator.next(), Some(Ok(TextEvent::Text(b"\n"))));
    assert_eq!(
        iterator.next(),
        Some(Ok(TextEvent::Tag(ParsedTag::new_open(b"<b", TagKind::AngularBrackets, None))))
    );
    assert_eq!(iterator.next(), Some(Ok(TextEvent::Text(b"fat> text"))));
    assert_eq!(
        iterator.next(),
        Some(Ok(TextEvent::Tag(ParsedTag::new_closed(b"<b", TagKind::AngularBrackets, None))))
    );

    assert_eq!(iterator.next(), None);
}

#[test]
fn test_text_iter_quoted_string() {
    let mut iterator = Text::new(b"<font color=\">\">text></font>").into_iter();

    assert_eq!(
        iterator.next(),
        Some(Ok(TextEvent::Tag(ParsedTag::new_open(
            b"font",
            TagKind::AngularBrackets,
            Some(Attributes::new_spanned(b"color=\">\"", 6))
        ))))
    );
    assert_eq!(iterator.next(), Some(Ok(TextEvent::Text(b"text>"))));
    assert_eq!(
        iterator.next(),
        Some(Ok(TextEvent::Tag(ParsedTag::new_closed(
            b"font",
            TagKind::AngularBrackets,
            None
        ))))
    );

    assert_eq!(iterator.next(), None);
}

#[test]
fn tokenize_bold_text() {
    // tokenizing "<b>fat text</b>" yields open tag, plain text, close tag
    let mut iterator = Text::new(b"<b>fat text</b>").into_iter();

    assert_eq!(
        iterator.next(),
        Some(Ok(TextEvent::Tag(ParsedTag::new_open(b"b", TagKind::AngularBrackets, None))))
    );
    assert_eq!(iterator.next(), Some(Ok(TextEvent::Text(b"fat text"))));
    assert_eq!(
        iterator.next(),
        Some(Ok(TextEvent::Tag(ParsedTag::new_closed(b"b", TagKind::AngularBrackets, None))))
    );
    assert_eq!(iterator.next(), None);
}

#[test]
fn text_as_raw() {
    let text = Text::new(b"<b>example text</b>");
    assert_eq!(text.as_raw(), b"<b>example text</b>");
}
