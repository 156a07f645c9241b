use libsrt::attributes::{Attribute, ParseAttributeError, ParseAttributeErrorKind};
use libsrt::serialize::SerializeToString;
use libsrt::span::Span;
use libsrt::spanned::Spanned;

#[test]
fn test_parse_attribute() {
    assert_eq!(
        Attribute::try_from(Spanned::new(b"key=value")),
        Ok(Attribute::new(b"key", Some(b"value")))
    );

    assert_eq!(
        Attribute::try_from(Spanned::new(b"key=\"value\"")),
        Ok(Attribute::new(b"key", Some(b"value")))
    );

    assert_eq!(
        Attribute::try_from(Spanned::new(b"key='value'")),
        Ok(Attribute::new(b"key", Some(b"value")))
    );

    assert_eq!(
        Attribute::try_from(Spanned::new(b"key=\" ' ` = < or >\"")),
        Ok(Attribute::new(b"key", Some(b" ' ` = < or >")))
    );

    assert_eq!(
        Attribute::try_from(Spanned::new(b"key=' \" ` = < or >'")),
        Ok(Attribute::new(b"key", Some(b" \" ` = < or >")))
    );
}

#[test]
fn attribute_test_serialize() {
    assert_eq!(
        Attribute::new(b"key", Some(b"value")).serialize_to_string(),
        b"key=value".to_vec()
    );

    assert_eq!(
        Attribute::new(b"key", Some(b" ' ` = < or >")).serialize_to_string(),
        b"key=\" ' ` = < or >\"".to_vec()
    );

    assert_eq!(
        Attribute::new(b"key", Some(b" \" ` = < or >")).serialize_to_string(),
        b"key=' \" ` = < or >'".to_vec()
    );
}

#[test]
fn attribute_invalid_quote() {
    // a value starting with a quote that does not end with the same one
    // fails, blaming the value's span
    assert_eq!(
        Attribute::try_from(Spanned::new(b"key=\"oops")),
        Err(ParseAttributeError(
            Spanned::new(ParseAttributeErrorKind::InvalidQuote).with_span(Span::from_range(4, 9))
        ))
    );
}

#[test]
fn attribute_single_quote_value() {
    // a value that is one lone quote character is quoted at only one end
    assert_eq!(
        Attribute::try_from(Spanned::new(b"k='")),
        Err(ParseAttributeError(
            Spanned::new(ParseAttributeErrorKind::InvalidQuote).with_span(Span::from_range(2, 3))
        ))
    );
}
