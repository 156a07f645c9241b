use libsrt::span::Span;

#[test]
fn test_sub_span() {
    assert_eq!(
        Span::from_range(1, 3).sub_span(Span::from_range(0, 2)),
        Some(Span::from_range(1, 3))
    );
    assert_eq!(
        Span::from_range(1, 3).sub_span(Span::from_range(0, 1)),
        Some(Span::from_range(1, 2))
    );
    assert_eq!(
        Span::from_range(1, 3).sub_span(Span::from_range(0, 0)),
        Some(Span::from_range(1, 1))
    );
    assert_eq!(Span::from_range(1, 3).sub_span(Span::from_range(1, 4)), None);
    assert_eq!(Span::from_range(1, 3).sub_span(Span::from_range(4, 4)), None);
    assert_eq!(
        Span::from_range(1, 3).sub_span(Span::from_range(1, 2)),
        Some(Span::from_range(2, 3))
    );
    assert_eq!(
        Span::from_range(1, 3).sub_span(Span::from_range(2, 2)),
        Some(Span::from_range(3, 3))
    );
}

#[test]
fn test_span_from_range() {
    assert_eq!(Span::from_range(1, 3), Span::from_range_inclusive(1, 2));
    assert_eq!(Span::from_range(0, 3), Span::from_range_inclusive(0, 2));
    assert_eq!(Span::from_range_inclusive(0, 2), Span::from_range_inclusive(0, 2));
    assert_eq!(Span::from_range(1, 1), Span::from_range_inclusive(1, 0));
}

#[test]
fn test_span_accessors() {
    let span = Span::from_range(11, 23);
    assert_eq!(span.start(), 11);
    assert_eq!(span.length(), 12);
    assert_eq!(span.end(), 23);
}
