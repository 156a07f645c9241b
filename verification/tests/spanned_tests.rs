use libsrt::span::Span;
use libsrt::spanned::Spanned;

fn with_range(s: &[u8], start: usize, end: usize) -> Spanned<&[u8]> {
    Spanned::new(s).with_span(Span::from_range(start, end))
}

#[test]
fn test_get() {
    let spanned = with_range(b"hello", 1, 6);

    assert_eq!(spanned.get(1, 5), Some(with_range(b"ello", 2, 6)));
    assert_eq!(spanned.get(2, 5), Some(with_range(b"llo", 3, 6)));
    assert_eq!(spanned.get(4, 5), Some(with_range(b"o", 5, 6)));
    assert_eq!(spanned.get(5, 5), Some(with_range(b"", 6, 6)));

    assert_eq!(spanned.get(1, 2), Some(with_range(b"e", 2, 3)));
    assert_eq!(spanned.get(0, 5), Some(spanned));

    assert_eq!(spanned.get(1, 3), Some(with_range(b"el", 2, 4)));

    assert_eq!(spanned.get(0, 6), None);
}

#[test]
fn test_trim() {
    let spanned = with_range(b"  hi \t", 10, 16);
    assert_eq!(spanned.trim(), with_range(b"hi", 12, 14));

    let blank = with_range(b"   ", 5, 8);
    assert_eq!(blank.trim(), with_range(b"", 5, 5));
}

#[test]
fn test_remove_start_end() {
    assert_eq!(
        Spanned::new(b"(example)" as &[u8]).remove_start_end(b'(', b')'),
        Some(with_range(b"example", 1, 8))
    );
    assert_eq!(
        Spanned::new(b"( example )" as &[u8]).remove_start_end(b'(', b')'),
        Some(with_range(b" example ", 1, 10))
    );
    assert_eq!(
        Spanned::new(b"( example ) hello" as &[u8]).remove_start_end(b'(', b')'),
        Some(with_range(b" example ", 1, 10))
    );
    assert_eq!(
        Spanned::new(b"( example hello" as &[u8]).remove_start_end(b'(', b')'),
        None
    );
    assert_eq!(
        Spanned::new(b"()" as &[u8]).remove_start_end(b'(', b')'),
        Some(with_range(b"", 1, 1))
    );
    assert_eq!(Spanned::new(b"(" as &[u8]).remove_start_end(b'(', b')'), None);
    assert_eq!(Spanned::new(b")" as &[u8]).remove_start_end(b'(', b')'), None);
    assert_eq!(Spanned::new(b"" as &[u8]).remove_start_end(b'(', b')'), None);
}

#[test]
fn test_trim_matches() {
    let spanned = with_range(b"//name", 3, 9);
    assert_eq!(spanned.trim_start_matches(b'/'), with_range(b"name", 5, 9));
    let spanned = with_range(b"name..", 0, 6);
    assert_eq!(spanned.trim_end_matches(b'.'), with_range(b"name", 0, 4));
    let all = with_range(b"///", 2, 5);
    assert_eq!(all.trim_start_matches(b'/'), with_range(b"", 5, 5));
    assert_eq!(all.trim_end_matches(b'/'), with_range(b"", 2, 2));
}
