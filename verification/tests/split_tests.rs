use libsrt::pattern::Sep;
use libsrt::span::Span;
use libsrt::spanned::Spanned;
use libsrt::split_iter::SplitIter;
use libsrt::split_iter_n::SplitIterN;

fn piece_at(s: &[u8], start: usize) -> Spanned<&[u8]> {
    Spanned::new(s).with_span(Span::from_range(start, start + s.len()))
}

#[test]
fn test_split_char_iterator_no_trailing() {
    let mut iterator = SplitIter::new(
        "\nM\u{e4}ry h\u{e4}d \u{e4} little l\u{e4}mb\nLittle l\u{e4}mb\n".as_bytes(),
        Sep::Byte(b'\n'),
    );
    assert_eq!(iterator.next(), Some(piece_at(b"", 0)));
    assert_eq!(
        iterator.next(),
        Some(piece_at("M\u{e4}ry h\u{e4}d \u{e4} little l\u{e4}mb".as_bytes(), 1))
    );
    assert_eq!(iterator.next(), Some(piece_at("Little l\u{e4}mb".as_bytes(), 28)));
    // the span is 40 if "" is before the split char and 41 if it is after
    assert_eq!(iterator.next(), Some(piece_at(b"", 41)));
    assert_eq!(iterator.next(), None);
}

#[test]
fn test_split_iterator_01() {
    let mut iterator = SplitIter::new(b",example,\",\",',',", Sep::Byte(b','));

    assert_eq!(iterator.next(), Some(piece_at(b"", 0)));
    assert_eq!(iterator.next(), Some(piece_at(b"example", 1)));
    assert_eq!(iterator.next(), Some(piece_at(b"\",\"", 9)));
    assert_eq!(iterator.next(), Some(piece_at(b"','", 13)));
    assert_eq!(iterator.next(), Some(piece_at(b"", 17)));
    assert_eq!(iterator.next(), None);
}

#[test]
fn test_split_iterator_02() {
    // If a string contains multiple contiguous separators, you will end up
    // with empty strings in the output:
    let mut iterator = SplitIter::new(b"||||a||b|c", Sep::Byte(b'|'));

    assert_eq!(iterator.next(), Some(piece_at(b"", 0)));
    assert_eq!(iterator.next(), Some(piece_at(b"", 1)));
    assert_eq!(iterator.next(), Some(piece_at(b"", 2)));
    assert_eq!(iterator.next(), Some(piece_at(b"", 3)));
    assert_eq!(iterator.next(), Some(piece_at(b"a", 4)));
    assert_eq!(iterator.next(), Some(piece_at(b"", 6)));
    assert_eq!(iterator.next(), Some(piece_at(b"b", 7)));
    assert_eq!(iterator.next(), Some(piece_at(b"c", 9)));
    assert_eq!(iterator.next(), None);
}

#[test]
fn test_split_iterator_03() {
    // Contiguous separators are separated by the empty string.
    let mut iterator = SplitIter::new(b"(///)", Sep::Byte(b'/'));

    assert_eq!(iterator.next(), Some(piece_at(b"(", 0)));
    assert_eq!(iterator.next(), Some(piece_at(b"", 2)));
    assert_eq!(iterator.next(), Some(piece_at(b"", 3)));
    assert_eq!(iterator.next(), Some(piece_at(b")", 4)));
    assert_eq!(iterator.next(), None);
}

#[test]
fn test_split_iterator_04() {
    // Separators at the start or end of a string are neighbored by empty
    // strings.
    let data = b"010";
    let mut iterator = SplitIter::new(data, Sep::Byte(b'0'));

    assert_eq!(iterator.next(), Some(piece_at(b"", 0)));
    assert_eq!(&data[0..0], b"");
    assert_eq!(iterator.next(), Some(piece_at(b"1", 1)));
    assert_eq!(&data[1..2], b"1");
    assert_eq!(iterator.next(), Some(piece_at(b"", 3)));
    assert_eq!(&data[3..3], b"");
    assert_eq!(iterator.next(), None);
}

#[test]
fn test_splitn_char_iterator() {
    let raw = "\nM\u{e4}ry h\u{e4}d \u{e4} little l\u{e4}mb\nLittle l\u{e4}mb\n";
    let data = piece_at(raw.as_bytes(), 0);

    let mut iterator = SplitIterN::new_spanned(4, data, Sep::Byte(b' '));
    assert_eq!(iterator.next(), Some(piece_at("\nM\u{e4}ry".as_bytes(), 0)));
    assert_eq!(iterator.next(), Some(piece_at("h\u{e4}d".as_bytes(), 7)));
    assert_eq!(iterator.next(), Some(piece_at("\u{e4}".as_bytes(), 12)));
    assert_eq!(
        iterator.next(),
        Some(piece_at("little l\u{e4}mb\nLittle l\u{e4}mb\n".as_bytes(), 15))
    );
    assert_eq!(iterator.next(), None);

    let umlaut = "\u{e4}".as_bytes().to_vec();
    let mut iterator = SplitIterN::new_spanned(4, data, Sep::Bytes(umlaut));
    assert_eq!(iterator.next(), Some(piece_at(b"\nM", 0)));
    assert_eq!(iterator.next(), Some(piece_at(b"ry h", 4)));
    assert_eq!(iterator.next(), Some(piece_at(b"d ", 10)));
    assert_eq!(
        iterator.next(),
        Some(piece_at(" little l\u{e4}mb\nLittle l\u{e4}mb\n".as_bytes(), 14))
    );
    assert_eq!(iterator.next(), None);
}

#[test]
fn test_splitn_quotes() {
    let mut iterator = SplitIterN::new_spanned(
        2,
        piece_at(b"hello,world,yeah", 0),
        Sep::Byte(b','),
    );

    assert_eq!(iterator.next(), Some(piece_at(b"hello", 0)));
    assert_eq!(iterator.next(), Some(piece_at(b"world,yeah", 6)));
    assert_eq!(iterator.next(), None);
}

#[test]
fn test_splitn_quotes_2() {
    let mut iterator = SplitIterN::new_spanned(2, piece_at(b"", 0), Sep::Byte(b','));

    assert_eq!(iterator.next(), Some(piece_at(b"", 0)));
    assert_eq!(iterator.next(), None);
}

#[test]
fn test_pattern_normal_string() {
    let mut iterator = SplitIter::new(b"this is an example string", Sep::Byte(b' '));

    assert_eq!(iterator.next().unwrap().into_inner(), b"this");
    assert_eq!(iterator.next().unwrap().into_inner(), b"is");
    assert_eq!(iterator.next().unwrap().into_inner(), b"an");
    assert_eq!(iterator.next().unwrap().into_inner(), b"example");
    assert_eq!(iterator.next().unwrap().into_inner(), b"string");
    assert_eq!(iterator.next(), None);
}

#[test]
fn test_pattern_single_quotes() {
    let mut iterator = SplitIter::new(b"this is an' 'example string", Sep::Byte(b' '));

    assert_eq!(iterator.next().unwrap().into_inner(), b"this");
    assert_eq!(iterator.next().unwrap().into_inner(), b"is");
    assert_eq!(iterator.next().unwrap().into_inner(), b"an' 'example");
    assert_eq!(iterator.next().unwrap().into_inner(), b"string");
    assert_eq!(iterator.next(), None);
}

#[test]
fn split_rejoins_to_original() {
    // splitting yields one piece more than there are separators, and
    // rejoining the pieces with the separator loses no content
    let data = b"a,b,,c";
    let mut iterator = SplitIter::new(data, Sep::Byte(b','));
    let mut pieces: Vec<Vec<u8>> = Vec::new();
    while let Some(piece) = iterator.next() {
        pieces.push(piece.into_inner().to_vec());
    }
    assert_eq!(pieces.len(), 3 + 1);
    assert_eq!(pieces.join(&b","[..]), data.to_vec());
}
