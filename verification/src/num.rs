use vstd::prelude::*;

verus! {

/// Why parsing an unsigned integer failed.
#[derive(Debug, Clone, Copy, PartialEq, Eq, Hash, Structural)]
pub enum ParseIntError {
    /// No digits were given.
    Empty,
    /// A byte that is no digit of the requested radix.
    InvalidDigit,
    /// The value does not fit the target type.
    PosOverflow,
}

/// The value of byte `b` as a digit of `radix`, if it is one.
pub open spec fn digit_of(b: u8, radix: int) -> Option<int> {
    if 48 <= b <= 57 {
        Some(b as int - 48)
    } else if radix == 16 && 97 <= b <= 102 {
        Some(b as int - 97 + 10)
    } else if radix == 16 && 65 <= b <= 70 {
        Some(b as int - 65 + 10)
    } else {
        None
    }
}

/// Scans the digits of `s` from position `i` on, accumulating onto `acc`;
/// the first offending byte decides the error, as integer parsing in Rust
/// does.
pub open spec fn scan_uint(s: Seq<u8>, radix: int, max: int, i: int, acc: int) -> Result<
    int,
    ParseIntError,
>
    decreases s.len() - i,
    when 0 <= i <= s.len()
{
    if i >= s.len() {
        Ok(acc)
    } else {
        match digit_of(s[i], radix) {
            None => Err(ParseIntError::InvalidDigit),
            Some(d) => if acc * radix + d > max {
                Err(ParseIntError::PosOverflow)
            } else {
                scan_uint(s, radix, max, i + 1, acc * radix + d)
            },
        }
    }
}

/// What parsing `s` as an unsigned integer of `radix` returns, with values
/// above `max` rejected: an optional leading `+`, then at least one digit.
pub open spec fn parse_uint(s: Seq<u8>, radix: int, max: int) -> Result<int, ParseIntError> {
    let t = if s.len() > 0 && s[0] == 43 {
        s.skip(1)
    } else {
        s
    };
    if t.len() == 0 {
        Err(ParseIntError::Empty)
    } else {
        scan_uint(t, radix, max, 0, 0)
    }
}

/// Reads byte `b` as a digit of `radix`.
pub fn read_digit(b: u8, radix: u64) -> (r: Option<u8>)
    requires
        radix == 10 || radix == 16,
    ensures
        match r {
            Some(d) => digit_of(b, radix as int) == Some(d as int) && d < radix,
            None => digit_of(b, radix as int) is None,
        },
{
    if 48 <= b && b <= 57 {
        Some(b - 48)
    } else if radix == 16 && 97 <= b && b <= 102 {
        Some(b - 97 + 10)
    } else if radix == 16 && 65 <= b && b <= 70 {
        Some(b - 65 + 10)
    } else {
        None
    }
}

/// Parses `s` as an unsigned integer of `radix`, rejecting values above
/// `max`.
pub fn parse_uint_bytes(s: &[u8], radix: u64, max: u64) -> (r: Result<u64, ParseIntError>)
    requires
        radix == 10 || radix == 16,
    ensures
        ({
            let m = parse_uint(s@, radix as int, max as int);
            match r {
                Ok(x) => m == Ok::<int, ParseIntError>(x as int) && x <= max,
                Err(e) => m == Err::<int, ParseIntError>(e),
            }
        }),
{
    let start: usize = if s.len() > 0 && s[0] == 43 {
        1
    } else {
        0
    };
    let ghost t = if s@.len() > 0 && s@[0] == 43 {
        s@.skip(1)
    } else {
        s@
    };
    proof {
        assert(t.len() == s@.len() - start);
        assert(forall|j: int| 0 <= j < t.len() ==> t[j] == s@[j + start]);
    }
    if s.len() == start {
        return Err(ParseIntError::Empty);
    }
    let mut i = start;
    let mut acc: u64 = 0;
    while i < s.len()
        invariant
            start <= i <= s@.len(),
            acc <= max,
            scan_uint(t, radix as int, max as int, 0, 0) == scan_uint(
                t,
                radix as int,
                max as int,
                i - start,
                acc as int,
            ),
        decreases s@.len() - i,
    {
        match read_digit(s[i], radix) {
            None => {
                return Err(ParseIntError::InvalidDigit);
            },
            Some(d) => {
                let wide = acc as u128 * radix as u128 + d as u128;
                if wide > max as u128 {
                    return Err(ParseIntError::PosOverflow);
                }
                acc = wide as u64;
            },
        }
        i += 1;
    }
    Ok(acc)
}

} // verus!

verus! {

/// Every byte of `s` is a decimal digit.
pub open spec fn all_dec_digits(s: Seq<u8>) -> bool {
    forall|i: int| 0 <= i < s.len() ==> 48 <= #[trigger] s[i] <= 57
}

/// The decimal value of a digit string.
pub open spec fn dec_value(s: Seq<u8>) -> int
    decreases s.len(),
{
    if s.len() == 0 {
        0
    } else {
        dec_value(s.take(s.len() - 1)) * 10 + (s[s.len() - 1] - 48)
    }
}

pub proof fn lemma_dec_value_step(s: Seq<u8>, i: int)
    requires
        0 <= i < s.len(),
    ensures
        dec_value(s.take(i + 1)) == dec_value(s.take(i)) * 10 + (s[i] - 48),
{
    assert(s.take(i + 1).take(i) =~= s.take(i));
    assert(s.take(i + 1)[i] == s[i]);
}

pub proof fn lemma_dec_value_nonneg(s: Seq<u8>)
    requires
        all_dec_digits(s),
    ensures
        dec_value(s) >= 0,
    decreases s.len(),
{
    if s.len() > 0 {
        assert(all_dec_digits(s.take(s.len() - 1))) by {
            assert(forall|i: int|
                0 <= i < s.len() - 1 ==> #[trigger] s.take(s.len() - 1)[i] == s[i]);
        }
        lemma_dec_value_nonneg(s.take(s.len() - 1));
    }
}

/// A prefix of a digit string never exceeds the whole string's value.
pub proof fn lemma_dec_value_prefix(s: Seq<u8>, i: int)
    requires
        all_dec_digits(s),
        0 <= i <= s.len(),
    ensures
        0 <= dec_value(s.take(i)) <= dec_value(s),
    decreases s.len() - i,
{
    assert(all_dec_digits(s.take(i))) by {
        assert(forall|j: int| 0 <= j < i ==> #[trigger] s.take(i)[j] == s[j]);
    }
    lemma_dec_value_nonneg(s.take(i));
    if i == s.len() {
        assert(s.take(i) =~= s);
    } else {
        lemma_dec_value_step(s, i);
        lemma_dec_value_prefix(s, i + 1);
    }
}

proof fn lemma_scan_digits(s: Seq<u8>, max: int, i: int)
    requires
        all_dec_digits(s),
        0 <= i <= s.len(),
        0 <= dec_value(s) <= max,
    ensures
        scan_uint(s, 10, max, i, dec_value(s.take(i))) == Ok::<int, ParseIntError>(dec_value(s)),
    decreases s.len() - i,
{
    if i == s.len() {
        assert(s.take(i) =~= s);
    } else {
        lemma_dec_value_step(s, i);
        lemma_dec_value_prefix(s, i + 1);
        lemma_scan_digits(s, max, i + 1);
    }
}

/// A non-empty all-digit string whose value fits parses to exactly its
/// decimal value.
pub proof fn lemma_parse_uint_digits(s: Seq<u8>, max: int)
    requires
        s.len() > 0,
        all_dec_digits(s),
        dec_value(s) <= max,
    ensures
        parse_uint(s, 10, max) == Ok::<int, ParseIntError>(dec_value(s)),
{
    lemma_dec_value_nonneg(s);
    assert(s[0] != 43);
    assert(s.take(0) =~= Seq::<u8>::empty());
    lemma_scan_digits(s, max, 0);
}

} // verus!
