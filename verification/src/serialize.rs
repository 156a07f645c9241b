use vstd::prelude::*;

use crate::attributes::Attribute;
use crate::color::{Color, SerializeColorConfig};

verus! {

/// A value that can be written back out as bytes.
pub trait Serialize {
    /// The exact bytes the value serializes to.
    spec fn serialized_bytes(&self) -> Seq<u8>;

    /// Appends the serialized form to the buffer.
    fn serialize(&self, buffer: &mut Vec<u8>)
        ensures
            final(buffer)@ == old(buffer)@ + self.serialized_bytes(),
    ;
}

/// A value whose serialized form depends on a configuration.
pub trait SerializeWithConfig {
    type Config;

    /// The exact bytes the value serializes to under `config`.
    spec fn serialized_with_config_bytes(&self, config: &Self::Config) -> Seq<u8>;

    /// Appends the serialized form under `config` to the buffer.
    fn serialize_with_config(&self, buffer: &mut Vec<u8>, config: &Self::Config)
        ensures
            final(buffer)@ == old(buffer)@ + self.serialized_with_config_bytes(config),
    ;
}

/// A value whose serialized length is known ahead of writing; an extension
/// point for callers that size their buffers exactly.
pub trait ExactSerializedLength {
    fn len(&self) -> usize;
}

/// Serializing into a fresh buffer.
pub trait SerializeToString: Serialize {
    fn serialize_to_string(&self) -> (r: Vec<u8>)
        ensures
            r@ == self.serialized_bytes(),
    ;
}

impl<S: Serialize> SerializeToString for S {
    fn serialize_to_string(&self) -> (r: Vec<u8>) {
        let mut buffer: Vec<u8> = Vec::new();
        self.serialize(&mut buffer);
        proof {
            assert(buffer@ =~= self.serialized_bytes());
        }
        buffer
    }
}

/// Serializing into a fresh buffer under a configuration.
pub trait SerializeWithConfigToString: SerializeWithConfig {
    fn serialize_with_config_to_string(&self, config: &Self::Config) -> (r: Vec<u8>)
        ensures
            r@ == self.serialized_with_config_bytes(config),
    ;
}

impl<S: SerializeWithConfig> SerializeWithConfigToString for S {
    fn serialize_with_config_to_string(&self, config: &Self::Config) -> (r: Vec<u8>) {
        let mut buffer: Vec<u8> = Vec::new();
        self.serialize_with_config(&mut buffer, config);
        proof {
            assert(buffer@ =~= self.serialized_with_config_bytes(config));
        }
        buffer
    }
}

/// Appends a byte slice to the buffer.
fn push_bytes(buffer: &mut Vec<u8>, bytes: &[u8])
    ensures
        final(buffer)@ == old(buffer)@ + bytes@,
{
    let mut k: usize = 0;
    while k < bytes.len()
        invariant
            0 <= k <= bytes@.len(),
            buffer@ == old(buffer)@ + bytes@.subrange(0, k as int),
        decreases bytes@.len() - k,
    {
        buffer.push(bytes[k]);
        proof {
            assert(buffer@ =~= old(buffer)@ + bytes@.subrange(0, k + 1));
        }
        k += 1;
    }
    proof {
        assert(buffer@ =~= old(buffer)@ + bytes@);
    }
}

/// Whether byte `b` occurs in `v`.
pub open spec fn has_byte(v: Seq<u8>, b: u8) -> bool {
    exists|i: int| 0 <= i < v.len() && v[i] == b
}

/// Reads whether byte `b` occurs in `bytes`.
fn read_has_byte(bytes: &[u8], b: u8) -> (r: bool)
    ensures
        r == has_byte(bytes@, b),
{
    let mut k: usize = 0;
    while k < bytes.len()
        invariant
            0 <= k <= bytes@.len(),
            forall|i: int| 0 <= i < k ==> bytes@[i] != b,
        decreases bytes@.len() - k,
    {
        if bytes[k] == b {
            proof {
                assert(has_byte(bytes@, b)) by {
                    assert(bytes@[k as int] == b);
                }
            }
            return true;
        }
        k += 1;
    }
    false
}

/// The quote character an attribute value has to be wrapped in, if any: a
/// value containing a space or any of `` ' ` = < > `` has to be quoted
/// (with single quotes where it also contains a double quote), and so does
/// a value containing a double quote.
pub open spec fn needed_quote(v: Seq<u8>) -> Option<u8> {
    if has_byte(v, 32) || has_byte(v, 39) || has_byte(v, 96) || has_byte(v, 61) || has_byte(v, 60)
        || has_byte(v, 62) {
        if has_byte(v, 34) {
            Some(39u8)
        } else {
            Some(34u8)
        }
    } else if has_byte(v, 34) {
        Some(39u8)
    } else {
        None
    }
}

/// The serialized form of an attribute: its name, and `=value` where a
/// value is present, the value wrapped in quotes where it needs them.
pub open spec fn attribute_serialized(name: Seq<u8>, value: Option<Seq<u8>>) -> Seq<u8> {
    match value {
        None => name,
        Some(v) => match needed_quote(v) {
            None => name + seq![61u8] + v,
            Some(q) => name + seq![61u8, q] + v + seq![q],
        },
    }
}

impl<'a> Serialize for Attribute<'a> {
    open spec fn serialized_bytes(&self) -> Seq<u8> {
        attribute_serialized(
            self.name@,
            match self.value {
                Some(v) => Some(v@),
                None => None,
            },
        )
    }

    fn serialize(&self, buffer: &mut Vec<u8>) {
        push_bytes(buffer, self.name);
        match self.value {
            None => {
                proof {
                    assert(buffer@ =~= old(buffer)@ + self.serialized_bytes());
                }
            },
            Some(v) => {
                let special = read_has_byte(v, 32) || read_has_byte(v, 39) || read_has_byte(v, 96)
                    || read_has_byte(v, 61) || read_has_byte(v, 60) || read_has_byte(v, 62);
                let quote: Option<u8> = if special {
                    if read_has_byte(v, 34) {
                        Some(39)
                    } else {
                        Some(34)
                    }
                } else if read_has_byte(v, 34) {
                    Some(39)
                } else {
                    None
                };
                match quote {
                    None => {
                        buffer.push(61);
                        push_bytes(buffer, v);
                        proof {
                            assert(buffer@ =~= old(buffer)@ + self.serialized_bytes());
                        }
                    },
                    Some(q) => {
                        buffer.push(61);
                        buffer.push(q);
                        push_bytes(buffer, v);
                        buffer.push(q);
                        proof {
                            assert(buffer@ =~= old(buffer)@ + self.serialized_bytes());
                        }
                    },
                }
            },
        }
    }
}

/// The hexadecimal digit of `n`, in lower or upper case.
pub open spec fn hex_digit(n: int, upper: bool) -> u8 {
    if n < 10 {
        (48 + n) as u8
    } else if upper {
        (65 + n - 10) as u8
    } else {
        (97 + n - 10) as u8
    }
}

/// The two hexadecimal digits of byte `n`.
pub open spec fn hex_byte(n: int, upper: bool) -> Seq<u8> {
    seq![hex_digit(n / 16, upper), hex_digit(n % 16, upper)]
}

/// The decimal digits of byte `n`, without leading zeros.
pub open spec fn dec_byte(n: int) -> Seq<u8> {
    if n < 10 {
        seq![(48 + n) as u8]
    } else if n < 100 {
        seq![(48 + n / 10) as u8, (48 + n % 10) as u8]
    } else {
        seq![(48 + n / 100) as u8, (48 + (n / 10) % 10) as u8, (48 + n % 10) as u8]
    }
}

/// The serialized form of a color under a configuration: `#RRGGBB` in the
/// requested case, or `rgb(r, g, b)` in decimal; a named color is written
/// verbatim.
pub open spec fn color_serialized(c: Color, config: SerializeColorConfig) -> Seq<u8> {
    match c {
        Color::Rgb { red, green, blue } => match config {
            SerializeColorConfig::UpperHex => seq![35u8] + hex_byte(red as int, true) + hex_byte(
                green as int,
                true,
            ) + hex_byte(blue as int, true),
            SerializeColorConfig::LowerHex => seq![35u8] + hex_byte(red as int, false) + hex_byte(
                green as int,
                false,
            ) + hex_byte(blue as int, false),
            SerializeColorConfig::Rgb => seq![114u8, 103u8, 98u8, 40u8] + dec_byte(red as int)
                + seq![44u8, 32u8] + dec_byte(green as int) + seq![44u8, 32u8] + dec_byte(
                blue as int,
            ) + seq![41u8],
        },
        Color::Name(name) => name@,
    }
}

/// Writes the two hexadecimal digits of `n`.
fn push_hex(buffer: &mut Vec<u8>, n: u8, upper: bool)
    ensures
        final(buffer)@ == old(buffer)@ + hex_byte(n as int, upper),
{
    let hi = n / 16;
    let lo = n % 16;
    let hd = if hi < 10 {
        48 + hi
    } else if upper {
        65 + hi - 10
    } else {
        97 + hi - 10
    };
    let ld = if lo < 10 {
        48 + lo
    } else if upper {
        65 + lo - 10
    } else {
        97 + lo - 10
    };
    buffer.push(hd);
    buffer.push(ld);
    proof {
        assert(buffer@ =~= old(buffer)@ + hex_byte(n as int, upper));
    }
}

/// Writes the decimal digits of `n`, without leading zeros.
fn push_dec(buffer: &mut Vec<u8>, n: u8)
    ensures
        final(buffer)@ == old(buffer)@ + dec_byte(n as int),
{
    if n < 10 {
        buffer.push(48 + n);
    } else if n < 100 {
        buffer.push(48 + n / 10);
        buffer.push(48 + n % 10);
    } else {
        buffer.push(48 + n / 100);
        buffer.push(48 + (n / 10) % 10);
        buffer.push(48 + n % 10);
    }
    proof {
        assert(buffer@ =~= old(buffer)@ + dec_byte(n as int));
    }
}

impl<'a> SerializeWithConfig for Color<'a> {
    type Config = SerializeColorConfig;

    open spec fn serialized_with_config_bytes(&self, config: &SerializeColorConfig) -> Seq<u8> {
        color_serialized(*self, *config)
    }

    fn serialize_with_config(&self, buffer: &mut Vec<u8>, config: &SerializeColorConfig) {
        match self {
            Color::Rgb { red, green, blue } => {
                match config {
                    SerializeColorConfig::UpperHex => {
                        buffer.push(35);
                        push_hex(buffer, *red, true);
                        push_hex(buffer, *green, true);
                        push_hex(buffer, *blue, true);
                    },
                    SerializeColorConfig::LowerHex => {
                        buffer.push(35);
                        push_hex(buffer, *red, false);
                        push_hex(buffer, *green, false);
                        push_hex(buffer, *blue, false);
                    },
                    SerializeColorConfig::Rgb => {
                        buffer.push(114);
                        buffer.push(103);
                        buffer.push(98);
                        buffer.push(40);
                        push_dec(buffer, *red);
                        buffer.push(44);
                        buffer.push(32);
                        push_dec(buffer, *green);
                        buffer.push(44);
                        buffer.push(32);
                        push_dec(buffer, *blue);
                        buffer.push(41);
                    },
                }
            },
            Color::Name(name) => {
                push_bytes(buffer, name);
            },
        }
        proof {
            assert(buffer@ =~= old(buffer)@ + self.serialized_with_config_bytes(config));
        }
    }
}

impl<'a> Serialize for Color<'a> {
    /// The default form: lower-case hexadecimal.
    open spec fn serialized_bytes(&self) -> Seq<u8> {
        color_serialized(*self, SerializeColorConfig::LowerHex)
    }

    fn serialize(&self, buffer: &mut Vec<u8>) {
        let config = SerializeColorConfig::LowerHex;
        self.serialize_with_config(buffer, &config);
    }
}

} // verus!
