//! Colours of the interface that are given as hexadecimal text.

use vstd::prelude::*;
use vstd::string::StringSliceAdditionalSpecFns;

verus! {

/// Whether the interface is light or dark.
#[derive(Debug, Clone, Copy, PartialEq, Eq, Structural)]
pub enum Mode {
    Light,
    Dark,
}

/// A colour as three bytes.
#[derive(Debug, Clone, Copy, PartialEq, Eq, Structural)]
pub struct Rgb {
    pub r: u8,
    pub g: u8,
    pub b: u8,
}

/// The colour black.
pub open spec fn black() -> Rgb {
    Rgb { r: 0, g: 0, b: 0 }
}

/// The value of a hexadecimal digit given as an ASCII byte.
pub open spec fn hex_value(byte: u8) -> Option<u8> {
    if 0x30 <= byte <= 0x39 {
        Some((byte - 0x30) as u8)
    } else if 0x61 <= byte <= 0x66 {
        Some((byte - 0x61 + 10) as u8)
    } else if 0x41 <= byte <= 0x46 {
        Some((byte - 0x41 + 10) as u8)
    } else {
        None
    }
}

/// The colour component that two bytes denote: two hexadecimal digits, or a
/// plus sign and one digit. Anything else denotes zero.
pub open spec fn component(high: u8, low: u8) -> u8 {
    if high == 0x2b {
        match hex_value(low) {
            Some(v) => v,
            None => 0,
        }
    } else {
        match (hex_value(high), hex_value(low)) {
            (Some(h), Some(l)) => (h * 16 + l) as u8,
            _ => 0,
        }
    }
}

/// `bytes` without the number signs at its front.
pub open spec fn strip_hashes(bytes: Seq<u8>) -> Seq<u8>
    decreases bytes.len(),
{
    if bytes.len() > 0 && bytes[0] == 0x23 {
        strip_hashes(bytes.drop_first())
    } else {
        bytes
    }
}

/// The colour that the bytes of a text denote: after any number signs,
/// exactly six bytes, two for each of red, green and blue. Any other text
/// denotes black.
pub open spec fn hex_rgb(bytes: Seq<u8>) -> Rgb {
    let digits = strip_hashes(bytes);
    if digits.len() == 6 {
        Rgb {
            r: component(digits[0], digits[1]),
            g: component(digits[2], digits[3]),
            b: component(digits[4], digits[5]),
        }
    } else {
        black()
    }
}

fn hex_digit(byte: u8) -> (v: Option<u8>)
    ensures
        v == hex_value(byte),
{
    if 0x30 <= byte && byte <= 0x39 {
        Some(byte - 0x30)
    } else if 0x61 <= byte && byte <= 0x66 {
        Some(byte - 0x61 + 10)
    } else if 0x41 <= byte && byte <= 0x46 {
        Some(byte - 0x41 + 10)
    } else {
        None
    }
}

fn read_component(high: u8, low: u8) -> (v: u8)
    ensures
        v == component(high, low),
{
    if high == 0x2b {
        match hex_digit(low) {
            Some(v) => v,
            None => 0,
        }
    } else {
        match (hex_digit(high), hex_digit(low)) {
            (Some(h), Some(l)) => h * 16 + l,
            _ => 0,
        }
    }
}

/// Reads a colour written as `#rrggbb`.
pub fn hex_to_color(hex: &str) -> (color: Rgb)
    ensures
        color == hex_rgb(hex.spec_bytes()),
{
    let bytes = hex.as_bytes();
    let mut start: usize = 0;
    assert(bytes@.skip(0) =~= bytes@);
    while start < bytes.len() && bytes[start] == 0x23
        invariant
            start <= bytes.len(),
            strip_hashes(bytes@) == strip_hashes(bytes@.skip(start as int)),
        decreases bytes.len() - start,
    {
        assert(bytes@.skip(start as int).drop_first() =~= bytes@.skip(start + 1));
        start += 1;
    }
    if bytes.len() - start == 6 {
        Rgb {
            r: read_component(bytes[start], bytes[start + 1]),
            g: read_component(bytes[start + 2], bytes[start + 3]),
            b: read_component(bytes[start + 4], bytes[start + 5]),
        }
    } else {
        Rgb { r: 0, g: 0, b: 0 }
    }
}

} // verus!
