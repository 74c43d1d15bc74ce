//! Upper-case hexadecimal encoding of bytes, and its decoding.

use vstd::prelude::*;
use vstd::utf8::*;

verus! {

/// The upper-case hexadecimal digit of a number below 16.
pub open spec fn hex_digit(n: u8) -> char
    recommends
        n < 16,
{
    if n < 10 {
        (48 + n) as char
    } else {
        (55 + n) as char
    }
}

/// Each byte as two upper-case hexadecimal digits, the high half first.
pub open spec fn hex_upper(bytes: Seq<u8>) -> Seq<char> {
    Seq::new(
        2 * bytes.len(),
        |i: int|
            if i % 2 == 0 {
                hex_digit(bytes[i / 2] / 16)
            } else {
                hex_digit(bytes[i / 2] % 16)
            },
    )
}

/// The value of a hexadecimal digit, upper or lower case; `None` for any
/// other byte.
pub open spec fn hex_value(c: u8) -> Option<u8> {
    if 48 <= c <= 57 {
        Some((c - 48) as u8)
    } else if 65 <= c <= 70 {
        Some((c - 55) as u8)
    } else if 97 <= c <= 102 {
        Some((c - 87) as u8)
    } else {
        None
    }
}

pub open spec fn is_hex_digit(c: u8) -> bool {
    hex_value(c) is Some
}

/// An even number of hexadecimal digits.
pub open spec fn is_hex(s: Seq<u8>) -> bool {
    &&& s.len() % 2 == 0
    &&& forall|i: int| 0 <= i < s.len() ==> is_hex_digit(#[trigger] s[i])
}

/// The bytes that a string of hexadecimal digits stands for, two digits a
/// byte, the high half first.
pub open spec fn hex_decoded(s: Seq<u8>) -> Seq<u8> {
    Seq::new(
        s.len() / 2,
        |i: int| (hex_value(s[2 * i]).unwrap() * 16 + hex_value(s[2 * i + 1]).unwrap()) as u8,
    )
}

/// The reasons why a string is not hexadecimal.
#[derive(PartialEq, Eq, Structural, Clone, Copy, Debug)]
pub enum HexError {
    /// The byte at `index` is not a hexadecimal digit; `c` is that byte as a
    /// character.
    InvalidHexCharacter { c: char, index: usize },
    /// The number of digits is odd.
    OddLength,
    /// A fixed-size output could not hold the decoded bytes.
    InvalidStringLength,
}

/// What decoding `s` gives: the bytes where `s` is hexadecimal; otherwise
/// `OddLength` for an odd length, else the first byte that is no digit.
pub open spec fn hex_decode_result(s: Seq<u8>, res: Result<Vec<u8>, HexError>) -> bool {
    match res {
        Ok(v) => is_hex(s) && v@ == hex_decoded(s),
        Err(HexError::OddLength) => s.len() % 2 == 1,
        Err(HexError::InvalidHexCharacter { c, index }) => {
            &&& s.len() % 2 == 0
            &&& index < s.len()
            &&& !is_hex_digit(s[index as int])
            &&& forall|j: int| 0 <= j < index ==> is_hex_digit(#[trigger] s[j])
            &&& c == s[index as int] as char
        },
        Err(HexError::InvalidStringLength) => false,
    }
}

/// Decodes with `hex::FromHex::from_hex` into a `Vec<u8>`. That function
/// fails with `OddLength` for an odd number of bytes, else with
/// `InvalidHexCharacter` for the first byte that is no digit (with the byte
/// as a `char` and its index), and otherwise returns one byte per pair of
/// digits, the first digit giving the high four bits; upper- and lower-case
/// digits are both accepted. The contract claims exactly that.
#[verifier::external_body]
fn hex_crate_decode(s: &[u8]) -> (res: Result<Vec<u8>, HexError>)
    ensures
        hex_decode_result(s@, res),
{
    match <Vec<u8> as ::hex::FromHex>::from_hex(s) {
        Ok(v) => Ok(v),
        Err(::hex::FromHexError::InvalidHexCharacter { c, index }) => Err(
            HexError::InvalidHexCharacter { c, index },
        ),
        Err(::hex::FromHexError::OddLength) => Err(HexError::OddLength),
        Err(::hex::FromHexError::InvalidStringLength) => Err(HexError::InvalidStringLength),
    }
}

/// Appends a character to a string (`String::push`).
#[verifier::external_body]
pub(crate) fn push_char(s: &mut String, c: char)
    ensures
        final(s)@ == old(s)@.push(c),
{
    s.push(c);
}

fn hex_digit_char(n: u8) -> (c: char)
    requires
        n < 16,
    ensures
        c == hex_digit(n),
{
    if n < 10 {
        (48 + n) as char
    } else {
        (55 + n) as char
    }
}

/// Formats the bytes as upper-case hexadecimal, two digits a byte.
pub fn to_hex_string(bytes: Vec<u8>) -> (hex: String)
    ensures
        hex@ == hex_upper(bytes@),
{
    let mut hex = String::new();
    let mut i: usize = 0;
    while i < bytes.len()
        invariant
            i <= bytes.len(),
            hex@ =~= hex_upper(bytes@).take(2 * i as int),
        decreases bytes.len() - i,
    {
        let b = bytes[i];
        push_char(&mut hex, hex_digit_char(b / 16));
        push_char(&mut hex, hex_digit_char(b % 16));
        i += 1;
    }
    hex
}

/// Decodes a string of hexadecimal digits, reporting why where it is none.
pub fn decode_hex(hex: &String) -> (res: Result<Vec<u8>, HexError>)
    ensures
        hex_decode_result(encode_utf8(hex@), res),
{
    hex_crate_decode(hex.as_str().as_bytes())
}

/// Decodes a string of hexadecimal digits into the bytes it stands for.
pub fn from_hex_string(hex: &String) -> (bytes: Vec<u8>)
    requires
        is_hex(encode_utf8(hex@)),
    ensures
        bytes@ == hex_decoded(encode_utf8(hex@)),
{
    match decode_hex(hex) {
        Ok(bytes) => bytes,
        Err(_) => {
            proof {
                assert(false);
            }
            Vec::new()
        },
    }
}

/// The upper-case hexadecimal form of any bytes is valid hexadecimal, and
/// decoding it gives the bytes back.
pub proof fn hex_round_trip(bytes: Seq<u8>)
    ensures
        is_hex(encode_utf8(hex_upper(bytes))),
        hex_decoded(encode_utf8(hex_upper(bytes))) == bytes,
{
    let chars = hex_upper(bytes);
    assert(is_ascii_chars(chars)) by {
        assert forall|i: int| 0 <= i < chars.len() implies '\0' <= #[trigger] chars[i] <= '\u{7f}' by {
            let b = bytes[i / 2];
            assert(b / 16 < 16);
            assert(b % 16 < 16);
        }
    }
    is_ascii_chars_encode_utf8(chars);
    let enc = encode_utf8(chars);
    assert forall|i: int| 0 <= i < enc.len() implies is_hex_digit(#[trigger] enc[i])
        && hex_value(enc[i]).unwrap() == (if i % 2 == 0 { bytes[i / 2] / 16 } else { bytes[i / 2] % 16 }) by {
        assert(enc[i] == chars[i] as u8);
        let b = bytes[i / 2];
        assert(b / 16 < 16);
        assert(b % 16 < 16);
    }
    assert forall|i: int| 0 <= i < bytes.len() implies #[trigger] hex_decoded(enc)[i] == bytes[i] by {
        assert(is_hex_digit(enc[2 * i]));
        assert(is_hex_digit(enc[2 * i + 1]));
        let b = bytes[i];
        assert((2 * i) / 2 == i);
        assert((2 * i + 1) / 2 == i);
        assert(b / 16 * 16 + b % 16 == b);
    }
    assert(hex_decoded(enc) =~= bytes);
}

/// The encoding has two characters per byte, each an upper-case hexadecimal
/// digit, and the first digit's value times 16 plus the second's is the byte.
pub proof fn hex_upper_is_two_upper_digits_per_byte(bytes: Seq<u8>)
    ensures
        hex_upper(bytes).len() == 2 * bytes.len(),
        forall|i: int|
            0 <= i < bytes.len() ==> {
                let hi = #[trigger] hex_upper(bytes)[2 * i];
                let lo = hex_upper(bytes)[2 * i + 1];
                &&& ('0' <= hi <= '9' || 'A' <= hi <= 'F')
                &&& ('0' <= lo <= '9' || 'A' <= lo <= 'F')
                &&& (if hi <= '9' { hi as int - 48 } else { hi as int - 55 }) * 16 + (if lo <= '9' {
                    lo as int - 48
                } else {
                    lo as int - 55
                }) == bytes[i] as int
            },
{
    assert forall|i: int| 0 <= i < bytes.len() implies {
        let hi = #[trigger] hex_upper(bytes)[2 * i];
        let lo = hex_upper(bytes)[2 * i + 1];
        &&& ('0' <= hi <= '9' || 'A' <= hi <= 'F')
        &&& ('0' <= lo <= '9' || 'A' <= lo <= 'F')
        &&& (if hi <= '9' { hi as int - 48 } else { hi as int - 55 }) * 16 + (if lo <= '9' {
            lo as int - 48
        } else {
            lo as int - 55
        }) == bytes[i] as int
    } by {
        let b = bytes[i];
        assert((2 * i) / 2 == i && (2 * i) % 2 == 0);
        assert((2 * i + 1) / 2 == i && (2 * i + 1) % 2 == 1);
        assert(b / 16 < 16 && b % 16 < 16);
        assert(b / 16 * 16 + b % 16 == b);
    }
}

/// A string is hexadecimal exactly when it has an even number of bytes, each
/// `0`-`9`, `A`-`F` or `a`-`f`; it then decodes to half as many bytes, each
/// the value of its first digit times 16 plus that of its second.
pub proof fn hex_decoding_reads_digit_pairs(s: Seq<u8>)
    ensures
        is_hex(s) <==> (s.len() % 2 == 0 && forall|j: int|
            0 <= j < s.len() ==> (48 <= #[trigger] s[j] <= 57 || 65 <= s[j] <= 70 || 97 <= s[j]
                <= 102)),
        is_hex(s) ==> hex_decoded(s).len() == s.len() / 2,
        is_hex(s) ==> forall|i: int|
            0 <= i < s.len() / 2 ==> #[trigger] hex_decoded(s)[i] as int == (if s[2 * i] <= 57 {
                s[2 * i] - 48
            } else if s[2 * i] <= 70 {
                s[2 * i] - 55
            } else {
                s[2 * i] - 87
            }) * 16 + (if s[2 * i + 1] <= 57 {
                s[2 * i + 1] - 48
            } else if s[2 * i + 1] <= 70 {
                s[2 * i + 1] - 55
            } else {
                s[2 * i + 1] - 87
            }),
{
    if is_hex(s) {
        assert forall|i: int| 0 <= i < s.len() / 2 implies #[trigger] hex_decoded(s)[i] as int == (
        if s[2 * i] <= 57 {
            s[2 * i] - 48
        } else if s[2 * i] <= 70 {
            s[2 * i] - 55
        } else {
            s[2 * i] - 87
        }) * 16 + (if s[2 * i + 1] <= 57 {
            s[2 * i + 1] - 48
        } else if s[2 * i + 1] <= 70 {
            s[2 * i + 1] - 55
        } else {
            s[2 * i + 1] - 87
        }) by {
            assert(is_hex_digit(s[2 * i]));
            assert(is_hex_digit(s[2 * i + 1]));
        }
    }
}

} // verus!
