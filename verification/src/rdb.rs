//! The snapshot a master sends a new replica: a file of hex digits that is
//! turned into the raw bytes it spells.

use vstd::prelude::*;
use vstd::utf8::valid_utf8;
use crate::text::str_from_utf8;

verus! {

/// The value of a hex digit (`0-9`, `a-f`, `A-F`).
pub open spec fn hex_value(c: u8) -> Option<u8> {
    if 48 <= c <= 57 {
        Some((c - 48) as u8)
    } else if 97 <= c <= 102 {
        Some((c - 87) as u8)
    } else if 65 <= c <= 70 {
        Some((c - 55) as u8)
    } else {
        None
    }
}

/// Every byte is a hex digit.
pub open spec fn all_hex(s: Seq<u8>) -> bool {
    forall|i: int| 0 <= i < s.len() ==> (#[trigger] hex_value(s[i])) is Some
}

/// The position of the first byte that is not a hex digit.
pub open spec fn first_non_hex(s: Seq<u8>) -> nat
    decreases s.len(),
{
    if s.len() == 0 || hex_value(s[0]) is None {
        0
    } else {
        1 + first_non_hex(s.drop_first())
    }
}

/// The bytes that pairs of hex digits spell, high digit first.
pub open spec fn hex_bytes(s: Seq<u8>) -> Seq<u8> {
    Seq::new(
        s.len() / 2,
        |i: int| (hex_value(s[2 * i]).unwrap() * 16 + hex_value(s[2 * i + 1]).unwrap()) as u8,
    )
}

/// Why hex digits could not be read.
#[derive(Debug)]
pub enum HexError {
    /// A byte that is not a hex digit, and its position.
    InvalidHexCharacter { c: char, index: usize },
    /// An odd number of digits.
    OddLength,
    /// A length that does not fit the output (not met when decoding into a
    /// vector).
    InvalidStringLength,
}

/// The outcome of decoding hex digits.
pub type HexDecoded = Result<Vec<u8>, HexError>;

/// Decodes hex digits with `hex::decode`. As the crate's source shows: an
/// odd length is refused first; otherwise the pairs are read in order, the
/// high digit before the low one, and the first byte that is not a hex digit
/// is reported with its position; otherwise each pair gives one byte.
#[verifier::external_body]
fn hex_decode(data: &[u8]) -> (r: HexDecoded)
    ensures
        data@.len() % 2 != 0 ==> r is Err && r->Err_0 == HexError::OddLength,
        data@.len() % 2 == 0 && all_hex(data@) ==> r is Ok && r->Ok_0@ == hex_bytes(data@),
        data@.len() % 2 == 0 && !all_hex(data@) ==> r is Err && r->Err_0 == (
        HexError::InvalidHexCharacter {
            c: data@[first_non_hex(data@) as int] as char,
            index: first_non_hex(data@) as usize,
        }),
{
    match hex::decode(data) {
        Ok(v) => Ok(v),
        Err(hex::FromHexError::InvalidHexCharacter { c, index }) => Err(
            HexError::InvalidHexCharacter { c, index },
        ),
        Err(hex::FromHexError::OddLength) => Err(HexError::OddLength),
        Err(hex::FromHexError::InvalidStringLength) => Err(HexError::InvalidStringLength),
    }
}

/// Why a snapshot file could not be read.
#[derive(Debug)]
pub enum RdbError {
    /// The file is not UTF-8 text.
    NotText,
    /// The text is not hex digits.
    NotHex(HexError),
}

/// What a snapshot file gives: its bytes, where it is UTF-8 text of an even
/// number of hex digits; otherwise the first thing wrong with it.
pub open spec fn snapshot(file: Seq<u8>) -> Result<Seq<u8>, RdbError> {
    if !valid_utf8(file) {
        Err(RdbError::NotText)
    } else if file.len() % 2 != 0 {
        Err(RdbError::NotHex(HexError::OddLength))
    } else if !all_hex(file) {
        Err(
            RdbError::NotHex(
                HexError::InvalidHexCharacter {
                    c: file[first_non_hex(file) as int] as char,
                    index: first_non_hex(file) as usize,
                },
            ),
        )
    } else {
        Ok(hex_bytes(file))
    }
}

/// The snapshot's bytes: the file must be UTF-8 text of hex digits.
pub fn rdb_payload(file: &[u8]) -> (r: Result<Vec<u8>, RdbError>)
    ensures
        match snapshot(file@) {
            Ok(b) => r is Ok && r->Ok_0@ == b,
            Err(e) => r is Err && r->Err_0 == e,
        },
{
    match str_from_utf8(file) {
        None => Err(RdbError::NotText),
        Some(_) => match hex_decode(file) {
            Ok(v) => Ok(v),
            Err(e) => Err(RdbError::NotHex(e)),
        },
    }
}

} // verus!
