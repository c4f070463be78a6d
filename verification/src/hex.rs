//! Hexadecimal text.
//!
//! The spec functions say what the text of a byte string is and which texts
//! decode; the two entry points hand the work to the `hex` codec that
//! `alloy_primitives` re-exports.

use vstd::prelude::*;
use vstd::slice::slice_index_get;

verus! {

/// Why a text does not decode as hexadecimal.
#[derive(Clone, Copy, Debug, PartialEq, Eq, Structural)]
pub enum HexError {
    /// A byte that is no hexadecimal digit, as a character, and where it stands
    /// behind the prefix.
    InvalidHexCharacter { c: char, index: usize },
    /// The text has an odd number of bytes.
    OddLength,
    /// The text does not fill a container of fixed size.
    InvalidStringLength,
}

/// The lowercase digit for `n`, where `0 <= n < 16`.
pub open spec fn hex_digit(n: int) -> char {
    if n < 10 {
        ((48 + n) as u8) as char
    } else {
        ((87 + n) as u8) as char
    }
}

/// The lowercase text of `data`: two digits for each byte, the high one first.
pub open spec fn hex_text(data: Seq<u8>) -> Seq<char> {
    Seq::new(
        2 * data.len(),
        |i: int|
            if i % 2 == 0 {
                hex_digit(data[i / 2] as int / 16)
            } else {
                hex_digit(data[i / 2] as int % 16)
            },
    )
}

/// What the digit `b` counts, in either case; `None` where `b` is no digit.
pub open spec fn hex_digit_value(b: u8) -> Option<int> {
    if 0x30 <= b <= 0x39 {
        Some(b - 0x30)
    } else if 0x61 <= b <= 0x66 {
        Some(b - 0x61 + 10)
    } else if 0x41 <= b <= 0x46 {
        Some(b - 0x41 + 10)
    } else {
        None
    }
}

/// `b` is one of `0` to `9` or `a` to `f`.
pub open spec fn is_lower_hex_digit(b: u8) -> bool {
    0x30 <= b <= 0x39 || 0x61 <= b <= 0x66
}

/// `text` is an even number of lowercase digits.
pub open spec fn is_lower_hex(text: Seq<u8>) -> bool {
    &&& text.len() % 2 == 0
    &&& forall|i: int| 0 <= i < text.len() ==> is_lower_hex_digit(#[trigger] text[i])
}

/// `input` without a leading `0x` or `0X`.
pub open spec fn strip_hex_prefix(input: Seq<u8>) -> Seq<u8> {
    if input.len() >= 2 && input[0] == 0x30 && (input[1] == 0x78 || input[1] == 0x58) {
        input.skip(2)
    } else {
        input
    }
}

/// Every byte of `digits` is a digit.
pub open spec fn all_hex_digits(digits: Seq<u8>) -> bool {
    forall|i: int| 0 <= i < digits.len() ==> hex_digit_value(#[trigger] digits[i]) is Some
}

/// `index` is where the first byte of `digits` stands that is no digit.
pub open spec fn is_first_bad_digit(digits: Seq<u8>, index: int) -> bool {
    &&& 0 <= index < digits.len()
    &&& hex_digit_value(digits[index]) is None
    &&& forall|j: int| 0 <= j < index ==> hex_digit_value(#[trigger] digits[j]) is Some
}

/// The bytes that the digit pairs of `digits` stand for.
pub open spec fn hex_bytes(digits: Seq<u8>) -> Seq<u8> {
    Seq::new(
        digits.len() / 2,
        |k: int|
            (16 * hex_digit_value(digits[2 * k]).unwrap() + hex_digit_value(
                digits[2 * k + 1],
            ).unwrap()) as u8,
    )
}

/// `r` is what decoding `input` gives: an odd length is refused first, then a
/// prefix is dropped, then the first byte that is no digit is reported.
pub open spec fn hex_decoded(input: Seq<u8>, r: Result<Seq<u8>, HexError>) -> bool {
    let digits = strip_hex_prefix(input);
    match r {
        Ok(bytes) => {
            &&& input.len() % 2 == 0
            &&& all_hex_digits(digits)
            &&& bytes == hex_bytes(digits)
        },
        Err(HexError::OddLength) => input.len() % 2 != 0,
        Err(HexError::InvalidHexCharacter { c, index }) => {
            &&& input.len() % 2 == 0
            &&& is_first_bad_digit(digits, index as int)
            &&& c == digits[index as int] as char
        },
        Err(HexError::InvalidStringLength) => false,
    }
}

/// What decoding `input` gives, as a function of `input`.
pub open spec fn hex_decoding(input: Seq<u8>) -> Result<Seq<u8>, HexError> {
    let digits = strip_hex_prefix(input);
    if input.len() % 2 != 0 {
        Err(HexError::OddLength)
    } else if all_hex_digits(digits) {
        Ok(hex_bytes(digits))
    } else {
        let index = choose|i: int| is_first_bad_digit(digits, i);
        Err(HexError::InvalidHexCharacter { c: digits[index] as char, index: index as usize })
    }
}

/// A decoded result with the bytes as a sequence.
pub open spec fn decoded_view(r: Result<Vec<u8>, HexError>) -> Result<Seq<u8>, HexError> {
    match r {
        Ok(bytes) => Ok(bytes@),
        Err(e) => Err(e),
    }
}

/// Only one result is what decoding `input` gives.
pub proof fn lemma_hex_decoded_unique(input: Seq<u8>, r: Result<Seq<u8>, HexError>)
    requires
        hex_decoded(input, r),
    ensures
        r == hex_decoding(input),
{
    let digits = strip_hex_prefix(input);
    match r {
        Ok(bytes) => {},
        Err(HexError::OddLength) => {},
        Err(HexError::InvalidHexCharacter { c, index }) => {
            let first = choose|i: int| is_first_bad_digit(digits, i);
            assert(is_first_bad_digit(digits, index as int));
            assert(first == index as int) by {
                if first < index as int {
                    assert(hex_digit_value(digits[first]) is Some);
                } else if (index as int) < first {
                    assert(hex_digit_value(digits[index as int]) is Some);
                }
            }
        },
        Err(HexError::InvalidStringLength) => {},
    }
}

/// A text of lowercase digits decodes to the bytes of its digit pairs.
pub proof fn lemma_lower_hex_decodes(text: Seq<u8>)
    requires
        is_lower_hex(text),
    ensures
        hex_decoding(text) == Ok::<Seq<u8>, HexError>(hex_bytes(text)),
{
    assert(strip_hex_prefix(text) == text) by {
        if text.len() >= 2 {
            assert(is_lower_hex_digit(text[1]));
        }
    }
    assert(all_hex_digits(text)) by {
        assert forall|i: int| 0 <= i < text.len() implies hex_digit_value(
            #[trigger] text[i],
        ) is Some by {
            assert(is_lower_hex_digit(text[i]));
        }
    }
}

/// The message that the codec prints for an error.
pub uninterp spec fn hex_error_text(e: HexError) -> Seq<char>;

/// Whether `text` is an even number of lowercase digits.
pub fn check_lower_hex(text: &[u8]) -> (ok: bool)
    ensures
        ok == is_lower_hex(text@),
{
    if text.len() % 2 != 0 {
        return false;
    }
    let mut i: usize = 0;
    while i < text.len()
        invariant
            i <= text@.len(),
            forall|j: int| 0 <= j < i ==> is_lower_hex_digit(#[trigger] text@[j]),
        decreases text@.len() - i,
    {
        let b = *slice_index_get(text, i);
        if !((0x30 <= b && b <= 0x39) || (0x61 <= b && b <= 0x66)) {
            return false;
        }
        i = i + 1;
    }
    true
}

/// `hex::encode` of `alloy_primitives`: the lowercase text of `data`, without
/// a prefix, two digits for each byte.
#[verifier::external_body]
pub(crate) fn hex_encode(data: &[u8]) -> (text: String)
    ensures
        text@ == hex_text(data@),
{
    alloy_primitives::hex::encode(data)
}

/// `hex::decode` of `alloy_primitives`. It refuses an odd number of bytes,
/// then drops a leading `0x` or `0X`, then reads digits of either case in
/// pairs; on the first byte that is no digit it reports that byte, as a
/// character, and its place behind the prefix.
#[verifier::external_body]
pub(crate) fn hex_decode(input: &[u8]) -> (r: Result<Vec<u8>, HexError>)
    ensures
        hex_decoded(input@, decoded_view(r)),
{
    match alloy_primitives::hex::decode(input) {
        Ok(bytes) => Ok(bytes),
        Err(alloy_primitives::hex::FromHexError::InvalidHexCharacter { c, index }) => Err(
            HexError::InvalidHexCharacter { c, index },
        ),
        Err(alloy_primitives::hex::FromHexError::OddLength) => Err(HexError::OddLength),
        Err(alloy_primitives::hex::FromHexError::InvalidStringLength) => Err(
            HexError::InvalidStringLength,
        ),
    }
}

/// `to_string` of the codec's `FromHexError`: the message for `e`. The two
/// errors without fields print a fixed text.
#[verifier::external_body]
pub(crate) fn hex_error_message(e: HexError) -> (text: String)
    ensures
        text@ == hex_error_text(e),
        e is OddLength ==> text@ == "odd number of digits"@,
        e is InvalidStringLength ==> text@ == "invalid string length"@,
{
    match e {
        HexError::InvalidHexCharacter { c, index } => {
            alloy_primitives::hex::FromHexError::InvalidHexCharacter { c, index }
        },
        HexError::OddLength => alloy_primitives::hex::FromHexError::OddLength,
        HexError::InvalidStringLength => alloy_primitives::hex::FromHexError::InvalidStringLength,
    }.to_string()
}

} // verus!
