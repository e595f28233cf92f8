use vstd::prelude::*;
use vstd::utf8::*;

verus! {

/// The ASCII code of the lowercase hexadecimal digit for `n` (`n < 16`).
pub open spec fn hex_digit(n: int) -> u8 {
    if n < 10 {
        (48 + n) as u8
    } else {
        (87 + n) as u8
    }
}

/// Lowercase hexadecimal encoding of `data`, as ASCII bytes: two digits per
/// byte, the high nibble first.
pub open spec fn hex_encode_bytes(data: Seq<u8>) -> Seq<u8> {
    Seq::new(
        2 * data.len(),
        |i: int|
            if i % 2 == 0 {
                hex_digit(data[i / 2] as int / 16)
            } else {
                hex_digit(data[i / 2] as int % 16)
            },
    )
}

/// The same encoding as characters.
pub open spec fn hex_encode_chars(data: Seq<u8>) -> Seq<char> {
    Seq::new(2 * data.len(), |i: int| hex_encode_bytes(data)[i] as char)
}

/// Calls `alloy::hex::encode` (the `const_hex` crate's `encode`), which writes each
/// byte of its input as two lowercase hexadecimal digits, high nibble first,
/// with no prefix.
#[verifier::external_body]
pub(crate) fn hex_encode(data: &[u8]) -> (encoded: String)
    ensures
        encoded@ == hex_encode_chars(data@),
{
    alloy::hex::encode(data)
}

/// The lowercase hexadecimal encoding of `data`, as bytes.
pub fn hex_encode_to_vec(data: &[u8]) -> (encoded: Vec<u8>)
    ensures
        encoded@ == hex_encode_bytes(data@),
        valid_utf8(encoded@),
{
    let text = hex_encode(data);
    let encoded = text.as_str().as_bytes_vec();
    proof {
        let chars = hex_encode_chars(data@);
        assert(is_ascii_chars(chars));
        is_ascii_chars_encode_utf8(chars);
        encode_utf8_valid_utf8(chars);
        assert(encoded@ =~= hex_encode_bytes(data@));
    }
    encoded
}

/// The value of the hexadecimal digit with ASCII code `c` (either case).
pub open spec fn hex_digit_value(c: u8) -> Option<int> {
    if 48 <= c <= 57 {
        Some(c - 48)
    } else if 65 <= c <= 70 {
        Some(c - 55)
    } else if 97 <= c <= 102 {
        Some(c - 87)
    } else {
        None
    }
}

/// `text` without a leading `0x` or `0X`.
pub open spec fn strip_hex_prefix(text: Seq<u8>) -> Seq<u8> {
    if text.len() >= 2 && text[0] == 48 && (text[1] == 120 || text[1] == 88) {
        text.subrange(2, text.len() as int)
    } else {
        text
    }
}

/// Hexadecimal decoding as `const_hex::decode` does it: the whole input must have
/// an even length; an optional `0x`/`0X` prefix is dropped; every remaining byte
/// must be a hexadecimal digit; each pair of digits gives one byte.
pub open spec fn hex_decode_spec(text: Seq<u8>) -> Option<Seq<u8>> {
    let digits = strip_hex_prefix(text);
    if text.len() % 2 != 0 {
        None
    } else if exists|i: int| 0 <= i < digits.len() && (#[trigger] hex_digit_value(digits[i])) is None {
        None
    } else {
        Some(
            Seq::new(
                digits.len() / 2,
                |i: int|
                    (hex_digit_value(digits[2 * i])->0 * 16 + hex_digit_value(digits[2 * i + 1])->0) as u8,
            ),
        )
    }
}

/// Why hexadecimal decoding refused its input.
pub enum HexFailure {
    /// The input has an odd length.
    OddLength,
    /// The character `c` at `index` of the digits (the input without its optional
    /// `0x`/`0X` prefix) is not a hexadecimal digit.
    InvalidCharacter { c: char, index: usize },
    /// The output does not have the length that the input gives.
    InvalidStringLength,
}

/// `failure` is what decoding `text` reports: `OddLength` when the whole input
/// has an odd length, else the first digit that is not hexadecimal and its
/// position among the digits.
pub open spec fn hex_decode_failure(text: Seq<u8>, failure: HexFailure) -> bool {
    let digits = strip_hex_prefix(text);
    match failure {
        HexFailure::OddLength => text.len() % 2 != 0,
        HexFailure::InvalidCharacter { c, index } => {
            &&& text.len() % 2 == 0
            &&& index < digits.len()
            &&& hex_digit_value(digits[index as int]) is None
            &&& c as int == digits[index as int] as int
            &&& forall|j: int| 0 <= j < index ==> (#[trigger] hex_digit_value(digits[j])) is Some
        },
        HexFailure::InvalidStringLength => false,
    }
}

/// Calls `alloy::hex::decode` (the `const_hex` crate's `decode`): an input of odd
/// length is refused as such; one whose digits (after an optional `0x`/`0X`
/// prefix) are not all hexadecimal is refused with the first such digit and its
/// position among the digits; otherwise each pair of digits becomes one byte.
#[verifier::external_body]
pub(crate) fn hex_decode(text: &[u8]) -> (decoded: Result<Vec<u8>, HexFailure>)
    ensures
        match decoded {
            Ok(bytes) => hex_decode_spec(text@) == Some(bytes@),
            Err(failure) => hex_decode_spec(text@) is None && hex_decode_failure(text@, failure),
        },
{
    match alloy::hex::decode(text) {
        Ok(bytes) => Ok(bytes),
        Err(alloy::hex::FromHexError::OddLength) => Err(HexFailure::OddLength),
        Err(alloy::hex::FromHexError::InvalidHexCharacter { c, index }) => {
            Err(HexFailure::InvalidCharacter { c, index })
        },
        Err(alloy::hex::FromHexError::InvalidStringLength) => Err(HexFailure::InvalidStringLength),
    }
}

proof fn lemma_hex_digit_value(n: int)
    requires
        0 <= n < 16,
    ensures
        hex_digit_value(hex_digit(n)) == Some(n),
{
}

/// Decoding the lowercase hexadecimal encoding of any bytes gives those bytes back.
pub proof fn lemma_hex_roundtrip(data: Seq<u8>)
    ensures
        hex_decode_spec(hex_encode_bytes(data)) == Some(data),
{
    let encoded = hex_encode_bytes(data);
    assert forall|i: int| 0 <= i < encoded.len() implies (#[trigger] hex_digit_value(encoded[i])) == Some(
        if i % 2 == 0 {
            data[i / 2] as int / 16
        } else {
            data[i / 2] as int % 16
        },
    ) by {
        if i % 2 == 0 {
            lemma_hex_digit_value(data[i / 2] as int / 16);
        } else {
            lemma_hex_digit_value(data[i / 2] as int % 16);
        }
    }
    if encoded.len() >= 2 {
        assert(hex_digit_value(encoded[1]) is Some);
        assert(encoded[1] != 120 && encoded[1] != 88);
    }
    assert(strip_hex_prefix(encoded) == encoded);
    assert forall|i: int| 0 <= i < data.len() implies (hex_digit_value(encoded[2 * i])->0 * 16 + hex_digit_value(
        encoded[2 * i + 1],
    )->0) as u8 == data[i] by {
        assert(hex_digit_value(encoded[2 * i]) == Some(data[i] as int / 16));
        assert(hex_digit_value(encoded[2 * i + 1]) == Some(data[i] as int % 16));
    }
    let decoded = Seq::new(
        encoded.len() / 2,
        |i: int| (hex_digit_value(encoded[2 * i])->0 * 16 + hex_digit_value(encoded[2 * i + 1])->0) as u8,
    );
    assert(decoded =~= data);
}

} // verus!
