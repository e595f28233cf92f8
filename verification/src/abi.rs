use alloy::sol_types::SolValue;
use vstd::prelude::*;
use vstd::arithmetic::power::pow;
use vstd::utf8::encode_utf8;

verus! {

/// Calls `SolValue::abi_encode_packed` of `alloy::sol_types` on the tuple
/// `(Bytes, Address, FixedBytes<32>, FixedBytes<32>)` built from the arguments.
/// Trusted: in packed mode a `bytes` value, an `address` and a `bytes32` are each
/// written as their raw bytes without padding, one after the other, so the result
/// is the concatenation of the four arguments.
#[verifier::external_body]
pub(crate) fn abi_encode_packed_create2(
    prefix: &[u8],
    factory: [u8; 20],
    salt: [u8; 32],
    code_hash: [u8; 32],
) -> (encoded: Vec<u8>)
    ensures
        encoded@ == prefix@ + factory@ + salt@ + code_hash@,
{
    (
        alloy::primitives::Bytes::copy_from_slice(prefix),
        alloy::primitives::Address::from(factory),
        alloy::primitives::FixedBytes::<32>::from(salt),
        alloy::primitives::FixedBytes::<32>::from(code_hash),
    ).abi_encode_packed()
}

/// `n` zero bytes.
pub open spec fn zeros(n: nat) -> Seq<u8> {
    Seq::new(n, |i: int| 0u8)
}

/// An address as one ABI word: twelve zero bytes, then its twenty bytes.
pub open spec fn address_word(address: Seq<u8>) -> Seq<u8> {
    zeros(12) + address
}

/// `value` as one ABI word: 32 bytes, big-endian.
pub open spec fn uint_word(value: nat) -> Seq<u8> {
    Seq::new(32, |i: int| ((value as int / pow(256, (31 - i) as nat)) % 256) as u8)
}

/// An `int32` as one ABI word: 28 bytes of sign extension, then the four
/// big-endian bytes of its two's complement.
pub open spec fn int32_word(value: i32) -> Seq<u8> {
    Seq::new(
        32,
        |i: int|
            if i < 28 {
                if value < 0 {
                    0xffu8
                } else {
                    0u8
                }
            } else {
                (((value as u32) as int / pow(256, (31 - i) as nat)) % 256) as u8
            },
    )
}

/// The bytes of a `string` or `bytes` value in the tail of an ABI encoding:
/// its length as a word, then its bytes padded with zeros to a multiple of 32.
pub open spec fn dynamic_tail(bytes: Seq<u8>) -> Seq<u8> {
    uint_word(bytes.len()) + bytes + zeros(((32 - bytes.len() % 32) % 32) as nat)
}

/// Calls `SolValue::abi_encode` on an `Address`: one word, the address
/// left-padded with zeros.
#[verifier::external_body]
pub(crate) fn abi_encode_address(address: [u8; 20]) -> (encoded: Vec<u8>)
    ensures
        encoded@ == address_word(address@),
{
    alloy::primitives::Address::from(address).abi_encode()
}

/// Calls `SolValue::abi_encode` on a tuple `(Address, Address)`: a tuple of
/// static members is encoded in place, one word per address.
#[verifier::external_body]
pub(crate) fn abi_encode_address_pair(first: [u8; 20], second: [u8; 20]) -> (encoded: Vec<u8>)
    ensures
        encoded@ == address_word(first@) + address_word(second@),
{
    (alloy::primitives::Address::from(first), alloy::primitives::Address::from(second)).abi_encode()
}

/// Calls `SolValue::abi_encode` on a tuple `(Address, Address, Address)`: one word
/// per address, in order.
#[verifier::external_body]
pub(crate) fn abi_encode_address_triple(first: [u8; 20], second: [u8; 20], third: [u8; 20]) -> (encoded: Vec<u8>)
    ensures
        encoded@ == address_word(first@) + address_word(second@) + address_word(third@),
{
    (
        alloy::primitives::Address::from(first),
        alloy::primitives::Address::from(second),
        alloy::primitives::Address::from(third),
    ).abi_encode()
}

/// Calls `SolValue::abi_encode` on a tuple `(Address, Address, &str)`. The tuple
/// has a dynamic member, and `abi_encode` encodes it as a single value: first the
/// offset of the tuple (32), then the tuple itself, whose head holds the two
/// addresses and the offset of the string within the tuple (96), and whose tail
/// holds the string's length and its UTF-8 bytes padded to a whole word.
#[verifier::external_body]
pub(crate) fn abi_encode_addresses_and_string(first: [u8; 20], second: [u8; 20], text: &str) -> (encoded: Vec<u8>)
    ensures
        encoded@ == uint_word(32) + address_word(first@) + address_word(second@) + uint_word(96)
            + dynamic_tail(encode_utf8(text@)),
{
    (alloy::primitives::Address::from(first), alloy::primitives::Address::from(second), text).abi_encode()
}

/// Calls `SolValue::abi_encode` on a tuple `(Address, Address, i32, Address, Address)`:
/// five words in order, the `i32` as an `int32`.
#[verifier::external_body]
pub(crate) fn abi_encode_addresses_with_int32(
    first: [u8; 20],
    second: [u8; 20],
    number: i32,
    fourth: [u8; 20],
    fifth: [u8; 20],
) -> (encoded: Vec<u8>)
    ensures
        encoded@ == address_word(first@) + address_word(second@) + int32_word(number)
            + address_word(fourth@) + address_word(fifth@),
{
    (
        alloy::primitives::Address::from(first),
        alloy::primitives::Address::from(second),
        number,
        alloy::primitives::Address::from(fourth),
        alloy::primitives::Address::from(fifth),
    ).abi_encode()
}

} // verus!
