//! Bytes as text: hexadecimal digits and hashes.

use vstd::prelude::*;

verus! {

/// The hexadecimal digit, in lower case, of a number below sixteen.
pub open spec fn hex_digit(value: nat) -> char {
    if value < 10 {
        (48 + value) as char
    } else {
        (87 + value) as char
    }
}

/// The hexadecimal digits of these bytes, two for each.
pub open spec fn hex_digits(bytes: Seq<u8>) -> Seq<char> {
    Seq::new(
        2 * bytes.len(),
        |i: int|
            if i % 2 == 0 {
                hex_digit((bytes[i / 2] / 16) as nat)
            } else {
                hex_digit((bytes[i / 2] % 16) as nat)
            },
    )
}

/// The value of a hexadecimal digit of either case.
pub open spec fn digit_value(digit: char) -> Option<nat> {
    if '0' <= digit <= '9' {
        Some((digit as nat - 48) as nat)
    } else if 'a' <= digit <= 'f' {
        Some((digit as nat - 87) as nat)
    } else if 'A' <= digit <= 'F' {
        Some((digit as nat - 55) as nat)
    } else {
        None
    }
}

/// Two hexadecimal digits for each byte.
pub open spec fn is_hex(text: Seq<char>) -> bool {
    &&& text.len() % 2 == 0
    &&& forall|i: int| 0 <= i < text.len() ==> digit_value(#[trigger] text[i]) is Some
}

/// The bytes that hexadecimal digits stand for.
pub open spec fn hex_bytes(text: Seq<char>) -> Seq<u8> {
    Seq::new(
        text.len() / 2,
        |i: int| (16 * digit_value(text[2 * i])->0 + digit_value(text[2 * i + 1])->0) as u8,
    )
}

/// `hex::encode`: two digits in lower case for each byte.
#[verifier::external_body]
pub(crate) fn hex_encode(bytes: &[u8]) -> (r: String)
    ensures
        r@ == hex_digits(bytes@),
{
    hex::encode(bytes)
}

/// `hex::decode`: the bytes of an even number of digits of either case, and nothing for other text.
#[verifier::external_body]
pub(crate) fn hex_decode(text: &str) -> (r: Option<Vec<u8>>)
    ensures
        r is Some <==> is_hex(text@),
        r is Some ==> r->0@ == hex_bytes(text@),
{
    hex::decode(text).ok()
}

/// What was written as hexadecimal digits is read back.
pub proof fn law_hex_round_trip(bytes: Seq<u8>)
    ensures
        is_hex(hex_digits(bytes)),
        hex_bytes(hex_digits(bytes)) == bytes,
{
    let text = hex_digits(bytes);
    assert forall|i: int| 0 <= i < text.len() implies digit_value(#[trigger] text[i]) is Some by {
        let b = bytes[i / 2];
        assert(b / 16 < 16 && b % 16 < 16);
    }
    assert forall|i: int| 0 <= i < bytes.len() implies #[trigger] hex_bytes(text)[i] == bytes[i] by {
        let b = bytes[i];
        assert((2 * i) / 2 == i && (2 * i) % 2 == 0);
        assert((2 * i + 1) / 2 == i && (2 * i + 1) % 2 == 1);
        assert(digit_value(text[2 * i]) == Some((b / 16) as nat));
        assert(digit_value(text[2 * i + 1]) == Some((b % 16) as nat));
    }
    assert(hex_bytes(text) =~= bytes);
}

/// The hexadecimal digits of the Blake2b hash of 160 bits.
pub uninterp spec fn blake2b_160(bytes: Seq<u8>) -> Seq<char>;

/// `pallas_crypto`'s `Hasher::<160>::hash`, in hexadecimal digits.
#[verifier::external_body]
pub(crate) fn hash_160(bytes: &[u8]) -> (r: String)
    ensures
        r@ == blake2b_160(bytes@),
{
    pallas_crypto::hash::Hasher::<160>::hash(bytes).to_string()
}

/// Each byte is two digits, the higher half first: `0` to `9`, then `a` to `f`.
pub proof fn law_bytes_are_two_digits(bytes: Seq<u8>, i: int)
    requires
        0 <= i < bytes.len(),
    ensures
        hex_digits(bytes).len() == 2 * bytes.len(),
        hex_digits(bytes)[2 * i] as int == (bytes[i] / 16) + if bytes[i] / 16 < 10 { 48int } else { 87 },
        hex_digits(bytes)[2 * i + 1] as int == (bytes[i] % 16) + if bytes[i] % 16 < 10 { 48int } else { 87 },
{
    assert((2 * i) / 2 == i && (2 * i) % 2 == 0);
    assert((2 * i + 1) / 2 == i && (2 * i + 1) % 2 == 1);
}

} // verus!
