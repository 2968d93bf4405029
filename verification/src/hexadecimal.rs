//! Hexadecimal text of byte strings.
use vstd::prelude::*;

verus! {

/// The lower-case hexadecimal digit that stands for `v`, where `v < 16`.
pub open spec fn digit_char(v: int) -> char {
    if v < 10 {
        (48 + v) as char
    } else {
        (87 + v) as char
    }
}

/// The value of a hexadecimal digit of either case; `None` for any other
/// character.
pub open spec fn digit_value(c: char) -> Option<int> {
    if '0' <= c <= '9' {
        Some(c as int - 48)
    } else if 'a' <= c <= 'f' {
        Some(c as int - 87)
    } else if 'A' <= c <= 'F' {
        Some(c as int - 55)
    } else {
        None
    }
}

/// Whether every character of `text` is a hexadecimal digit.
pub open spec fn all_digits(text: Seq<char>) -> bool {
    forall|i: int| 0 <= i < text.len() ==> (#[trigger] digit_value(text[i])) is Some
}

/// The lower-case hexadecimal text of `bytes`: two digits for each byte, the
/// high half first.
pub open spec fn text_of(bytes: Seq<u8>) -> Seq<char> {
    Seq::new(
        2 * bytes.len(),
        |i: int|
            if i % 2 == 0 {
                digit_char(bytes[i / 2] as int / 16)
            } else {
                digit_char(bytes[i / 2] as int % 16)
            },
    )
}

/// The bytes that `text` stands for: `None` unless `text` has an even number
/// of characters which are all hexadecimal digits.
pub open spec fn bytes_of(text: Seq<char>) -> Option<Seq<u8>> {
    if text.len() % 2 == 0 && all_digits(text) {
        Some(
            Seq::new(
                text.len() / 2,
                |i: int| (16 * digit_value(text[2 * i])->0 + digit_value(text[2 * i + 1])->0) as u8,
            ),
        )
    } else {
        None
    }
}

/// `hex::FromHexError`, the reason why a text could not be decoded. Nothing
/// is read from it.
#[verifier::external_type_specification]
#[verifier::external_body]
pub struct ExFromHexError(hex::FromHexError);

/// `hex::encode` on a byte slice. Trusted: the result is the lower-case
/// hexadecimal text of the bytes, two digits for each.
#[verifier::external_body]
pub(crate) fn encode(bytes: &[u8]) -> (text: String)
    ensures
        text@ == text_of(bytes@),
{
    hex::encode(bytes)
}

/// `hex::decode` on a string. Trusted: it succeeds exactly on texts of even
/// length made of hexadecimal digits of either case, and then returns the
/// bytes that the digits stand for, pair by pair.
#[verifier::external_body]
pub(crate) fn decode(text: &str) -> (bytes: Result<Vec<u8>, hex::FromHexError>)
    ensures
        match bytes {
            Ok(b) => bytes_of(text@) == Some(b@),
            Err(_) => bytes_of(text@) is None,
        },
{
    hex::decode(text)
}

/// Decoding the text of a byte string gives the byte string back.
pub proof fn lemma_bytes_of_text(bytes: Seq<u8>)
    ensures
        text_of(bytes).len() == 2 * bytes.len(),
        all_digits(text_of(bytes)),
        bytes_of(text_of(bytes)) == Some(bytes),
{
    let text = text_of(bytes);
    assert forall|i: int| 0 <= i < text.len() implies (#[trigger] digit_value(text[i])) is Some by {
        let b = bytes[i / 2] as int;
        assert(0 <= b / 16 < 16 && 0 <= b % 16 < 16);
    }
    assert(text.len() / 2 == bytes.len());
    let back = bytes_of(text)->0;
    assert forall|k: int| 0 <= k < bytes.len() implies back[k] == bytes[k] by {
        let b = bytes[k] as int;
        assert((2 * k) / 2 == k && (2 * k) % 2 == 0);
        assert((2 * k + 1) / 2 == k && (2 * k + 1) % 2 == 1);
        assert(digit_value(text[2 * k]) == Some(b / 16));
        assert(digit_value(text[2 * k + 1]) == Some(b % 16));
        assert(16 * (b / 16) + b % 16 == b);
    }
    assert(back =~= bytes);
}

} // verus!
