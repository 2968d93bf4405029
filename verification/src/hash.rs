//! Content hashes: SHA-256 digests written as hexadecimal text.
use crate::hexadecimal;
use crate::sha256;
use vstd::prelude::*;
use vstd::utf8::encode_utf8;

verus! {

/// The text of a digest: sixty-four hexadecimal digits.
#[derive(Debug, PartialEq)]
pub struct Hash(pub String);

/// Whether `text` has the form of a digest: sixty-four characters, all of
/// them hexadecimal digits.
pub open spec fn is_digest_text(text: Seq<char>) -> bool {
    text.len() == 64 && hexadecimal::all_digits(text)
}

/// The digest text of `input`: the lower-case hexadecimal text of its
/// SHA-256 digest.
pub open spec fn digest_text(input: Seq<u8>) -> Seq<char> {
    hexadecimal::text_of(sha256::sha256(input))
}

/// The text of the blank hash: sixty-four zeros.
pub open spec fn blank_text() -> Seq<char> {
    Seq::new(64, |i: int| '0')
}

/// The digest bytes that a hash text stands for, if it is well formed.
pub open spec fn digest_bytes(text: Seq<char>) -> Option<Seq<u8>> {
    hexadecimal::bytes_of(text)
}

impl View for Hash {
    type V = Seq<char>;

    open spec fn view(&self) -> Seq<char> {
        self.0@
    }
}

impl Clone for Hash {
    fn clone(&self) -> (copy: Self)
        ensures
            copy == *self,
    {
        Hash(self.0.clone())
    }
}

/// A digest text always has the form that `Hash` asks for, and stands for the
/// thirty-two bytes it was made from.
pub proof fn lemma_digest_text_wf(input: Seq<u8>)
    requires
        sha256::sha256(input).len() == 32,
    ensures
        is_digest_text(digest_text(input)),
        digest_bytes(digest_text(input)) == Some(sha256::sha256(input)),
{
    hexadecimal::lemma_bytes_of_text(sha256::sha256(input));
}

/// Equal inputs have equal digest texts.
pub proof fn lemma_digest_deterministic(a: Seq<u8>, b: Seq<u8>)
    requires
        a == b,
    ensures
        digest_text(a) == digest_text(b),
{
}

fn is_digit_byte(b: u8) -> (yes: bool)
    ensures
        b < 128 ==> yes == (hexadecimal::digit_value(b as char) is Some),
{
    (48 <= b && b <= 57) || (97 <= b && b <= 102) || (65 <= b && b <= 70)
}

impl Hash {
    /// The form that every hash made by this library has.
    pub open spec fn wf(&self) -> bool {
        is_digest_text(self@)
    }

    /// Hashes `input`. The result is always `Ok`: a SHA-256 digest has
    /// thirty-two bytes, so its text has the form that `from_text` accepts.
    pub fn new(input: &[u8]) -> (made: Result<Hash, String>)
        ensures
            made matches Ok(h) && h@ == digest_text(input@) && h.wf(),
    {
        let digest = sha256::digest(input);
        let text = hexadecimal::encode(digest.as_slice());
        proof {
            lemma_digest_text_wf(input@);
        }
        Hash::from_text(text)
    }

    /// Takes `text` as a hash if it has the form of one. A text whose UTF-8
    /// encoding is not sixty-four bytes long is refused for its length; one of
    /// that length that holds a character other than a hexadecimal digit is
    /// refused for its characters.
    pub fn from_text(text: String) -> (made: Result<Hash, String>)
        ensures
            made is Ok <==> is_digest_text(text@),
            made matches Ok(h) ==> h@ == text@,
            made matches Err(e) ==> e@ == (if encode_utf8(text@).len() != 64 {
                "Hash must be 64 characters long."@
            } else {
                "Hash must contain only hexadecimal characters."@
            }),
    {
        broadcast use vstd::string::is_ascii_spec_bytes;
        broadcast use vstd::utf8::is_ascii_chars_encode_utf8;

        let s = text.as_str();
        let bytes = s.as_bytes();
        if bytes.len() != 64 {
            proof {
                if vstd::utf8::is_ascii_chars(text@) {
                    assert(text@.len() != 64);
                } else {
                    let i = choose|i: int|
                        0 <= i < text@.len() && !('\0' <= #[trigger] text@[i] <= '\u{7f}');
                    assert(hexadecimal::digit_value(text@[i]) is None);
                }
            }
            return Err("Hash must be 64 characters long.".to_owned());
        }
        if !s.is_ascii() {
            proof {
                let i = choose|i: int|
                    0 <= i < text@.len() && !('\0' <= #[trigger] text@[i] <= '\u{7f}');
                assert(hexadecimal::digit_value(text@[i]) is None);
            }
            return Err("Hash must contain only hexadecimal characters.".to_owned());
        }
        let mut i: usize = 0;
        while i < 64
            invariant
                0 <= i <= 64,
                text@.len() == 64,
                bytes@.len() == 64,
                bytes@ == encode_utf8(text@),
                vstd::utf8::is_ascii_chars(text@),
                forall|k: int| 0 <= k < 64 ==> bytes@[k] == text@[k] as u8,
                forall|k: int| 0 <= k < i ==> (#[trigger] hexadecimal::digit_value(text@[k])) is Some,
            decreases 64 - i,
        {
            let b = bytes[i];
            assert(b == text@[i as int] as u8);
            assert(b as char == text@[i as int]);
            if !is_digit_byte(b) {
                return Err("Hash must contain only hexadecimal characters.".to_owned());
            }
            i += 1;
        }
        Ok(Hash(text))
    }

    /// The blank hash, which stands where the first block has no predecessor.
    pub fn blank() -> (h: Hash)
        ensures
            h@ == blank_text(),
            h.wf(),
    {
        let zeros = "0000000000000000000000000000000000000000000000000000000000000000";
        proof {
            reveal_strlit("0000000000000000000000000000000000000000000000000000000000000000");
            assert(zeros@ =~= blank_text());
        }
        Hash(zeros.to_owned())
    }

    /// Whether two hashes have the same text.
    pub fn same(&self, other: &Hash) -> (yes: bool)
        ensures
            yes == (self@ == other@),
    {
        self.0 == other.0
    }
}

} // verus!
