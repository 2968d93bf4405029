//! The SHA-256 digest of a byte string.
use sha2::Digest;
use vstd::prelude::*;

verus! {

/// The SHA-256 digest of `input`, as computed by the `sha2` crate.
pub uninterp spec fn sha256(input: Seq<u8>) -> Seq<u8>;

/// `sha2::Sha256`: one `update` with the whole input, then `finalize`.
/// Trusted: the thirty-two bytes returned are a function of the input bytes
/// alone, which the contract names `sha256`.
#[verifier::external_body]
pub(crate) fn digest(input: &[u8]) -> (out: [u8; 32])
    ensures
        out@ == sha256(input@),
{
    let mut h = sha2::Sha256::new();
    h.update(input);
    h.finalize().into()
}

} // verus!
