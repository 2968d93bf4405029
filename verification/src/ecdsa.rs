//! Identities and signatures on the secp256k1 curve.
use secp256k1::rand::rngs::OsRng;
use secp256k1::{Message, PublicKey, Secp256k1};
use vstd::prelude::*;

verus! {

/// A public-key identity: the bytes of a compressed public key.
#[derive(Debug, Clone, Copy, PartialEq, Eq)]
pub struct Address {
    pub bytes: [u8; 33],
}

/// An ECDSA signature in compact form.
#[derive(Debug, Clone, Copy, PartialEq, Eq)]
pub struct Signature {
    pub bytes: [u8; 64],
}

/// A secret key. Its bytes cannot be read outside this module.
#[derive(Clone, Copy)]
pub struct SecretKey {
    bytes: [u8; 32],
}

impl View for SecretKey {
    type V = Seq<u8>;

    closed spec fn view(&self) -> Seq<u8> {
        self.bytes@
    }
}

impl View for Address {
    type V = Seq<u8>;

    open spec fn view(&self) -> Seq<u8> {
        self.bytes@
    }
}

impl View for Signature {
    type V = Seq<u8>;

    open spec fn view(&self) -> Seq<u8> {
        self.bytes@
    }
}

/// The compact signature that the secret key `secret` makes over `digest`;
/// `None` where `secret` is no valid secret key or `digest` is not thirty-two
/// bytes long.
pub uninterp spec fn signature_of(secret: Seq<u8>, digest: Seq<u8>) -> Option<Seq<u8>>;

/// Whether `signature` is accepted as the signature of the holder of the
/// public key `address` over `digest`.
pub uninterp spec fn accepts(address: Seq<u8>, digest: Seq<u8>, signature: Seq<u8>) -> bool;

/// `Secp256k1::sign_ecdsa`, on a key and a message read from bytes, with the
/// signature written in compact form. Trusted: whether there is a signature,
/// and which, depends on the two byte strings alone; the contract names it
/// `signature_of`.
#[verifier::external_body]
pub(crate) fn sign(secret: &SecretKey, digest: &[u8]) -> (made: Option<Signature>)
    ensures
        match made {
            Some(signature) => signature_of(secret@, digest@) == Some(signature@),
            None => signature_of(secret@, digest@) is None,
        },
{
    let key = secp256k1::SecretKey::from_slice(&secret.bytes).ok()?;
    let message = Message::from_digest_slice(digest).ok()?;
    Some(Signature { bytes: Secp256k1::new().sign_ecdsa(&message, &key).serialize_compact() })
}

/// `Secp256k1::verify_ecdsa`, on a key, a message and a signature read from
/// bytes. Trusted: the verdict depends on the three byte strings alone; the
/// contract names it `accepts`. Bytes that are no key, no digest or no
/// signature are not accepted.
#[verifier::external_body]
pub(crate) fn verify(address: &Address, digest: &[u8], signature: &Signature) -> (yes: bool)
    ensures
        yes == accepts(address@, digest@, signature@),
{
    let key = PublicKey::from_slice(&address.bytes);
    let message = Message::from_digest_slice(digest);
    let parsed = secp256k1::ecdsa::Signature::from_compact(&signature.bytes);
    match (key, message, parsed) {
        (Ok(k), Ok(m), Ok(s)) => Secp256k1::new().verify_ecdsa(&m, &s, &k).is_ok(),
        _ => false,
    }
}

/// `Secp256k1::generate_keypair` with the operating system's random numbers:
/// a fresh secret key and its public key, as bytes. Nothing is claimed of
/// them.
#[verifier::external_body]
pub(crate) fn generate_keypair() -> (pair: (SecretKey, Address)) {
    let (secret, public) = Secp256k1::new().generate_keypair(&mut OsRng);
    (SecretKey { bytes: secret.secret_bytes() }, Address { bytes: public.serialize() })
}

/// Whether two byte strings are the same.
pub fn same_bytes(a: &[u8], b: &[u8]) -> (yes: bool)
    ensures
        yes == (a@ == b@),
{
    if a.len() != b.len() {
        return false;
    }
    let mut i: usize = 0;
    while i < a.len()
        invariant
            a@.len() == b@.len(),
            0 <= i <= a@.len(),
            forall|k: int| 0 <= k < i ==> a@[k] == b@[k],
        decreases a@.len() - i,
    {
        if a[i] != b[i] {
            return false;
        }
        i += 1;
    }
    assert(a@ =~= b@);
    true
}

impl Address {
    /// Whether `self` and `other` are the same identity.
    pub fn same(&self, other: &Address) -> (yes: bool)
        ensures
            yes == (self@ == other@),
    {
        same_bytes(self.bytes.as_slice(), other.bytes.as_slice())
    }
}

} // verus!
