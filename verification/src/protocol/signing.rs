//! Ed25519 key pairs, signing and verification of messages.

use crate::error::Error;
use ring::rand::SystemRandom;
use ring::signature::{Ed25519KeyPair, KeyPair as RingKeyPair, UnparsedPublicKey, ED25519};
use vstd::pervasive::unreached;
use vstd::prelude::*;
use vstd::slice::slice_to_vec;

verus! {

/// The length of a public key in bytes.
pub const PUBLIC_KEY_LEN: usize = 32;

/// The length of a signature in bytes.
pub const SIGNATURE_LEN: usize = 64;

/// A public key as a peer reported it. Nothing is known of it until a
/// signature is verified against it.
#[derive(Debug, Clone, Copy)]
pub struct MaybeInvalidPublicKey(pub [u8; PUBLIC_KEY_LEN]);

/// A signature as it was read from the wire.
#[derive(Debug, Clone, Copy)]
pub struct MaybeInvalidSignature(pub [u8; SIGNATURE_LEN]);

/// A signature that this library made.
#[derive(Debug, Clone, Copy)]
pub struct Signature(pub [u8; SIGNATURE_LEN]);

/// The public key of the Ed25519 key pair that a PKCS#8 document holds, or
/// `None` where the document is rejected.
pub uninterp spec fn ed25519_public_key(pkcs8: Seq<u8>) -> Option<Seq<u8>>;

/// The Ed25519 signature that the key pair of a PKCS#8 document gives a
/// message.
pub uninterp spec fn ed25519_signature(pkcs8: Seq<u8>, msg: Seq<u8>) -> Seq<u8>;

/// Whether a signature of a message verifies against a public key.
pub uninterp spec fn ed25519_verifies(public_key: Seq<u8>, msg: Seq<u8>, signature: Seq<u8>) -> bool;

/// `ring::signature::Ed25519KeyPair::generate_pkcs8` with the system's random
/// number generator: a fresh key pair as a PKCS#8 document, or `None` where
/// the generator fails. Nothing is claimed of the document.
#[verifier::external_body]
fn generate_pkcs8() -> (r: Option<Vec<u8>>) {
    match Ed25519KeyPair::generate_pkcs8(&SystemRandom::new()) {
        Ok(document) => Some(document.as_ref().to_vec()),
        Err(_) => None,
    }
}

/// `ring::signature::Ed25519KeyPair::from_pkcs8`, and the public key of the
/// pair it parsed: the key is a function of the document, and is there
/// exactly where the document is accepted.
#[verifier::external_body]
fn parse_public_key(pkcs8: &[u8]) -> (r: Option<[u8; PUBLIC_KEY_LEN]>)
    ensures
        r is Some <==> ed25519_public_key(pkcs8@) is Some,
        r matches Some(key) ==> ed25519_public_key(pkcs8@) == Some(key@),
{
    match Ed25519KeyPair::from_pkcs8(pkcs8) {
        Ok(pair) => pair.public_key().as_ref().try_into().ok(),
        Err(_) => None,
    }
}

/// `ring::signature::Ed25519KeyPair::sign` on the pair of a PKCS#8 document.
/// Signing is deterministic; it happens exactly where the document is
/// accepted; and, as the crate documents for a pair and its public key, the
/// signature verifies against that public key.
#[verifier::external_body]
fn sign_with_pkcs8(pkcs8: &[u8], msg: &[u8]) -> (r: Option<[u8; SIGNATURE_LEN]>)
    ensures
        r is Some <==> ed25519_public_key(pkcs8@) is Some,
        r matches Some(sig) ==> sig@ == ed25519_signature(pkcs8@, msg@),
        r matches Some(sig) ==> ed25519_verifies(ed25519_public_key(pkcs8@).unwrap(), msg@, sig@),
{
    match Ed25519KeyPair::from_pkcs8(pkcs8) {
        Ok(pair) => pair.sign(msg).as_ref().try_into().ok(),
        Err(_) => None,
    }
}

/// `ring::signature::UnparsedPublicKey::verify` for Ed25519: whether the
/// signature is one of the message under the public key.
#[verifier::external_body]
fn verify_with_key(
    public_key: &[u8; PUBLIC_KEY_LEN],
    msg: &[u8],
    signature: &[u8; SIGNATURE_LEN],
) -> (ok: bool)
    ensures
        ok == ed25519_verifies(public_key@, msg@, signature@),
{
    UnparsedPublicKey::new(&ED25519, public_key).verify(msg, signature).is_ok()
}

/// An Ed25519 key pair, held as the PKCS#8 document it was made from together
/// with its public key. The document holds the private key, so a key pair
/// cannot be printed.
pub struct KeyPair {
    pkcs8: Vec<u8>,
    public_key: [u8; PUBLIC_KEY_LEN],
}

impl KeyPair {
    #[verifier::type_invariant]
    spec fn wf(self) -> bool {
        ed25519_public_key(self.pkcs8@) == Some(self.public_key@)
    }

    /// The PKCS#8 document of the pair.
    pub closed spec fn spec_pkcs8(self) -> Seq<u8> {
        self.pkcs8@
    }

    /// The public key of the pair.
    pub closed spec fn spec_public_key(self) -> Seq<u8> {
        self.public_key@
    }

    /// The public key of the pair, which is the one that its document holds.
    pub fn public_key(&self) -> (r: [u8; PUBLIC_KEY_LEN])
        ensures
            r@ == self.spec_public_key(),
            ed25519_public_key(self.spec_pkcs8()) == Some(r@),
    {
        proof {
            use_type_invariant(self);
        }
        self.public_key
    }

    /// The PKCS#8 document of the pair.
    pub fn pkcs8(&self) -> (r: &Vec<u8>)
        ensures
            r@ == self.spec_pkcs8(),
    {
        &self.pkcs8
    }
}

/// Signs a message. The signature is the one Ed25519 gives the message under
/// this key pair, and it verifies against the pair's public key.
pub fn sign(key: &KeyPair, msg: &[u8]) -> (sig: Signature)
    ensures
        sig.0@ == ed25519_signature(key.spec_pkcs8(), msg@),
        ed25519_verifies(key.spec_public_key(), msg@, sig.0@),
{
    proof {
        use_type_invariant(key);
    }
    match sign_with_pkcs8(key.pkcs8.as_slice(), msg) {
        Some(sig) => Signature(sig),
        None => unreached(),
    }
}

/// Verifies a signature of a message against a public key: `Ok` exactly where
/// it is one, else `Error::BadSignature`.
pub fn verify(key: &MaybeInvalidPublicKey, signature: &MaybeInvalidSignature, message: &[u8]) -> (r:
    Result<(), Error>)
    ensures
        r == (if ed25519_verifies(key.0@, message@, signature.0@) {
            Ok::<(), Error>(())
        } else {
            Err::<(), Error>(Error::BadSignature)
        }),
{
    if verify_with_key(&key.0, message, &signature.0) {
        Ok(())
    } else {
        Err(Error::BadSignature)
    }
}

/// Creates a key pair from a PKCS#8 document: the pair whose public key the
/// document holds, or `Error::KeyRejected` where the document is rejected.
pub fn key_pair_from_pkcs8_bytes(bytes: &[u8]) -> (r: Result<KeyPair, Error>)
    ensures
        match r {
            Ok(pair) => pair.spec_pkcs8() == bytes@ && ed25519_public_key(bytes@) == Some(
                pair.spec_public_key(),
            ),
            Err(e) => e == Error::KeyRejected && ed25519_public_key(bytes@) is None,
        },
{
    match parse_public_key(bytes) {
        Some(public_key) => {
            let pkcs8 = slice_to_vec(bytes);
            Ok(KeyPair { pkcs8, public_key })
        },
        None => Err(Error::KeyRejected),
    }
}

/// Makes a key pair of a freshly generated PKCS#8 document, which is handed
/// back beside it. Fails with `Error::Random` where the generator failed and
/// with `Error::KeyRejected` where the document is rejected.
pub fn key_pair_from_generated(document: Option<Vec<u8>>) -> (r: Result<(KeyPair, Vec<u8>), Error>)
    ensures
        match r {
            Ok((pair, pkcs8)) => document == Some(pkcs8) && pair.spec_pkcs8() == pkcs8@
                && ed25519_public_key(pkcs8@) == Some(pair.spec_public_key()),
            Err(e) => match document {
                None => e == Error::Random,
                Some(d) => e == Error::KeyRejected && ed25519_public_key(d@) is None,
            },
        },
{
    match document {
        None => Err(Error::Random),
        Some(pkcs8) => {
            match key_pair_from_pkcs8_bytes(pkcs8.as_slice()) {
                Ok(pair) => Ok((pair, pkcs8)),
                Err(e) => Err(e),
            }
        },
    }
}

/// Generates a key pair from the system's random number generator, returning
/// both the key pair and its PKCS#8 document.
pub fn new_key_pair() -> (r: Result<(KeyPair, Vec<u8>), Error>)
    ensures
        r matches Ok((pair, pkcs8)) ==> pair.spec_pkcs8() == pkcs8@ && ed25519_public_key(pkcs8@)
            == Some(pair.spec_public_key()),
        r matches Err(e) ==> e == Error::Random || e == Error::KeyRejected,
{
    key_pair_from_generated(generate_pkcs8())
}

} // verus!
