//! Symmetric keys for sealing and opening messages with AES-256-GCM, and the
//! nonces they are used with.

use super::{lemma_four_bytes, spec_be32};
use crate::error::Error;
use ring::aead::{Aad, LessSafeKey, Nonce, UnboundKey, AES_256_GCM};
use ring::agreement::{agree_ephemeral, EphemeralPrivateKey, UnparsedPublicKey, X25519};
use ring::rand::{SecureRandom, SystemRandom};
use vstd::prelude::*;

verus! {

/// The length of a nonce in bytes.
pub const NONCE_LEN: usize = 12;

/// The length of the random part of a nonce in bytes.
pub const NONCE_RANDOM_LEN: usize = 8;

/// The length of an AES-256 key in bytes.
pub const AES_256_KEY_LEN: usize = 32;

/// The length of the tag that sealing appends.
pub const TAG_LEN: usize = 16;

#[verifier::external_type_specification]
#[verifier::external_body]
pub struct ExEphemeralPrivateKey(ring::agreement::EphemeralPrivateKey);

/// The longest plaintext that AES-256-GCM seals under one nonce: the block
/// counter of the algorithm has 32 bits, of which two values go to the tag.
pub const SEAL_MAX_LEN: u64 = 68_719_476_704;

/// What AES-256-GCM makes of a plaintext under a key and a nonce, with no
/// associated data: the ciphertext followed by the tag, or `None` where the
/// plaintext is too long to be sealed.
pub uninterp spec fn aes_256_gcm_sealed(key: Seq<u8>, nonce: Seq<u8>, plaintext: Seq<u8>) -> Option<
    Seq<u8>,
>;

/// The plaintext that AES-256-GCM opens sealed data to under a key and a
/// nonce, with no associated data, or `None` where the data is not authentic.
pub uninterp spec fn aes_256_gcm_opened(key: Seq<u8>, nonce: Seq<u8>, sealed: Seq<u8>) -> Option<
    Seq<u8>,
>;

/// `ring::rand::SecureRandom::fill` of the system's generator: some random
/// bytes, or `None` where the generator fails.
#[verifier::external_body]
fn random_suffix() -> (r: Option<[u8; NONCE_RANDOM_LEN]>) {
    let mut bytes = [0u8; NONCE_RANDOM_LEN];
    match SystemRandom::new().fill(&mut bytes) {
        Ok(()) => Some(bytes),
        Err(_) => None,
    }
}

/// `ring::aead::LessSafeKey::seal_in_place_append_tag` with AES-256-GCM and no
/// associated data. Sealing is a function of key, nonce and data. It refuses
/// exactly the data that is longer than the algorithm takes, before it has
/// written anything. Else the data becomes the sealed form of what it was,
/// sixteen bytes longer, which opens under the same key and nonce to what it
/// was.
#[verifier::external_body]
fn seal_in_place(key: &[u8; AES_256_KEY_LEN], nonce: &[u8; NONCE_LEN], data: &mut Vec<u8>) -> (ok:
    bool)
    ensures
        ok == aes_256_gcm_sealed(key@, nonce@, old(data)@).is_some(),
        ok == (old(data)@.len() <= SEAL_MAX_LEN),
        ok ==> final(data)@ == aes_256_gcm_sealed(key@, nonce@, old(data)@).unwrap(),
        ok ==> final(data)@.len() == old(data)@.len() + TAG_LEN,
        ok ==> aes_256_gcm_opened(key@, nonce@, final(data)@) == Some(old(data)@),
        !ok ==> final(data)@ == old(data)@,
{
    let Ok(unbound) = UnboundKey::new(&AES_256_GCM, key) else {
        return false;
    };
    let nonce = Nonce::assume_unique_for_key(*nonce);
    LessSafeKey::new(unbound).seal_in_place_append_tag(nonce, Aad::empty(), data).is_ok()
}

/// `ring::aead::LessSafeKey::open_in_place` with AES-256-GCM and no associated
/// data. It succeeds exactly where the data is authentic under the key and the
/// nonce, and then leaves the plaintext, which is sixteen bytes shorter.
#[verifier::external_body]
fn open_in_place(key: &[u8; AES_256_KEY_LEN], nonce: &[u8; NONCE_LEN], data: &mut Vec<u8>) -> (ok:
    bool)
    ensures
        ok == aes_256_gcm_opened(key@, nonce@, old(data)@).is_some(),
        ok ==> final(data)@ == aes_256_gcm_opened(key@, nonce@, old(data)@).unwrap(),
        ok ==> final(data)@.len() + TAG_LEN == old(data)@.len(),
        !ok ==> final(data)@.len() == old(data)@.len(),
{
    let Ok(unbound) = UnboundKey::new(&AES_256_GCM, key) else {
        return false;
    };
    let nonce = Nonce::assume_unique_for_key(*nonce);
    let opened = LessSafeKey::new(unbound).open_in_place(nonce, Aad::empty(), data.as_mut_slice());
    match opened.map(|plaintext| plaintext.len()) {
        Ok(len) => {
            data.truncate(len);
            true
        },
        Err(_) => false,
    }
}

/// The secret that X25519 agrees on for a private key and the public key of
/// a peer, or `None` where the peer's key is refused.
pub uninterp spec fn x25519_agreed(private_key: EphemeralPrivateKey, peer_public_key: Seq<u8>) -> Option<
    Seq<u8>,
>;

/// `ring::agreement::agree_ephemeral` with X25519: the shared secret of the
/// private key and the peer's public key, or `None` where the peer's key is
/// refused. The agreement is a function of the two keys.
#[verifier::external_body]
fn agree(private_key: EphemeralPrivateKey, peer_public_key: &[u8; 32]) -> (r: Option<
    [u8; AES_256_KEY_LEN],
>)
    ensures
        match r {
            Some(secret) => x25519_agreed(private_key, peer_public_key@) == Some(secret@),
            None => x25519_agreed(private_key, peer_public_key@) is None,
        },
{
    agree_ephemeral(
        private_key,
        &UnparsedPublicKey::new(&X25519, peer_public_key),
        |secret: &[u8]| secret.try_into().ok(),
    ).ok().flatten()
}

/// A nonce: the counter, most significant byte first, then the random bytes.
pub open spec fn spec_nonce(counter: u32, random: Seq<u8>) -> Seq<u8> {
    spec_be32(counter) + random
}

/// Puts a nonce together from a counter and random bytes.
pub fn nonce_from(counter: u32, random: &[u8; NONCE_RANDOM_LEN]) -> (r: [u8; NONCE_LEN])
    ensures
        r@ == spec_nonce(counter, random@),
{
    let r: [u8; NONCE_LEN] = [
        (counter / 0x100_0000) as u8,
        (counter / 0x1_0000 % 0x100) as u8,
        (counter / 0x100 % 0x100) as u8,
        (counter % 0x100) as u8,
        random[0],
        random[1],
        random[2],
        random[3],
        random[4],
        random[5],
        random[6],
        random[7],
    ];
    r
}

/// Two nonces of different counters differ, whatever their random parts.
pub proof fn lemma_nonces_of_counters_differ(c1: u32, r1: Seq<u8>, c2: u32, r2: Seq<u8>)
    requires
        c1 != c2,
    ensures
        spec_nonce(c1, r1) != spec_nonce(c2, r2),
{
    let n1 = spec_nonce(c1, r1);
    let n2 = spec_nonce(c2, r2);
    if n1 == n2 {
        assert(n1[0] == n2[0] && n1[1] == n2[1] && n1[2] == n2[2] && n1[3] == n2[3]);
        lemma_four_bytes(c1);
        lemma_four_bytes(c2);
        assert(false);
    }
}

/// The nonces of one key: a counter that goes up by one with each nonce, so
/// that no nonce comes twice, followed by random bytes, which guard against a
/// counter that was reset.
#[derive(Debug)]
pub struct NonceSequence {
    counter: u32,
}

impl Default for NonceSequence {
    fn default() -> (r: Self)
        ensures
            r.spec_counter() == 0,
    {
        Self { counter: 0 }
    }
}

impl NonceSequence {
    /// How many nonces the sequence has given.
    pub closed spec fn spec_counter(self) -> u32 {
        self.counter
    }

    /// A sequence that goes on behind the given number of nonces.
    pub fn starting_at(counter: u32) -> (r: Self)
        ensures
            r.spec_counter() == counter,
    {
        Self { counter }
    }

    /// How many nonces the sequence has given.
    pub fn counter(&self) -> (r: u32)
        ensures
            r == self.spec_counter(),
    {
        self.counter
    }

    /// What the next nonce of a sequence is, with the given random bytes: a
    /// sequence whose counter cannot go up any more is exhausted for good, and
    /// without random bytes there is no nonce either.
    pub open spec fn spec_next(counter: u32, random: Option<[u8; NONCE_RANDOM_LEN]>) -> Result<
        Seq<u8>,
        Error,
    > {
        if counter == u32::MAX {
            Err(Error::NonceExhausted)
        } else {
            match random {
                Some(bytes) => Ok(spec_nonce(counter, bytes@)),
                None => Err(Error::Random),
            }
        }
    }

    /// The next nonce, made with the given random bytes, see
    /// [`Self::spec_next`]. With the nonce the counter goes up by one; without
    /// one it stays.
    pub fn advance_with(&mut self, random: Option<[u8; NONCE_RANDOM_LEN]>) -> (r: Result<
        [u8; NONCE_LEN],
        Error,
    >)
        ensures
            match Self::spec_next(old(self).spec_counter(), random) {
                Ok(nonce) => r is Ok && r.unwrap()@ == nonce && final(self).spec_counter() == old(
                    self
                ).spec_counter() + 1,
                Err(e) => r == Err::<[u8; NONCE_LEN], Error>(e) && final(self).spec_counter()
                    == old(self).spec_counter(),
            },
    {
        if self.counter == u32::MAX {
            return Err(Error::NonceExhausted);
        }
        match random {
            None => Err(Error::Random),
            Some(bytes) => {
                let nonce = nonce_from(self.counter, &bytes);
                self.counter = self.counter + 1;
                Ok(nonce)
            },
        }
    }

    /// The next nonce, with random bytes of the system's generator. Called
    /// once for each seal operation.
    pub fn advance(&mut self) -> (r: Result<[u8; NONCE_LEN], Error>)
        ensures
            old(self).spec_counter() == u32::MAX ==> r == Err::<[u8; NONCE_LEN], Error>(
                Error::NonceExhausted,
            ),
            match r {
                Ok(nonce) => final(self).spec_counter() == old(self).spec_counter() + 1
                    && nonce@.subrange(0, 4) == spec_be32(old(self).spec_counter()),
                Err(e) => final(self).spec_counter() == old(self).spec_counter() && (e
                    == Error::NonceExhausted || e == Error::Random) && (e == Error::NonceExhausted
                    <==> old(self).spec_counter() == u32::MAX),
            },
    {
        let random = random_suffix();
        let r = self.advance_with(random);
        r
    }
}

/// The keys of one peer: an AES-256-GCM key with a nonce sequence for sealing
/// and one for opening. Keys cannot be printed.
pub struct Keys {
    key: [u8; AES_256_KEY_LEN],
    encryption: NonceSequence,
    decryption: NonceSequence,
}

impl Keys {
    /// The bytes of the key.
    pub closed spec fn spec_key(self) -> Seq<u8> {
        self.key@
    }

    /// How many nonces were drawn for sealing.
    pub closed spec fn spec_sealed(self) -> u32 {
        self.encryption.spec_counter()
    }

    /// How many nonces were drawn for opening.
    pub closed spec fn spec_opened(self) -> u32 {
        self.decryption.spec_counter()
    }

    /// Keys of the given bytes, with both nonce sequences at their start.
    pub fn from_key_bytes(key: [u8; AES_256_KEY_LEN]) -> (r: Self)
        ensures
            r.spec_key() == key@,
            r.spec_sealed() == 0,
            r.spec_opened() == 0,
    {
        Self { key, encryption: NonceSequence::default(), decryption: NonceSequence::default() }
    }

    /// Keys of the outcome of a key agreement: of the shared secret where there
    /// is one, else `Error::Agreement`.
    pub fn from_agreement(secret: Option<[u8; AES_256_KEY_LEN]>) -> (r: Result<Self, Error>)
        ensures
            match secret {
                Some(s) => r matches Ok(keys) && keys.spec_key() == s@ && keys.spec_sealed() == 0
                    && keys.spec_opened() == 0,
                None => r matches Err(e) && e == Error::Agreement,
            },
    {
        match secret {
            Some(s) => Ok(Self::from_key_bytes(s)),
            None => Err(Error::Agreement),
        }
    }

    /// Agrees on a shared secret with a peer and makes keys of it: the keys
    /// of the secret that the private key and the peer's public key agree on,
    /// with both nonce sequences at their start, or `Error::Agreement` where
    /// the peer's key is refused. The private key is used up.
    pub fn from_shared_secret(
        exchange_private_key: EphemeralPrivateKey,
        peer_public_key: &[u8; 32],
    ) -> (r: Result<Self, Error>)
        ensures
            match x25519_agreed(exchange_private_key, peer_public_key@) {
                Some(secret) => {
                    &&& r matches Ok(keys)
                    &&& keys.spec_key() == secret
                    &&& keys.spec_sealed() == 0
                    &&& keys.spec_opened() == 0
                },
                None => r matches Err(e) && e == Error::Agreement,
            },
    {
        Self::from_agreement(agree(exchange_private_key, peer_public_key))
    }

    /// Seals the data in place under the given nonce and appends the tag.
    /// Data of up to [`SEAL_MAX_LEN`] bytes is sealed, and what was sealed
    /// opens to the plaintext again under the same key and nonce. Longer
    /// data is refused with `Error::Seal` and stays as it is.
    pub fn seal_with_nonce(&self, nonce: &[u8; NONCE_LEN], data: &mut Vec<u8>) -> (r: Result<
        (),
        Error,
    >)
        ensures
            r is Ok <==> old(data)@.len() <= SEAL_MAX_LEN,
            match aes_256_gcm_sealed(self.spec_key(), nonce@, old(data)@) {
                Some(sealed) => {
                    &&& r is Ok
                    &&& final(data)@ == sealed
                    &&& sealed.len() == old(data)@.len() + TAG_LEN
                    &&& aes_256_gcm_opened(self.spec_key(), nonce@, sealed) == Some(old(data)@)
                },
                None => r == Err::<(), Error>(Error::Seal) && final(data)@ == old(data)@,
            },
    {
        if seal_in_place(&self.key, nonce, data) {
            Ok(())
        } else {
            Err(Error::Seal)
        }
    }

    /// Opens sealed data in place under the given nonce: where the data is
    /// authentic it becomes the plaintext, else the call fails with
    /// `Error::Open`.
    pub fn open_with_nonce(&self, nonce: &[u8; NONCE_LEN], data: &mut Vec<u8>) -> (r: Result<
        (),
        Error,
    >)
        ensures
            match aes_256_gcm_opened(self.spec_key(), nonce@, old(data)@) {
                Some(plaintext) => r is Ok && final(data)@ == plaintext && plaintext.len() + TAG_LEN
                    == old(data)@.len(),
                None => r == Err::<(), Error>(Error::Open) && final(data)@.len() == old(data)@.len(),
            },
    {
        if open_in_place(&self.key, nonce, data) {
            Ok(())
        } else {
            Err(Error::Open)
        }
    }

    /// Whether data was sealed under the given key and some nonce that
    /// starts with the given counter, so that it opens to the plaintext again
    /// under the same key and nonce.
    pub open spec fn spec_sealed_at(key: Seq<u8>, counter: u32, plaintext: Seq<u8>, sealed: Seq<u8>) -> bool {
        exists|nonce: Seq<u8>|
            {
                &&& nonce.len() == NONCE_LEN
                &&& nonce.subrange(0, 4) == spec_be32(counter)
                &&& #[trigger] aes_256_gcm_sealed(key, nonce, plaintext) == Some(sealed)
                &&& aes_256_gcm_opened(key, nonce, sealed) == Some(plaintext)
            }
    }

    /// Seals the data in place under the next nonce of the sealing sequence
    /// and appends the tag. Every failure leaves the data as it was. Data of
    /// more than [`SEAL_MAX_LEN`] bytes uses up a nonce and is refused with
    /// `Error::Seal`; any other failure leaves the sequence as it was too.
    pub fn encrypt_in_place_append_tag(&mut self, data: &mut Vec<u8>) -> (r: Result<(), Error>)
        ensures
            final(self).spec_key() == old(self).spec_key(),
            final(self).spec_opened() == old(self).spec_opened(),
            old(self).spec_sealed() == u32::MAX ==> r == Err::<(), Error>(Error::NonceExhausted),
            match r {
                Ok(()) => {
                    &&& final(self).spec_sealed() == old(self).spec_sealed() + 1
                    &&& final(data)@.len() == old(data)@.len() + TAG_LEN
                    &&& Self::spec_sealed_at(
                        old(self).spec_key(),
                        old(self).spec_sealed(),
                        old(data)@,
                        final(data)@,
                    )
                },
                Err(e) => {
                    &&& final(data)@ == old(data)@
                    &&& e == Error::NonceExhausted || e == Error::Random || e == Error::Seal
                    &&& e == Error::NonceExhausted <==> old(self).spec_sealed() == u32::MAX
                    &&& e == Error::Seal ==> old(data)@.len() > SEAL_MAX_LEN && final(
                        self
                    ).spec_sealed() == old(self).spec_sealed() + 1
                    &&& e != Error::Seal ==> final(self).spec_sealed() == old(self).spec_sealed()
                },
            },
    {
        let nonce = match self.encryption.advance() {
            Ok(nonce) => nonce,
            Err(e) => {
                return Err(e);
            },
        };
        let r = self.seal_with_nonce(&nonce, data);
        proof {
            if r is Ok {
                assert(aes_256_gcm_sealed(old(self).spec_key(), nonce@, old(data)@) == Some(data@));
            }
        }
        r
    }

    /// Whether sealed data was opened to a plaintext under the given key and
    /// some nonce that starts with the given counter.
    pub open spec fn spec_opened_at(key: Seq<u8>, counter: u32, sealed: Seq<u8>, plaintext: Seq<u8>) -> bool {
        exists|nonce: Seq<u8>|
            {
                &&& nonce.len() == NONCE_LEN
                &&& nonce.subrange(0, 4) == spec_be32(counter)
                &&& #[trigger] aes_256_gcm_opened(key, nonce, sealed) == Some(plaintext)
            }
    }

    /// Opens sealed data in place under the next nonce of the opening
    /// sequence. A failure other than that of the opening itself leaves the
    /// data and the sequence as they were.
    ///
    /// The random part of that nonce is drawn afresh, as it is on sealing.
    /// Data that [`Self::encrypt_in_place_append_tag`] has sealed therefore
    /// opens here only where both draws happen to agree: what was sealed
    /// opens for certain only under the very nonce it was sealed under, by
    /// [`Self::seal_with_nonce`] and [`Self::open_with_nonce`].
    pub fn decrypt_in_place(&mut self, data: &mut Vec<u8>) -> (r: Result<(), Error>)
        ensures
            final(self).spec_key() == old(self).spec_key(),
            final(self).spec_sealed() == old(self).spec_sealed(),
            old(self).spec_opened() == u32::MAX ==> r == Err::<(), Error>(Error::NonceExhausted),
            match r {
                Ok(()) => {
                    &&& final(self).spec_opened() == old(self).spec_opened() + 1
                    &&& Self::spec_opened_at(
                        old(self).spec_key(),
                        old(self).spec_opened(),
                        old(data)@,
                        final(data)@,
                    )
                },
                Err(e) => {
                    &&& e == Error::NonceExhausted || e == Error::Random || e == Error::Open
                    &&& e == Error::NonceExhausted <==> old(self).spec_opened() == u32::MAX
                    &&& e != Error::Open ==> final(self).spec_opened() == old(self).spec_opened()
                        && final(data)@ == old(data)@
                },
            },
    {
        let nonce = match self.decryption.advance() {
            Ok(nonce) => nonce,
            Err(e) => {
                return Err(e);
            },
        };
        let r = self.open_with_nonce(&nonce, data);
        proof {
            if r is Ok {
                assert(aes_256_gcm_opened(old(self).spec_key(), nonce@, old(data)@) == Some(data@));
            }
        }
        r
    }
}

} // verus!
