//! Ephemeral key exchange over X25519.

use super::encryption::{x25519_agreed, Keys};
use crate::error::Error;
use ring::agreement::{EphemeralPrivateKey, X25519};
use ring::rand::SystemRandom;
use vstd::prelude::*;

verus! {

/// The length of a public key in bytes.
pub const PUBLIC_KEY_LEN: usize = 32;

/// A public key of a key exchange as a peer reported it. Nothing is known of
/// it until the exchange is finished with it.
#[derive(Debug, Clone, Copy)]
pub struct MaybeInvalidPublicKey(pub [u8; PUBLIC_KEY_LEN]);

/// `ring::agreement::EphemeralPrivateKey::generate` for X25519 with the
/// system's random number generator: a fresh private key, or `None` where the
/// generator fails.
#[verifier::external_body]
fn generate_private_key() -> (r: Option<EphemeralPrivateKey>) {
    EphemeralPrivateKey::generate(&X25519, &SystemRandom::new()).ok()
}

/// The public key that belongs to an X25519 private key, or `None` where it
/// cannot be computed.
pub uninterp spec fn x25519_public_key(private_key: EphemeralPrivateKey) -> Option<Seq<u8>>;

/// `ring::agreement::EphemeralPrivateKey::compute_public_key`: the bytes of
/// the public key that belongs to a private key, or `None` where the
/// computation fails. The public key is a function of the private key.
#[verifier::external_body]
fn compute_public_key(private_key: &EphemeralPrivateKey) -> (r: Option<[u8; PUBLIC_KEY_LEN]>)
    ensures
        match r {
            Some(key) => x25519_public_key(*private_key) == Some(key@),
            None => x25519_public_key(*private_key) is None,
        },
{
    match private_key.compute_public_key() {
        Ok(public_key) => public_key.as_ref().try_into().ok(),
        Err(_) => None,
    }
}

enum KeyExchangeState {
    InProgress(EphemeralPrivateKey),
    Completed(Keys),
    Errored,
}

/// How far a key exchange has come.
#[derive(Clone, Copy, Debug, PartialEq, Eq, Structural)]
pub enum ExchangeStatus {
    /// The peer's public key is awaited.
    InProgress,
    /// The keys are agreed.
    Completed,
    /// The agreement failed. The exchange cannot be tried again.
    Errored,
}

/// A key exchange with one peer. It is finished at most once: from then on it
/// either holds the agreed keys or has failed for good.
pub struct KeyExchange {
    public_key: [u8; PUBLIC_KEY_LEN],
    state: KeyExchangeState,
}

impl KeyExchange {
    /// How far the exchange has come.
    pub closed spec fn spec_status(self) -> ExchangeStatus {
        match self.state {
            KeyExchangeState::InProgress(_) => ExchangeStatus::InProgress,
            KeyExchangeState::Completed(_) => ExchangeStatus::Completed,
            KeyExchangeState::Errored => ExchangeStatus::Errored,
        }
    }

    /// The own public key of the exchange.
    pub closed spec fn spec_public_key(self) -> Seq<u8> {
        self.public_key@
    }

    /// The agreed keys, once the exchange is completed.
    pub closed spec fn spec_keys(self) -> Option<Keys> {
        match self.state {
            KeyExchangeState::Completed(keys) => Some(keys),
            _ => None,
        }
    }

    /// The private key of an exchange that is in progress.
    pub closed spec fn spec_private_key(self) -> Option<EphemeralPrivateKey> {
        match self.state {
            KeyExchangeState::InProgress(private_key) => Some(private_key),
            _ => None,
        }
    }

    /// Starts an exchange with a private key and the public key that was
    /// computed for it: the exchange is in progress and holds both. Where no
    /// public key could be computed there is no exchange, and the failure is
    /// `Error::Random`.
    pub fn with_keys(
        private_key: EphemeralPrivateKey,
        public_key: Option<[u8; PUBLIC_KEY_LEN]>,
    ) -> (r: Result<Self, Error>)
        ensures
            match public_key {
                Some(key) => {
                    &&& r matches Ok(exchange)
                    &&& exchange.spec_status() == ExchangeStatus::InProgress
                    &&& exchange.spec_public_key() == key@
                    &&& exchange.spec_private_key() == Some(private_key)
                    &&& exchange.spec_keys() is None
                },
                None => r matches Err(e) && e == Error::Random,
            },
    {
        match public_key {
            Some(public_key) => Ok(
                Self { public_key, state: KeyExchangeState::InProgress(private_key) },
            ),
            None => Err(Error::Random),
        }
    }

    /// Starts an exchange with a freshly generated private key: it is in
    /// progress, has no keys yet, and its public key is the one that belongs
    /// to its private key. Fails with `Error::Random` where no key could be
    /// generated.
    pub fn new() -> (r: Result<Self, Error>)
        ensures
            match r {
                Ok(exchange) => {
                    &&& exchange.spec_status() == ExchangeStatus::InProgress
                    &&& exchange.spec_keys() is None
                    &&& exchange.spec_private_key() matches Some(private_key)
                    &&& x25519_public_key(private_key) == Some(exchange.spec_public_key())
                },
                Err(e) => e == Error::Random,
            },
    {
        match generate_private_key() {
            Some(private_key) => {
                let public_key = compute_public_key(&private_key);
                Self::with_keys(private_key, public_key)
            },
            None => Err(Error::Random),
        }
    }

    /// How far the exchange has come.
    pub fn status(&self) -> (r: ExchangeStatus)
        ensures
            r == self.spec_status(),
    {
        match self.state {
            KeyExchangeState::InProgress(_) => ExchangeStatus::InProgress,
            KeyExchangeState::Completed(_) => ExchangeStatus::Completed,
            KeyExchangeState::Errored => ExchangeStatus::Errored,
        }
    }

    /// The own public key, to be sent to the peer.
    pub fn export_public_key(&self) -> (r: MaybeInvalidPublicKey)
        ensures
            r.0@ == self.spec_public_key(),
    {
        MaybeInvalidPublicKey(self.public_key)
    }

    /// An exchange has keys exactly where it is completed, and holds its
    /// private key exactly where it is in progress.
    pub proof fn lemma_keys_with_status(self)
        ensures
            self.spec_keys() is Some <==> self.spec_status() == ExchangeStatus::Completed,
            self.spec_private_key() is Some <==> self.spec_status() == ExchangeStatus::InProgress,
    {
    }

    /// What finishing an exchange with the public key of a peer comes to:
    /// the secret that the private key of the exchange and the peer's key
    /// agree on, or `None` where the exchange is not in progress or the
    /// peer's key is refused.
    pub open spec fn spec_agreed(self, peer_key: Seq<u8>) -> Option<Seq<u8>> {
        match self.spec_private_key() {
            Some(private_key) => x25519_agreed(private_key, peer_key),
            None => None,
        }
    }

    /// Finishes the exchange with the peer's public key. An exchange that is
    /// not in progress any more refuses with `Error::ExchangeAlreadyCompleted`
    /// and stays as it is. One in progress uses up its private key. Where the
    /// private key and the peer's key agree on a secret, the exchange becomes
    /// completed and has fresh keys of that secret from then on. Where the
    /// peer's key is refused, it fails with `Error::Agreement`, stays failed
    /// and never has keys.
    pub fn finish(&mut self, peer_key: &MaybeInvalidPublicKey) -> (r: Result<(), Error>)
        ensures
            final(self).spec_public_key() == old(self).spec_public_key(),
            old(self).spec_status() != ExchangeStatus::InProgress ==> r == Err::<(), Error>(
                Error::ExchangeAlreadyCompleted,
            ) && *final(self) == *old(self),
            old(self).spec_status() == ExchangeStatus::InProgress ==> match r {
                Ok(()) => {
                    &&& final(self).spec_status() == ExchangeStatus::Completed
                    &&& final(self).spec_keys() matches Some(keys)
                    &&& keys.spec_sealed() == 0
                    &&& keys.spec_opened() == 0
                },
                Err(e) => {
                    &&& e == Error::Agreement
                    &&& final(self).spec_status() == ExchangeStatus::Errored
                    &&& final(self).spec_keys() is None
                },
            },
            r is Ok ==> final(self).spec_keys() is Some,
            r is Err ==> final(self).spec_keys() == old(self).spec_keys(),
            r is Ok <==> old(self).spec_agreed(peer_key.0@) is Some,
            r is Ok ==> final(self).spec_keys().unwrap().spec_key() == old(self).spec_agreed(
                peer_key.0@,
            ).unwrap(),
    {
        if !matches!(self.state, KeyExchangeState::InProgress(_)) {
            return Err(Error::ExchangeAlreadyCompleted);
        }
        let mut state = KeyExchangeState::Errored;
        std::mem::swap(&mut self.state, &mut state);
        match state {
            KeyExchangeState::InProgress(private_key) => {
                match Keys::from_shared_secret(private_key, &peer_key.0) {
                    Ok(keys) => {
                        self.state = KeyExchangeState::Completed(keys);
                        Ok(())
                    },
                    Err(e) => Err(e),
                }
            },
            _ => Err(Error::ExchangeAlreadyCompleted),
        }
    }

    /// The encryption keys of this exchange, if the exchange has completed.
    pub fn encryption_keys(&self) -> (r: Option<&Keys>)
        ensures
            match r {
                Some(keys) => self.spec_keys() == Some(*keys),
                None => self.spec_keys() is None,
            },
    {
        match &self.state {
            KeyExchangeState::Completed(keys) => Some(keys),
            _ => None,
        }
    }

    /// The encryption keys of this exchange for use, if the exchange has
    /// completed. Using them leaves the exchange completed.
    pub fn encryption_keys_mut(&mut self) -> (r: Option<&mut Keys>)
        ensures
            final(self).spec_public_key() == old(self).spec_public_key(),
            match r {
                Some(keys) => old(self).spec_keys() == Some(*keys) && final(self).spec_keys()
                    == Some(*final(keys)),
                None => old(self).spec_keys() is None && *final(self) == *old(self),
            },
    {
        match &mut self.state {
            KeyExchangeState::Completed(keys) => Some(keys),
            _ => None,
        }
    }
}

} // verus!
