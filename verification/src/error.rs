//! The errors of the library, and the kind that each one belongs to.

use vstd::prelude::*;

verus! {

/// The broad classes of failure that callers tell apart.
#[derive(Clone, Copy, Debug, PartialEq, Eq, Structural)]
pub enum ErrorKind {
    /// A frame that breaks the wire format.
    Protocol,
    /// Key generation, signing, verification or sealing failed.
    Crypto,
    /// Memory for a frame could not be had.
    Resource,
    /// A stale handle, or a peer that cannot be reached yet.
    State,
}

#[derive(Clone, Copy, Debug, PartialEq, Eq, Structural)]
pub enum Error {
    /// The frame does not start with the protocol's magic number.
    WrongMagic,
    /// The frame is of a protocol version that is not spoken here.
    WrongVersion,
    /// The buffer ends before the frame does.
    Truncated,
    /// The payload of a control frame is no control message.
    Decode,
    /// The payload of a control frame goes on after the control message.
    InvalidLength,
    /// The payload is too long for the length field of a frame.
    HugeLength,
    /// Memory for the payload could not be reserved.
    OutOfMemory,
    /// The system's random number generator failed.
    Random,
    /// The key material is no Ed25519 key pair.
    KeyRejected,
    /// The signature does not verify against the message and the key.
    BadSignature,
    /// The key exchange has finished, or failed, before.
    ExchangeAlreadyCompleted,
    /// The key agreement with the peer's public key failed.
    Agreement,
    /// Every nonce of the sequence has been used.
    NonceExhausted,
    /// Sealing failed.
    Seal,
    /// The sealed data is not authentic.
    Open,
    /// No peer is known under this identifier.
    PeerLost,
    /// The peer is in no group.
    NoGroup,
    /// No group is known under this identifier.
    GroupNotFound,
    /// The peer's address in the group is not known yet.
    NoAddress,
    /// The owner of the group is none of the peers that the radio has found.
    GroupOwnerUnknown,
}

impl Error {
    pub open spec fn spec_kind(self) -> ErrorKind {
        match self {
            Error::WrongMagic
            | Error::WrongVersion
            | Error::Truncated
            | Error::Decode
            | Error::InvalidLength
            | Error::HugeLength => ErrorKind::Protocol,
            Error::OutOfMemory => ErrorKind::Resource,
            Error::Random
            | Error::KeyRejected
            | Error::BadSignature
            | Error::ExchangeAlreadyCompleted
            | Error::Agreement
            | Error::NonceExhausted
            | Error::Seal
            | Error::Open => ErrorKind::Crypto,
            Error::PeerLost
            | Error::NoGroup
            | Error::GroupNotFound
            | Error::NoAddress
            | Error::GroupOwnerUnknown => ErrorKind::State,
        }
    }

    /// The kind of this error.
    pub fn kind(&self) -> (r: ErrorKind)
        ensures
            r == self.spec_kind(),
    {
        match self {
            Error::WrongMagic
            | Error::WrongVersion
            | Error::Truncated
            | Error::Decode
            | Error::InvalidLength
            | Error::HugeLength => ErrorKind::Protocol,
            Error::OutOfMemory => ErrorKind::Resource,
            Error::Random
            | Error::KeyRejected
            | Error::BadSignature
            | Error::ExchangeAlreadyCompleted
            | Error::Agreement
            | Error::NonceExhausted
            | Error::Seal
            | Error::Open => ErrorKind::Crypto,
            Error::PeerLost
            | Error::NoGroup
            | Error::GroupNotFound
            | Error::NoAddress
            | Error::GroupOwnerUnknown => ErrorKind::State,
        }
    }
}

} // verus!
