//! Own and peer identities: a nickname bound to an Ed25519 key.

use super::signing::{new_key_pair, KeyPair, MaybeInvalidPublicKey};
use crate::error::Error;
use crate::utils::slices_equal;
use vstd::prelude::*;
use vstd::string::StringExecFns;

verus! {

/// The identity of this session: a nickname and the key pair that signs what
/// the session sends.
pub struct OwnIdentity {
    pub nickname: String,
    pub key_pair: KeyPair,
}

/// What a logical identity is: a nickname and the bytes of a public key.
pub struct LogicalPeerIdentityView {
    pub nickname: Seq<char>,
    pub key: Seq<u8>,
}

/// The identity a peer reports of itself when it associates. Messages of the
/// peer are verified against its key.
#[derive(Debug, Clone)]
pub struct LogicalPeerIdentity {
    pub nickname: String,
    pub key: MaybeInvalidPublicKey,
}

impl View for LogicalPeerIdentity {
    type V = LogicalPeerIdentityView;

    open spec fn view(&self) -> LogicalPeerIdentityView {
        LogicalPeerIdentityView { nickname: self.nickname@, key: self.key.0@ }
    }
}

impl LogicalPeerIdentity {
    /// Whether two identities have the same nickname and the same key.
    pub fn same(&self, other: &LogicalPeerIdentity) -> (r: bool)
        ensures
            r == (self@ == other@),
    {
        self.nickname == other.nickname && slices_equal(self.key.0.as_slice(), other.key.0.as_slice())
    }

    /// A copy of this identity.
    pub fn duplicate(&self) -> (r: LogicalPeerIdentity)
        ensures
            r@ == self@,
    {
        LogicalPeerIdentity { nickname: self.nickname.clone(), key: self.key }
    }

    /// The short form in which the identity is shown, see
    /// [`display_logical_id`].
    pub fn display(&self) -> (r: String)
        ensures
            r@ == spec_display_logical_id(self.nickname@, self.key.0@),
    {
        display_logical_id(self.nickname.as_str(), self.key.0.as_slice())
    }
}

impl OwnIdentity {
    pub fn new(nickname: String, key_pair: KeyPair) -> (r: Self)
        ensures
            r.nickname == nickname,
            r.key_pair == key_pair,
    {
        Self { nickname, key_pair }
    }

    /// The identity that peers are told: the nickname and the public key of
    /// the key pair.
    pub fn to_public(&self) -> (r: LogicalPeerIdentity)
        ensures
            r@.nickname == self.nickname@,
            r@.key == self.key_pair.spec_public_key(),
    {
        LogicalPeerIdentity {
            nickname: self.nickname.clone(),
            key: MaybeInvalidPublicKey(self.key_pair.public_key()),
        }
    }

    /// The short form in which the identity is shown, see
    /// [`display_logical_id`].
    pub fn display(&self) -> (r: String)
        ensures
            r@ == spec_display_logical_id(self.nickname@, self.key_pair.spec_public_key()),
    {
        let key = self.key_pair.public_key();
        display_logical_id(self.nickname.as_str(), key.as_slice())
    }
}

/// The lower-case hexadecimal digit of a value below sixteen.
pub open spec fn spec_hex_digit(n: int) -> char {
    if n == 0 {
        '0'
    } else if n == 1 {
        '1'
    } else if n == 2 {
        '2'
    } else if n == 3 {
        '3'
    } else if n == 4 {
        '4'
    } else if n == 5 {
        '5'
    } else if n == 6 {
        '6'
    } else if n == 7 {
        '7'
    } else if n == 8 {
        '8'
    } else if n == 9 {
        '9'
    } else if n == 10 {
        'a'
    } else if n == 11 {
        'b'
    } else if n == 12 {
        'c'
    } else if n == 13 {
        'd'
    } else if n == 14 {
        'e'
    } else {
        'f'
    }
}

/// The bytes in hexadecimal, two lower-case digits each.
pub open spec fn spec_hex(bytes: Seq<u8>) -> Seq<char>
    decreases bytes.len(),
{
    if bytes.len() == 0 {
        Seq::empty()
    } else {
        spec_hex(bytes.drop_last()) + seq![
            spec_hex_digit(bytes.last() as int / 16),
            spec_hex_digit(bytes.last() as int % 16),
        ]
    }
}

/// The short form of a logical identity: the nickname, `#`, and the first
/// three bytes of the key in hexadecimal (all of the key where it is shorter).
pub open spec fn spec_display_logical_id(nickname: Seq<char>, key: Seq<u8>) -> Seq<char> {
    nickname + seq!['#'] + spec_hex(
        if key.len() <= 3 {
            key
        } else {
            key.subrange(0, 3)
        },
    )
}

fn hex_digit(n: u8) -> (r: &'static str)
    requires
        n < 16,
    ensures
        r@ == seq![spec_hex_digit(n as int)],
{
    proof {
        reveal_strlit("0");
        reveal_strlit("1");
        reveal_strlit("2");
        reveal_strlit("3");
        reveal_strlit("4");
        reveal_strlit("5");
        reveal_strlit("6");
        reveal_strlit("7");
        reveal_strlit("8");
        reveal_strlit("9");
        reveal_strlit("a");
        reveal_strlit("b");
        reveal_strlit("c");
        reveal_strlit("d");
        reveal_strlit("e");
        reveal_strlit("f");
    }
    let r = match n {
        0 => "0",
        1 => "1",
        2 => "2",
        3 => "3",
        4 => "4",
        5 => "5",
        6 => "6",
        7 => "7",
        8 => "8",
        9 => "9",
        10 => "a",
        11 => "b",
        12 => "c",
        13 => "d",
        14 => "e",
        _ => "f",
    };
    r
}

/// Renders a nickname and a key for display. The first three bytes of the key
/// tell users of one nickname apart.
pub fn display_logical_id(nickname: &str, key: &[u8]) -> (r: String)
    ensures
        r@ == spec_display_logical_id(nickname@, key@),
{
    let mut out = String::from_str(nickname);
    proof {
        reveal_strlit("#");
    }
    out.append("#");
    let shown: usize = if key.len() <= 3 {
        key.len()
    } else {
        3
    };
    let ghost head = if key@.len() <= 3 {
        key@
    } else {
        key@.subrange(0, 3)
    };
    let mut i: usize = 0;
    while i < shown
        invariant
            i <= shown <= key@.len(),
            shown == head.len(),
            head == key@.subrange(0, shown as int),
            out@ == nickname@ + seq!['#'] + spec_hex(head.subrange(0, i as int)),
        decreases shown - i,
    {
        let b = key[i];
        out.append(hex_digit(b / 16));
        out.append(hex_digit(b % 16));
        proof {
            let next = head.subrange(0, i + 1);
            assert(next.drop_last() =~= head.subrange(0, i as int));
        }
        i = i + 1;
    }
    proof {
        assert(head.subrange(0, shown as int) =~= head);
    }
    out
}

/// Makes an own identity of a nickname and a key pair that was generated (see
/// [`super::signing::key_pair_from_generated`]): the identity holds both, and
/// the failure of the generation is handed on.
pub fn own_id_from(nickname: String, generated: Result<(KeyPair, Vec<u8>), Error>) -> (r: Result<
    OwnIdentity,
    Error,
>)
    ensures
        match generated {
            Ok((pair, _)) => r matches Ok(id) && id.nickname == nickname && id.key_pair == pair,
            Err(e) => r matches Err(f) && f == e,
        },
{
    match generated {
        Ok((pair, _)) => Ok(OwnIdentity::new(nickname, pair)),
        Err(e) => Err(e),
    }
}

/// Creates a random key pair for signing, and wraps it in an own identity.
pub fn new_own_id(nickname: String) -> (r: Result<OwnIdentity, Error>)
    ensures
        r matches Ok(id) ==> id.nickname == nickname,
        r matches Err(e) ==> e == Error::Random || e == Error::KeyRejected,
{
    own_id_from(nickname, new_key_pair())
}

} // verus!
