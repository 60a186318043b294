//! The binary encoding of control messages.
//!
//! Integers are encoded with a variable length, least significant byte first:
//! a value below 251 is one byte; a larger one is a marker byte (251, 252 or
//! 253) followed by the value in two, four or eight bytes. An enum is the
//! index of its variant followed by the variant's fields, a struct is its
//! fields in the order of their declaration, a string is the length of its
//! UTF-8 form followed by that form, a boolean is one byte, and an array of
//! bytes is its bytes.

use super::identity::{LogicalPeerIdentity, LogicalPeerIdentityView};
use super::key_exchange;
use super::signing::MaybeInvalidPublicKey;
use super::{
    push_bytes, ControlMessage, ControlMessageView, DecodableMacAddr, P2pPorts, PeerOwnIdentifier,
    PeerOwnIdentifierView,
};
use crate::error::Error;
use vstd::prelude::*;
use vstd::slice::{slice_subrange, slice_to_vec};
use vstd::utf8::{decode_utf8, encode_utf8, valid_utf8};

verus! {

/// The marker of a two-byte integer.
pub const U16_BYTE: u8 = 251;

/// The marker of a four-byte integer.
pub const U32_BYTE: u8 = 252;

/// The marker of an eight-byte integer.
pub const U64_BYTE: u8 = 253;

/// The encoding of an unsigned integer.
pub open spec fn spec_varint(x: nat) -> Seq<u8> {
    if x < 251 {
        seq![x as u8]
    } else if x < 0x1_0000 {
        seq![U16_BYTE, (x % 256) as u8, (x / 0x100 % 256) as u8]
    } else if x < 0x1_0000_0000 {
        seq![
            U32_BYTE,
            (x % 256) as u8,
            (x / 0x100 % 256) as u8,
            (x / 0x1_0000 % 256) as u8,
            (x / 0x100_0000 % 256) as u8,
        ]
    } else {
        seq![
            U64_BYTE,
            (x % 256) as u8,
            (x / 0x100 % 256) as u8,
            (x / 0x1_0000 % 256) as u8,
            (x / 0x100_0000 % 256) as u8,
            (x / 0x1_0000_0000 % 256) as u8,
            (x / 0x100_0000_0000 % 256) as u8,
            (x / 0x1_0000_0000_0000 % 256) as u8,
            (x / 0x100_0000_0000_0000 % 256) as u8,
        ]
    }
}

/// The unsigned integer that is encoded at a position of a buffer, and the
/// position behind it. `widest` is the marker of the widest form that the
/// integer's type admits; a wider one is refused. A form that is wider than
/// the value needs is accepted.
pub open spec fn spec_decode_varint(buf: Seq<u8>, pos: int, widest: u8) -> Option<(nat, int)> {
    if pos < 0 || pos >= buf.len() {
        None
    } else if buf[pos] < U16_BYTE {
        Some((buf[pos] as nat, pos + 1))
    } else if buf[pos] == U16_BYTE {
        if pos + 3 <= buf.len() {
            Some(((buf[pos + 1] + buf[pos + 2] * 0x100) as nat, pos + 3))
        } else {
            None
        }
    } else if buf[pos] == U32_BYTE && widest >= U32_BYTE {
        if pos + 5 <= buf.len() {
            Some(
                (
                    (buf[pos + 1] + buf[pos + 2] * 0x100 + buf[pos + 3] * 0x1_0000 + buf[pos + 4]
                        * 0x100_0000) as nat,
                    pos + 5,
                ),
            )
        } else {
            None
        }
    } else if buf[pos] == U64_BYTE && widest >= U64_BYTE {
        if pos + 9 <= buf.len() {
            Some(
                (
                    (buf[pos + 1] + buf[pos + 2] * 0x100 + buf[pos + 3] * 0x1_0000 + buf[pos + 4]
                        * 0x100_0000 + buf[pos + 5] * 0x1_0000_0000 + buf[pos + 6] * 0x100_0000_0000
                        + buf[pos + 7] * 0x1_0000_0000_0000 + buf[pos + 8] * 0x100_0000_0000_0000) as nat,
                    pos + 9,
                ),
            )
        } else {
            None
        }
    } else {
        None
    }
}

/// The encoding of a string of bytes: its length, then the bytes.
pub open spec fn spec_encode_bytes(bytes: Seq<u8>) -> Seq<u8> {
    spec_varint(bytes.len()) + bytes
}

/// The encoding of a string: that of its UTF-8 form.
pub open spec fn spec_encode_string(s: Seq<char>) -> Seq<u8> {
    spec_encode_bytes(encode_utf8(s))
}

/// The encoding of a hardware address: the flag, then the eight bytes.
pub open spec fn spec_encode_mac(addr: DecodableMacAddr) -> Seq<u8> {
    seq![if addr.is_v8 {
        1u8
    } else {
        0u8
    }] + addr.bytes@
}

/// The encoding of a self-reported identifier.
pub open spec fn spec_encode_own_id(id: PeerOwnIdentifierView) -> Seq<u8> {
    match id {
        PeerOwnIdentifierView::Name(n) => spec_varint(0) + spec_encode_string(n),
        PeerOwnIdentifierView::DevAddr(a) => spec_varint(1) + spec_encode_mac(a),
    }
}

/// The encoding of a logical identity.
pub open spec fn spec_encode_logical_id(id: LogicalPeerIdentityView) -> Seq<u8> {
    spec_encode_string(id.nickname) + id.key
}

/// The encoding of a pair of ports.
pub open spec fn spec_encode_ports(ports: P2pPorts) -> Seq<u8> {
    spec_varint(ports.control as nat) + spec_varint(ports.p2p as nat)
}

/// The encoding of a control message.
pub open spec fn spec_encode_message(msg: ControlMessageView) -> Seq<u8> {
    match msg {
        ControlMessageView::Associate { physical_id, logical_id, key_exchange_public_key, ports } => {
            spec_varint(0) + spec_encode_own_id(physical_id) + spec_encode_logical_id(logical_id)
                + key_exchange_public_key + spec_encode_ports(ports)
        },
    }
}

/// The string of bytes that is encoded at a position, and the position behind
/// it.
pub open spec fn spec_decode_bytes(buf: Seq<u8>, pos: int) -> Option<(Seq<u8>, int)> {
    match spec_decode_varint(buf, pos, U64_BYTE) {
        Some((len, start)) => if start + len <= buf.len() {
            Some((buf.subrange(start, start + len), start + len))
        } else {
            None
        },
        None => None,
    }
}

/// The string that is encoded at a position, and the position behind it.
/// Bytes that are no UTF-8 are refused.
pub open spec fn spec_decode_string(buf: Seq<u8>, pos: int) -> Option<(Seq<char>, int)> {
    match spec_decode_bytes(buf, pos) {
        Some((bytes, end)) => if valid_utf8(bytes) {
            Some((decode_utf8(bytes), end))
        } else {
            None
        },
        None => None,
    }
}

/// The hardware address that is encoded at a position, and the position
/// behind it. A flag that is neither 0 nor 1 is refused.
pub open spec fn spec_decode_mac(buf: Seq<u8>, pos: int) -> Option<(DecodableMacAddr, int)> {
    if pos < 0 || pos + 9 > buf.len() || buf[pos] > 1 {
        None
    } else {
        Some(
            (
                DecodableMacAddr {
                    is_v8: buf[pos] == 1,
                    bytes: [
                        buf[pos + 1],
                        buf[pos + 2],
                        buf[pos + 3],
                        buf[pos + 4],
                        buf[pos + 5],
                        buf[pos + 6],
                        buf[pos + 7],
                        buf[pos + 8],
                    ],
                },
                pos + 9,
            ),
        )
    }
}

/// The self-reported identifier that is encoded at a position, and the
/// position behind it.
pub open spec fn spec_decode_own_id(buf: Seq<u8>, pos: int) -> Option<(PeerOwnIdentifierView, int)> {
    match spec_decode_varint(buf, pos, U32_BYTE) {
        Some((variant, start)) => if variant == 0 {
            match spec_decode_string(buf, start) {
                Some((name, end)) => Some((PeerOwnIdentifierView::Name(name), end)),
                None => None,
            }
        } else if variant == 1 {
            match spec_decode_mac(buf, start) {
                Some((addr, end)) => Some((PeerOwnIdentifierView::DevAddr(addr), end)),
                None => None,
            }
        } else {
            None
        },
        None => None,
    }
}

/// The key of 32 bytes at a position, and the position behind it.
pub open spec fn spec_decode_key(buf: Seq<u8>, pos: int) -> Option<(Seq<u8>, int)> {
    if pos < 0 || pos + 32 > buf.len() {
        None
    } else {
        Some((buf.subrange(pos, pos + 32), pos + 32))
    }
}

/// The logical identity that is encoded at a position, and the position
/// behind it.
pub open spec fn spec_decode_logical_id(buf: Seq<u8>, pos: int) -> Option<
    (LogicalPeerIdentityView, int),
> {
    match spec_decode_string(buf, pos) {
        Some((nickname, start)) => match spec_decode_key(buf, start) {
            Some((key, end)) => Some((LogicalPeerIdentityView { nickname, key }, end)),
            None => None,
        },
        None => None,
    }
}

/// The pair of ports that is encoded at a position, and the position behind
/// it.
pub open spec fn spec_decode_ports(buf: Seq<u8>, pos: int) -> Option<(P2pPorts, int)> {
    match spec_decode_varint(buf, pos, U16_BYTE) {
        Some((control, start)) => match spec_decode_varint(buf, start, U16_BYTE) {
            Some((p2p, end)) => Some((P2pPorts { control: control as u16, p2p: p2p as u16 }, end)),
            None => None,
        },
        None => None,
    }
}

/// The control message that is encoded at the start of a buffer, and the
/// position behind it.
pub open spec fn spec_decode_message(buf: Seq<u8>) -> Option<(ControlMessageView, int)> {
    match spec_decode_varint(buf, 0, U32_BYTE) {
        Some((variant, p1)) => if variant == 0 {
            match spec_decode_own_id(buf, p1) {
                Some((physical_id, p2)) => match spec_decode_logical_id(buf, p2) {
                    Some((logical_id, p3)) => match spec_decode_key(buf, p3) {
                        Some((key_exchange_public_key, p4)) => match spec_decode_ports(buf, p4) {
                            Some((ports, end)) => Some(
                                (
                                    ControlMessageView::Associate {
                                        physical_id,
                                        logical_id,
                                        key_exchange_public_key,
                                        ports,
                                    },
                                    end,
                                ),
                            ),
                            None => None,
                        },
                        None => None,
                    },
                    None => None,
                },
                None => None,
            }
        } else {
            None
        },
        None => None,
    }
}

/// Appends the encoding of an unsigned integer.
pub fn encode_varint(out: &mut Vec<u8>, x: u64)
    ensures
        final(out)@ == old(out)@ + spec_varint(x as nat),
{
    if x < 251 {
        out.push(x as u8);
    } else if x < 0x1_0000 {
        out.push(U16_BYTE);
        out.push((x % 256) as u8);
        out.push((x / 0x100 % 256) as u8);
    } else if x < 0x1_0000_0000 {
        out.push(U32_BYTE);
        out.push((x % 256) as u8);
        out.push((x / 0x100 % 256) as u8);
        out.push((x / 0x1_0000 % 256) as u8);
        out.push((x / 0x100_0000 % 256) as u8);
    } else {
        out.push(U64_BYTE);
        out.push((x % 256) as u8);
        out.push((x / 0x100 % 256) as u8);
        out.push((x / 0x1_0000 % 256) as u8);
        out.push((x / 0x100_0000 % 256) as u8);
        out.push((x / 0x1_0000_0000 % 256) as u8);
        out.push((x / 0x100_0000_0000 % 256) as u8);
        out.push((x / 0x1_0000_0000_0000 % 256) as u8);
        out.push((x / 0x100_0000_0000_0000 % 256) as u8);
    }
}

/// Reads the unsigned integer that is encoded at a position.
pub fn decode_varint(buf: &[u8], pos: usize, widest: u8) -> (r: Option<(u64, usize)>)
    ensures
        match spec_decode_varint(buf@, pos as int, widest) {
            Some((value, end)) => r matches Some((v, e)) && v == value && e == end,
            None => r is None,
        },
{
    if pos >= buf.len() {
        return None;
    }
    let marker = buf[pos];
    let left = buf.len() - pos;
    if marker < U16_BYTE {
        Some((marker as u64, pos + 1))
    } else if marker == U16_BYTE {
        if left < 3 {
            return None;
        }
        Some(((buf[pos + 1] as u64) + (buf[pos + 2] as u64) * 0x100, pos + 3))
    } else if marker == U32_BYTE && widest >= U32_BYTE {
        if left < 5 {
            return None;
        }
        Some(
            (
                (buf[pos + 1] as u64) + (buf[pos + 2] as u64) * 0x100 + (buf[pos + 3] as u64)
                    * 0x1_0000 + (buf[pos + 4] as u64) * 0x100_0000,
                pos + 5,
            ),
        )
    } else if marker == U64_BYTE && widest >= U64_BYTE {
        if left < 9 {
            return None;
        }
        Some(
            (
                (buf[pos + 1] as u64) + (buf[pos + 2] as u64) * 0x100 + (buf[pos + 3] as u64)
                    * 0x1_0000 + (buf[pos + 4] as u64) * 0x100_0000 + (buf[pos + 5] as u64)
                    * 0x1_0000_0000 + (buf[pos + 6] as u64) * 0x100_0000_0000 + (buf[pos + 7] as u64)
                    * 0x1_0000_0000_0000 + (buf[pos + 8] as u64) * 0x100_0000_0000_0000,
                pos + 9,
            ),
        )
    } else {
        None
    }
}

/// `String::from_utf8`: the string that the bytes are the UTF-8 form of, or
/// `None` where they are no UTF-8.
#[verifier::external_body]
fn string_from_utf8(bytes: Vec<u8>) -> (r: Option<String>)
    ensures
        r is Some <==> valid_utf8(bytes@),
        r matches Some(s) ==> s@ == decode_utf8(bytes@),
{
    String::from_utf8(bytes).ok()
}

/// Appends the encoding of a string.
pub fn encode_string(out: &mut Vec<u8>, s: &str)
    ensures
        final(out)@ == old(out)@ + spec_encode_string(s@),
{
    let bytes = s.as_bytes();
    encode_varint(out, bytes.len() as u64);
    push_bytes(out, bytes);
}

/// Reads the string that is encoded at a position.
pub fn decode_string(buf: &[u8], pos: usize) -> (r: Option<(String, usize)>)
    ensures
        match spec_decode_string(buf@, pos as int) {
            Some((value, end)) => r matches Some((v, e)) && v@ == value && e == end,
            None => r is None,
        },
{
    let (len, start) = match decode_varint(buf, pos, U64_BYTE) {
        Some(r) => r,
        None => {
            return None;
        },
    };
    if len > (buf.len() - start) as u64 {
        return None;
    }
    let end = start + len as usize;
    let bytes = slice_to_vec(slice_subrange(buf, start, end));
    match string_from_utf8(bytes) {
        Some(s) => Some((s, end)),
        None => None,
    }
}

/// Appends the encoding of a hardware address.
pub fn encode_mac(out: &mut Vec<u8>, addr: &DecodableMacAddr)
    ensures
        final(out)@ == old(out)@ + spec_encode_mac(*addr),
{
    out.push(if addr.is_v8 {
        1
    } else {
        0
    });
    push_bytes(out, addr.bytes.as_slice());
}

/// Reads the hardware address that is encoded at a position.
pub fn decode_mac(buf: &[u8], pos: usize) -> (r: Option<(DecodableMacAddr, usize)>)
    ensures
        match spec_decode_mac(buf@, pos as int) {
            Some((value, end)) => r matches Some((v, e)) && v == value && e == end,
            None => r is None,
        },
{
    if pos > buf.len() || buf.len() - pos < 9 || buf[pos] > 1 {
        return None;
    }
    let bytes: [u8; 8] = [
        buf[pos + 1],
        buf[pos + 2],
        buf[pos + 3],
        buf[pos + 4],
        buf[pos + 5],
        buf[pos + 6],
        buf[pos + 7],
        buf[pos + 8],
    ];
    let addr = DecodableMacAddr { is_v8: buf[pos] == 1, bytes };
    Some((addr, pos + 9))
}

/// Appends the encoding of a self-reported identifier.
pub fn encode_own_id(out: &mut Vec<u8>, id: &PeerOwnIdentifier)
    ensures
        final(out)@ == old(out)@ + spec_encode_own_id(id@),
{
    match id {
        PeerOwnIdentifier::Name(n) => {
            encode_varint(out, 0);
            encode_string(out, n.as_str());
        },
        PeerOwnIdentifier::DevAddr(a) => {
            encode_varint(out, 1);
            encode_mac(out, a);
        },
    }
}

/// Reads the self-reported identifier that is encoded at a position.
pub fn decode_own_id(buf: &[u8], pos: usize) -> (r: Option<(PeerOwnIdentifier, usize)>)
    ensures
        match spec_decode_own_id(buf@, pos as int) {
            Some((value, end)) => r matches Some((v, e)) && v@ == value && e == end,
            None => r is None,
        },
{
    let (variant, start) = match decode_varint(buf, pos, U32_BYTE) {
        Some(r) => r,
        None => {
            return None;
        },
    };
    if variant == 0 {
        match decode_string(buf, start) {
            Some((name, end)) => Some((PeerOwnIdentifier::Name(name), end)),
            None => None,
        }
    } else if variant == 1 {
        match decode_mac(buf, start) {
            Some((addr, end)) => Some((PeerOwnIdentifier::DevAddr(addr), end)),
            None => None,
        }
    } else {
        None
    }
}

/// Reads the key of 32 bytes at a position.
pub fn decode_key(buf: &[u8], pos: usize) -> (r: Option<([u8; 32], usize)>)
    ensures
        match spec_decode_key(buf@, pos as int) {
            Some((value, end)) => r matches Some((v, e)) && v@ == value && e == end,
            None => r is None,
        },
{
    if pos > buf.len() || buf.len() - pos < 32 {
        return None;
    }
    let mut key = [0u8; 32];
    let mut i: usize = 0;
    while i < 32
        invariant
            i <= 32,
            pos + 32 <= buf.len(),
            forall|j: int| 0 <= j < i ==> key@[j] == buf@[pos + j],
        decreases 32 - i,
    {
        key[i] = buf[pos + i];
        i = i + 1;
    }
    Some((key, pos + 32))
}

/// Appends the encoding of a logical identity.
pub fn encode_logical_id(out: &mut Vec<u8>, id: &LogicalPeerIdentity)
    ensures
        final(out)@ == old(out)@ + spec_encode_logical_id(id@),
{
    encode_string(out, id.nickname.as_str());
    push_bytes(out, id.key.0.as_slice());
}

/// Reads the logical identity that is encoded at a position.
pub fn decode_logical_id(buf: &[u8], pos: usize) -> (r: Option<(LogicalPeerIdentity, usize)>)
    ensures
        match spec_decode_logical_id(buf@, pos as int) {
            Some((value, end)) => r matches Some((v, e)) && v@ == value && e == end,
            None => r is None,
        },
{
    let (nickname, start) = match decode_string(buf, pos) {
        Some(r) => r,
        None => {
            return None;
        },
    };
    match decode_key(buf, start) {
        Some((key, end)) => Some(
            (LogicalPeerIdentity { nickname, key: MaybeInvalidPublicKey(key) }, end),
        ),
        None => None,
    }
}

/// Appends the encoding of a pair of ports.
pub fn encode_ports(out: &mut Vec<u8>, ports: &P2pPorts)
    ensures
        final(out)@ == old(out)@ + spec_encode_ports(*ports),
{
    encode_varint(out, ports.control as u64);
    encode_varint(out, ports.p2p as u64);
}

/// Reads the pair of ports that is encoded at a position.
pub fn decode_ports(buf: &[u8], pos: usize) -> (r: Option<(P2pPorts, usize)>)
    ensures
        match spec_decode_ports(buf@, pos as int) {
            Some((value, end)) => r matches Some((v, e)) && v == value && e == end,
            None => r is None,
        },
{
    let (control, start) = match decode_varint(buf, pos, U16_BYTE) {
        Some(r) => r,
        None => {
            return None;
        },
    };
    match decode_varint(buf, start, U16_BYTE) {
        Some((p2p, end)) => Some((P2pPorts { control: control as u16, p2p: p2p as u16 }, end)),
        None => None,
    }
}

/// Encodes a control message.
pub fn encode_control_message(msg: &ControlMessage) -> (r: Vec<u8>)
    ensures
        r@ == spec_encode_message(msg@),
{
    let mut out: Vec<u8> = Vec::new();
    match msg {
        ControlMessage::Associate { physical_id, logical_id, key_exchange_public_key, ports } => {
            encode_varint(&mut out, 0);
            encode_own_id(&mut out, physical_id);
            encode_logical_id(&mut out, logical_id);
            push_bytes(&mut out, key_exchange_public_key.0.as_slice());
            encode_ports(&mut out, ports);
        },
    }
    out
}

/// Decodes the payload of a control frame. The payload has to be one control
/// message and nothing more: a payload that is none is refused with
/// `Error::Decode`, one that goes on behind the message with
/// `Error::InvalidLength`.
pub fn decode_control_message(payload: &[u8]) -> (r: Result<ControlMessage, Error>)
    ensures
        match spec_decode_message(payload@) {
            Some((msg, end)) => if end == payload@.len() {
                r matches Ok(m) && m@ == msg
            } else {
                r matches Err(e) && e == Error::InvalidLength
            },
            None => r matches Err(e) && e == Error::Decode,
        },
{
    let (variant, p1) = match decode_varint(payload, 0, U32_BYTE) {
        Some(r) => r,
        None => {
            return Err(Error::Decode);
        },
    };
    if variant != 0 {
        return Err(Error::Decode);
    }
    let (physical_id, p2) = match decode_own_id(payload, p1) {
        Some(r) => r,
        None => {
            return Err(Error::Decode);
        },
    };
    let (logical_id, p3) = match decode_logical_id(payload, p2) {
        Some(r) => r,
        None => {
            return Err(Error::Decode);
        },
    };
    let (key, p4) = match decode_key(payload, p3) {
        Some(r) => r,
        None => {
            return Err(Error::Decode);
        },
    };
    let (ports, end) = match decode_ports(payload, p4) {
        Some(r) => r,
        None => {
            return Err(Error::Decode);
        },
    };
    if end != payload.len() {
        return Err(Error::InvalidLength);
    }
    Ok(
        ControlMessage::Associate {
            physical_id,
            logical_id,
            key_exchange_public_key: key_exchange::MaybeInvalidPublicKey(key),
            ports,
        },
    )
}

/// Whether a buffer holds the given bytes at a position.
pub open spec fn spec_has_at(buf: Seq<u8>, pos: int, enc: Seq<u8>) -> bool {
    0 <= pos && pos + enc.len() <= buf.len() && buf.subrange(pos, pos + enc.len()) == enc
}

proof fn lemma_has_at_index(buf: Seq<u8>, pos: int, enc: Seq<u8>)
    requires
        spec_has_at(buf, pos, enc),
    ensures
        forall|i: int| 0 <= i < enc.len() ==> buf[pos + i] == #[trigger] enc[i],
{
    assert forall|i: int| 0 <= i < enc.len() implies buf[pos + i] == #[trigger] enc[i] by {
        assert(buf.subrange(pos, pos + enc.len())[i] == buf[pos + i]);
    }
}

proof fn lemma_has_at_split(buf: Seq<u8>, pos: int, a: Seq<u8>, b: Seq<u8>)
    requires
        spec_has_at(buf, pos, a + b),
    ensures
        spec_has_at(buf, pos, a),
        spec_has_at(buf, pos + a.len(), b),
{
    lemma_has_at_index(buf, pos, a + b);
    assert forall|i: int| 0 <= i < a.len() implies buf.subrange(pos, pos + a.len())[i] == a[i] by {
        assert((a + b)[i] == a[i]);
    }
    assert(buf.subrange(pos, pos + a.len()) =~= a);
    assert forall|i: int| 0 <= i < b.len() implies buf.subrange(
        pos + a.len(),
        pos + a.len() + b.len(),
    )[i] == b[i] by {
        assert((a + b)[a.len() + i] == b[i]);
    }
    assert(buf.subrange(pos + a.len(), pos + a.len() + b.len()) =~= b);
}

proof fn lemma_two_bytes(x: u64)
    requires
        x < 0x1_0000,
    ensures
        x == x % 256 + (x / 0x100 % 256) * 0x100,
{
    assert(x < 0x1_0000 ==> x == x % 256 + (x / 0x100 % 256) * 0x100) by (bit_vector);
}

proof fn lemma_four_bytes(x: u64)
    requires
        x < 0x1_0000_0000,
    ensures
        x == x % 256 + (x / 0x100 % 256) * 0x100 + (x / 0x1_0000 % 256) * 0x1_0000 + (x / 0x100_0000
            % 256) * 0x100_0000,
{
    assert(x < 0x1_0000_0000 ==> x == x % 256 + (x / 0x100 % 256) * 0x100 + (x / 0x1_0000 % 256)
        * 0x1_0000 + (x / 0x100_0000 % 256) * 0x100_0000) by (bit_vector);
}

proof fn lemma_eight_bytes(x: u64)
    ensures
        x == x % 256 + (x / 0x100 % 256) * 0x100 + (x / 0x1_0000 % 256) * 0x1_0000 + (x / 0x100_0000
            % 256) * 0x100_0000 + (x / 0x1_0000_0000 % 256) * 0x1_0000_0000 + (x / 0x100_0000_0000
            % 256) * 0x100_0000_0000 + (x / 0x1_0000_0000_0000 % 256) * 0x1_0000_0000_0000 + (x
            / 0x100_0000_0000_0000 % 256) * 0x100_0000_0000_0000,
{
    assert(x == x % 256 + (x / 0x100 % 256) * 0x100 + (x / 0x1_0000 % 256) * 0x1_0000 + (x
        / 0x100_0000 % 256) * 0x100_0000 + (x / 0x1_0000_0000 % 256) * 0x1_0000_0000 + (x
        / 0x100_0000_0000 % 256) * 0x100_0000_0000 + (x / 0x1_0000_0000_0000 % 256)
        * 0x1_0000_0000_0000 + (x / 0x100_0000_0000_0000 % 256) * 0x100_0000_0000_0000)
        by (bit_vector);
}

/// An integer that was encoded is read back, under every type that is wide
/// enough for it.
pub proof fn lemma_varint_round_trip(buf: Seq<u8>, pos: int, x: nat, widest: u8)
    requires
        spec_has_at(buf, pos, spec_varint(x)),
        widest == U16_BYTE || widest == U32_BYTE || widest == U64_BYTE,
        widest == U16_BYTE ==> x < 0x1_0000,
        widest == U32_BYTE ==> x < 0x1_0000_0000,
        x < 0x1_0000_0000_0000_0000,
    ensures
        spec_decode_varint(buf, pos, widest) == Some((x, pos + spec_varint(x).len())),
{
    lemma_has_at_index(buf, pos, spec_varint(x));
    let enc = spec_varint(x);
    assert(buf[pos] == enc[0]);
    if x < 251 {
    } else if x < 0x1_0000 {
        assert(buf[pos + 1] == enc[1]);
        assert(buf[pos + 2] == enc[2]);
        lemma_two_bytes(x as u64);
    } else if x < 0x1_0000_0000 {
        assert(buf[pos + 1] == enc[1]);
        assert(buf[pos + 2] == enc[2]);
        assert(buf[pos + 3] == enc[3]);
        assert(buf[pos + 4] == enc[4]);
        lemma_four_bytes(x as u64);
    } else {
        assert(buf[pos + 1] == enc[1]);
        assert(buf[pos + 2] == enc[2]);
        assert(buf[pos + 3] == enc[3]);
        assert(buf[pos + 4] == enc[4]);
        assert(buf[pos + 5] == enc[5]);
        assert(buf[pos + 6] == enc[6]);
        assert(buf[pos + 7] == enc[7]);
        assert(buf[pos + 8] == enc[8]);
        lemma_eight_bytes(x as u64);
    }
}

proof fn lemma_string_round_trip(buf: Seq<u8>, pos: int, s: Seq<char>)
    requires
        spec_has_at(buf, pos, spec_encode_string(s)),
        encode_utf8(s).len() < 0x1_0000_0000_0000_0000,
    ensures
        spec_decode_string(buf, pos) == Some((s, pos + spec_encode_string(s).len())),
{
    let bytes = encode_utf8(s);
    lemma_has_at_split(buf, pos, spec_varint(bytes.len()), bytes);
    lemma_varint_round_trip(buf, pos, bytes.len(), U64_BYTE);
    vstd::utf8::encode_utf8_valid_utf8(s);
    vstd::utf8::encode_utf8_decode_utf8(s);
}

proof fn lemma_mac_round_trip(buf: Seq<u8>, pos: int, addr: DecodableMacAddr)
    requires
        spec_has_at(buf, pos, spec_encode_mac(addr)),
    ensures
        spec_decode_mac(buf, pos) == Some((addr, pos + 9)),
{
    let enc = spec_encode_mac(addr);
    lemma_has_at_index(buf, pos, enc);
    assert(enc.len() == 9);
    assert(buf[pos] == enc[0]);
    assert(buf[pos + 1] == enc[1]);
    assert(buf[pos + 2] == enc[2]);
    assert(buf[pos + 3] == enc[3]);
    assert(buf[pos + 4] == enc[4]);
    assert(buf[pos + 5] == enc[5]);
    assert(buf[pos + 6] == enc[6]);
    assert(buf[pos + 7] == enc[7]);
    assert(buf[pos + 8] == enc[8]);
    let got = spec_decode_mac(buf, pos).unwrap().0;
    assert(got.bytes =~= addr.bytes);
}

proof fn lemma_own_id_round_trip(buf: Seq<u8>, pos: int, id: PeerOwnIdentifierView)
    requires
        spec_has_at(buf, pos, spec_encode_own_id(id)),
        id matches PeerOwnIdentifierView::Name(n) ==> encode_utf8(n).len()
            < 0x1_0000_0000_0000_0000,
    ensures
        spec_decode_own_id(buf, pos) == Some((id, pos + spec_encode_own_id(id).len())),
{
    match id {
        PeerOwnIdentifierView::Name(n) => {
            lemma_has_at_split(buf, pos, spec_varint(0), spec_encode_string(n));
            lemma_varint_round_trip(buf, pos, 0, U32_BYTE);
            lemma_string_round_trip(buf, pos + 1, n);
        },
        PeerOwnIdentifierView::DevAddr(a) => {
            lemma_has_at_split(buf, pos, spec_varint(1), spec_encode_mac(a));
            lemma_varint_round_trip(buf, pos, 1, U32_BYTE);
            lemma_mac_round_trip(buf, pos + 1, a);
        },
    }
}

proof fn lemma_logical_id_round_trip(buf: Seq<u8>, pos: int, id: LogicalPeerIdentityView)
    requires
        spec_has_at(buf, pos, spec_encode_logical_id(id)),
        encode_utf8(id.nickname).len() < 0x1_0000_0000_0000_0000,
        id.key.len() == 32,
    ensures
        spec_decode_logical_id(buf, pos) == Some((id, pos + spec_encode_logical_id(id).len())),
{
    lemma_has_at_split(buf, pos, spec_encode_string(id.nickname), id.key);
    lemma_string_round_trip(buf, pos, id.nickname);
}

proof fn lemma_ports_round_trip(buf: Seq<u8>, pos: int, ports: P2pPorts)
    requires
        spec_has_at(buf, pos, spec_encode_ports(ports)),
    ensures
        spec_decode_ports(buf, pos) == Some((ports, pos + spec_encode_ports(ports).len())),
{
    let a = spec_varint(ports.control as nat);
    lemma_has_at_split(buf, pos, a, spec_varint(ports.p2p as nat));
    lemma_varint_round_trip(buf, pos, ports.control as nat, U16_BYTE);
    lemma_varint_round_trip(buf, pos + a.len(), ports.p2p as nat, U16_BYTE);
}

/// Whether a control message can be encoded: its keys have 32 bytes, and the
/// lengths of its strings fit the widest integer of the encoding. This holds
/// of every message that memory can hold.
pub open spec fn spec_encodable(msg: ControlMessageView) -> bool {
    match msg {
        ControlMessageView::Associate { physical_id, logical_id, key_exchange_public_key, ports } => {
            &&& physical_id matches PeerOwnIdentifierView::Name(n) ==> encode_utf8(n).len()
                < 0x1_0000_0000_0000_0000
            &&& encode_utf8(logical_id.nickname).len() < 0x1_0000_0000_0000_0000
            &&& logical_id.key.len() == 32
            &&& key_exchange_public_key.len() == 32
        },
    }
}

/// Encoding a control message and decoding the result gives the message back,
/// and the decoding ends where the encoding does.
pub proof fn lemma_message_round_trip(msg: ControlMessageView)
    requires
        spec_encodable(msg),
    ensures
        spec_decode_message(spec_encode_message(msg)) == Some(
            (msg, spec_encode_message(msg).len() as int),
        ),
{
    let buf = spec_encode_message(msg);
    match msg {
        ControlMessageView::Associate { physical_id, logical_id, key_exchange_public_key, ports } => {
            let a = spec_varint(0);
            let b = spec_encode_own_id(physical_id);
            let c = spec_encode_logical_id(logical_id);
            let d = key_exchange_public_key;
            let e = spec_encode_ports(ports);
            assert(buf.subrange(0, buf.len() as int) =~= buf);
            lemma_has_at_split(buf, 0, a + b + c + d, e);
            lemma_has_at_split(buf, 0, a + b + c, d);
            lemma_has_at_split(buf, 0, a + b, c);
            lemma_has_at_split(buf, 0, a, b);
            lemma_own_id_round_trip(buf, 1, physical_id);
            lemma_logical_id_round_trip(buf, 1 + b.len() as int, logical_id);
            lemma_ports_round_trip(buf, 1 + b.len() as int + c.len() as int + 32, ports);
        },
    }
}

} // verus!
