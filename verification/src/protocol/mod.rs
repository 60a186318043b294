//! The wire protocol of a session: frames, control messages, identities and
//! keys.
//!
//! A frame starts with an eight-byte header:
//!    magic: u16
//!    version: u16
//!    len: u32
//! all of them big-endian. A control frame goes on with `len` bytes of
//! payload. A data frame goes on with a signature of the payload and then
//! with `len` bytes of payload.

pub mod codec;
pub mod encryption;
pub mod identity;
pub mod key_exchange;
pub mod signing;

use crate::error::Error;
use crate::ids::GroupId;
use crate::utils::{slices_equal, MacAddr};
use identity::{LogicalPeerIdentity, LogicalPeerIdentityView, OwnIdentity};
use key_exchange::KeyExchange;
use signing::{
    ed25519_signature, ed25519_verifies, sign, verify, KeyPair, MaybeInvalidSignature, SIGNATURE_LEN,
};
use std::collections::HashMap;
use vstd::prelude::*;
use vstd::slice::slice_subrange;
use vstd::std_specs::convert::FromSpecImpl;
use vstd::string::StringExecFns;

verus! {

/// The magic number that every frame starts with.
pub const MAGIC: u16 = 0xdead;

/// The version of the protocol.
pub const CURRENT_VERSION: u16 = 1;

/// The length of a frame's header in bytes.
pub const HEADER_LEN: usize = 8;

/// The port the owner of a group listens to for control messages.
pub const GO_CONTROL_PORT: u16 = 9001;

/// The two bytes of a value, most significant first.
pub open spec fn spec_be16(x: u16) -> Seq<u8> {
    seq![(x / 0x100) as u8, (x % 0x100) as u8]
}

/// The four bytes of a value, most significant first.
pub open spec fn spec_be32(x: u32) -> Seq<u8> {
    seq![
        (x / 0x100_0000) as u8,
        (x / 0x1_0000 % 0x100) as u8,
        (x / 0x100 % 0x100) as u8,
        (x % 0x100) as u8,
    ]
}

/// The header of a frame with a payload of the given length.
pub open spec fn spec_header(len: u32) -> Seq<u8> {
    spec_be16(MAGIC) + spec_be16(CURRENT_VERSION) + spec_be32(len)
}

/// A frame: the header, the signature where the frame is signed, the payload.
pub open spec fn spec_frame(payload: Seq<u8>, signature: Option<Seq<u8>>) -> Seq<u8>
    recommends
        payload.len() <= u32::MAX,
{
    spec_header(payload.len() as u32) + (match signature {
        Some(s) => s,
        None => Seq::empty(),
    }) + payload
}

/// What reading a header makes of the start of a buffer: the length of the
/// payload, or the reason why the frame is refused. The magic number is looked
/// at first, then the version, then the length.
pub open spec fn spec_parse_header(buf: Seq<u8>) -> Result<u32, Error> {
    if buf.len() < 2 {
        Err(Error::Truncated)
    } else if buf[0] != 0xde || buf[1] != 0xad {
        Err(Error::WrongMagic)
    } else if buf.len() < 4 {
        Err(Error::Truncated)
    } else if buf[2] != 0x00 || buf[3] != 0x01 {
        Err(Error::WrongVersion)
    } else if buf.len() < 8 {
        Err(Error::Truncated)
    } else {
        Ok((buf[4] * 0x100_0000 + buf[5] * 0x1_0000 + buf[6] * 0x100 + buf[7]) as u32)
    }
}

/// Reads the header of a frame from the start of a buffer and returns the
/// length of the frame's payload.
pub fn parse_header(buf: &[u8]) -> (r: Result<u32, Error>)
    ensures
        r == spec_parse_header(buf@),
{
    if buf.len() < 2 {
        return Err(Error::Truncated);
    }
    if buf[0] != 0xde || buf[1] != 0xad {
        return Err(Error::WrongMagic);
    }
    if buf.len() < 4 {
        return Err(Error::Truncated);
    }
    if buf[2] != 0x00 || buf[3] != 0x01 {
        return Err(Error::WrongVersion);
    }
    if buf.len() < 8 {
        return Err(Error::Truncated);
    }
    let len: u32 = (buf[4] as u32) * 0x100_0000 + (buf[5] as u32) * 0x1_0000 + (buf[6] as u32) * 0x100
        + (buf[7] as u32);
    Ok(len)
}

/// A frame whose magic number is not `0xdead`, or whose version is not 1, is
/// rejected, whatever else it holds.
pub proof fn lemma_foreign_frames_rejected(buf: Seq<u8>)
    requires
        buf.len() >= 4,
        buf.subrange(0, 2) != spec_be16(MAGIC) || buf.subrange(2, 4) != spec_be16(CURRENT_VERSION),
    ensures
        spec_parse_header(buf) is Err,
        spec_parse_frame(buf, true) is Err,
        spec_parse_frame(buf, false) is Err,
{
    if buf[0] == 0xde && buf[1] == 0xad && buf[2] == 0x00 && buf[3] == 0x01 {
        assert(buf.subrange(0, 2) =~= spec_be16(MAGIC));
        assert(buf.subrange(2, 4) =~= spec_be16(CURRENT_VERSION));
    }
}

/// A value is the sum of its four bytes, each at its place.
pub proof fn lemma_four_bytes(len: u32)
    ensures
        len == (len / 0x100_0000) * 0x100_0000 + (len / 0x1_0000 % 0x100) * 0x1_0000 + (len / 0x100
            % 0x100) * 0x100 + len % 0x100,
        len / 0x100_0000 < 0x100,
{
    assert(len == (len / 0x100_0000) * 0x100_0000 + (len / 0x1_0000 % 0x100) * 0x1_0000 + (len
        / 0x100 % 0x100) * 0x100 + len % 0x100) by (bit_vector);
    assert(len / 0x100_0000 < 0x100) by (bit_vector);
}

/// The header that [`spec_header`] describes is read back as the length it
/// was made for.
pub proof fn lemma_header_round_trip(len: u32, rest: Seq<u8>)
    ensures
        spec_parse_header(spec_header(len) + rest) == Ok::<u32, Error>(len),
{
    let buf = spec_header(len) + rest;
    lemma_four_bytes(len);
    assert(buf.len() >= 8);
    assert(buf[0] == 0xde && buf[1] == 0xad && buf[2] == 0 && buf[3] == 1);
    assert(buf[4] == (len / 0x100_0000) as u8);
    assert(buf[5] == (len / 0x1_0000 % 0x100) as u8);
    assert(buf[6] == (len / 0x100 % 0x100) as u8);
    assert(buf[7] == (len % 0x100) as u8);
}

/// A frame as it was read from a buffer.
pub struct Frame {
    /// The signature, where the frame is a signed one.
    pub signature: Option<MaybeInvalidSignature>,
    /// The payload.
    pub payload: Vec<u8>,
    /// How many bytes of the buffer the frame takes.
    pub consumed: usize,
}

/// What a frame is: its signature, if any, its payload and its length.
pub struct FrameView {
    pub signature: Option<Seq<u8>>,
    pub payload: Seq<u8>,
    pub consumed: int,
}

impl View for Frame {
    type V = FrameView;

    open spec fn view(&self) -> FrameView {
        FrameView {
            signature: match self.signature {
                Some(s) => Some(s.0@),
                None => None,
            },
            payload: self.payload@,
            consumed: self.consumed as int,
        }
    }
}

/// What reading a frame makes of the start of a buffer. A frame is refused
/// for its header, or as truncated where the buffer ends before the frame.
pub open spec fn spec_parse_frame(buf: Seq<u8>, signed: bool) -> Result<FrameView, Error> {
    match spec_parse_header(buf) {
        Err(e) => Err(e),
        Ok(len) => {
            let start = HEADER_LEN + (if signed {
                SIGNATURE_LEN
            } else {
                0
            });
            if buf.len() < start + len {
                Err(Error::Truncated)
            } else {
                Ok(
                    FrameView {
                        signature: if signed {
                            Some(buf.subrange(HEADER_LEN as int, start as int))
                        } else {
                            None
                        },
                        payload: buf.subrange(start as int, start + len),
                        consumed: start + len,
                    },
                )
            }
        },
    }
}

/// Reads one frame from the start of a buffer: a signed one where `signed`
/// is set, else an unsigned one. What follows the frame in the buffer is left
/// alone.
pub fn read_binary_message(buf: &[u8], signed: bool) -> (r: Result<Frame, Error>)
    ensures
        match spec_parse_frame(buf@, signed) {
            Ok(frame) => r matches Ok(f) && f@ == frame,
            Err(e) => r matches Err(f) && f == e,
        },
{
    let len = match parse_header(buf) {
        Ok(len) => len as usize,
        Err(e) => {
            return Err(e);
        },
    };
    let start: usize = if signed {
        HEADER_LEN + SIGNATURE_LEN
    } else {
        HEADER_LEN
    };
    if buf.len() < start || buf.len() - start < len {
        return Err(Error::Truncated);
    }
    let signature = if signed {
        let mut bytes = [0u8; SIGNATURE_LEN];
        let mut i: usize = 0;
        while i < SIGNATURE_LEN
            invariant
                i <= SIGNATURE_LEN,
                buf@.len() >= HEADER_LEN + SIGNATURE_LEN,
                forall|j: int| 0 <= j < i ==> bytes@[j] == buf@[HEADER_LEN + j],
            decreases SIGNATURE_LEN - i,
        {
            bytes[i] = buf[HEADER_LEN + i];
            i = i + 1;
        }
        assert(bytes@ =~= buf@.subrange(HEADER_LEN as int, start as int));
        Some(MaybeInvalidSignature(bytes))
    } else {
        None
    };
    let payload = vstd::slice::slice_to_vec(slice_subrange(buf, start, start + len));
    Ok(Frame { signature, payload, consumed: start + len })
}

/// How many bytes are to be read next of a frame of which a buffer holds
/// the start: up to the end of the magic number, then of the version, then
/// of the length, then of the signature where the frame is signed, then of
/// the payload, and none once the frame is whole. A frame of another magic
/// number or version is refused as soon as that is read.
pub open spec fn spec_frame_need(buf: Seq<u8>, signed: bool) -> Result<nat, Error> {
    match spec_parse_header(buf) {
        Err(e) => if e != Error::Truncated {
            Err(e)
        } else if buf.len() < 2 {
            Ok((2 - buf.len()) as nat)
        } else if buf.len() < 4 {
            Ok((4 - buf.len()) as nat)
        } else {
            Ok((HEADER_LEN - buf.len()) as nat)
        },
        Ok(len) => {
            let start = HEADER_LEN + (if signed {
                SIGNATURE_LEN
            } else {
                0
            });
            if buf.len() < start {
                Ok((start - buf.len()) as nat)
            } else if buf.len() < start + len {
                Ok((start + len - buf.len()) as nat)
            } else {
                Ok(0)
            }
        },
    }
}

/// Tells a reader of a stream how many bytes to read next of the frame of
/// which it has read `buf` so far, see [`spec_frame_need`]. Once there is
/// nothing more to read, [`read_binary_message`] reads the frame from the
/// buffer.
pub fn frame_need(buf: &[u8], signed: bool) -> (r: Result<u32, Error>)
    ensures
        match spec_frame_need(buf@, signed) {
            Ok(n) => r == Ok::<u32, Error>(n as u32) && n <= u32::MAX,
            Err(e) => r == Err::<u32, Error>(e),
        },
{
    match parse_header(buf) {
        Err(Error::Truncated) => {
            let end: usize = if buf.len() < 2 {
                2
            } else if buf.len() < 4 {
                4
            } else {
                HEADER_LEN
            };
            Ok((end - buf.len()) as u32)
        },
        Err(e) => Err(e),
        Ok(len) => {
            let start: usize = if signed {
                HEADER_LEN + SIGNATURE_LEN
            } else {
                HEADER_LEN
            };
            if buf.len() < start {
                Ok((start - buf.len()) as u32)
            } else if buf.len() - start < len as usize {
                Ok((len as usize - (buf.len() - start)) as u32)
            } else {
                Ok(0)
            }
        },
    }
}

/// A reader that reads what [`frame_need`] tells ends with a frame or with
/// the refusal of one: nothing more is to be read exactly where the buffer
/// holds a whole frame, a frame that is refused while it is read is refused
/// for the same reason when it is read from a buffer, and a frame of which
/// more is to be read is truncated as it stands.
pub proof fn lemma_frame_need(buf: Seq<u8>, signed: bool)
    ensures
        match spec_frame_need(buf, signed) {
            Ok(n) => if n == 0 {
                spec_parse_frame(buf, signed) is Ok
            } else {
                spec_parse_frame(buf, signed) == Err::<FrameView, Error>(Error::Truncated)
            },
            Err(e) => spec_parse_frame(buf, signed) == Err::<FrameView, Error>(e),
        },
{
}

/// So many zero bytes.
pub open spec fn spec_zeros(len: nat) -> Seq<u8> {
    Seq::new(len, |i: int| 0u8)
}

/// What becomes of a buffer for which room for a payload was asked: where
/// the room was had, the buffer goes on with one zero byte for each byte of
/// the payload, and else there is none, with `Error::OutOfMemory`.
pub fn payload_buffer_of(buf: Vec<u8>, len: u32, reserved: bool) -> (r: Result<Vec<u8>, Error>)
    ensures
        match r {
            Ok(filled) => reserved && filled@ == buf@ + spec_zeros(len as nat),
            Err(e) => !reserved && e == Error::OutOfMemory,
        },
{
    if !reserved {
        return Err(Error::OutOfMemory);
    }
    let mut filled = buf;
    let mut i: u32 = 0;
    while i < len
        invariant
            i <= len,
            filled@ == buf@ + spec_zeros(i as nat),
        decreases len - i,
    {
        filled.push(0);
        i = i + 1;
        assert(filled@ =~= buf@ + spec_zeros(i as nat));
    }
    Ok(filled)
}

/// A buffer with room for so many more bytes that are to be read into it:
/// the buffer goes on with one zero byte for each of them, or there is
/// `Error::OutOfMemory` where so much memory cannot be had. The memory is
/// asked for at once, before any of it is written. No memory is asked for
/// no bytes.
pub fn grown_buffer(buf: Vec<u8>, more: u32) -> (r: Result<Vec<u8>, Error>)
    ensures
        more == 0 ==> r is Ok,
        match r {
            Ok(grown) => grown@ == buf@ + spec_zeros(more as nat),
            Err(e) => e == Error::OutOfMemory,
        },
{
    let mut buf = buf;
    if more == 0 {
        assert(buf@ =~= buf@ + spec_zeros(0));
        return Ok(buf);
    }
    let reserved = buf.try_reserve(more as usize).is_ok();
    payload_buffer_of(buf, more, reserved)
}

/// The buffer that the payload of a frame is read into: as many zero bytes
/// as the header of the frame tells, or `Error::OutOfMemory` where so much
/// memory cannot be had. The memory is asked for at once, before any of it is
/// written. No memory is asked for an empty payload.
pub fn payload_buffer(len: u32) -> (r: Result<Vec<u8>, Error>)
    ensures
        len == 0 ==> r is Ok,
        match r {
            Ok(buf) => buf@ == spec_zeros(len as nat),
            Err(e) => e == Error::OutOfMemory,
        },
{
    let mut buf: Vec<u8> = Vec::new();
    if len == 0 {
        assert(buf@ =~= spec_zeros(0));
        return Ok(buf);
    }
    let reserved = buf.try_reserve(len as usize).is_ok();
    payload_buffer_of(buf, len, reserved)
}

/// Appends the header of a frame with a payload of the given length.
fn push_header(out: &mut Vec<u8>, len: u32)
    ensures
        final(out)@ == old(out)@ + spec_header(len),
{
    out.push(0xde);
    out.push(0xad);
    out.push(0x00);
    out.push(0x01);
    out.push((len / 0x100_0000) as u8);
    out.push((len / 0x1_0000 % 0x100) as u8);
    out.push((len / 0x100 % 0x100) as u8);
    out.push((len % 0x100) as u8);
}

/// Appends bytes to a buffer.
pub fn push_bytes(out: &mut Vec<u8>, bytes: &[u8])
    ensures
        final(out)@ == old(out)@ + bytes@,
{
    let mut i: usize = 0;
    while i < bytes.len()
        invariant
            i <= bytes@.len(),
            out@ == old(out)@ + bytes@.subrange(0, i as int),
        decreases bytes@.len() - i,
    {
        out.push(bytes[i]);
        i = i + 1;
    }
}

/// Makes a frame of a message: a signed one, with the signature the key gives
/// the message, where a key is given, else an unsigned one. A message of more
/// than `u32::MAX` bytes is refused with `Error::HugeLength`.
pub fn write_binary_message(msg: &[u8], signing_key: Option<&KeyPair>) -> (r: Result<Vec<u8>, Error>)
    ensures
        msg@.len() > u32::MAX ==> r == Err::<Vec<u8>, Error>(Error::HugeLength),
        msg@.len() <= u32::MAX ==> (r matches Ok(frame) && frame@ == spec_frame(
            msg@,
            match signing_key {
                Some(key) => Some(ed25519_signature(key.spec_pkcs8(), msg@)),
                None => None,
            },
        )),
        r matches Ok(frame) ==> frame@.len() == HEADER_LEN + (if signing_key is Some {
            SIGNATURE_LEN
        } else {
            0
        }) + msg@.len(),
{
    if msg.len() > u32::MAX as usize {
        return Err(Error::HugeLength);
    }
    let len = msg.len() as u32;
    let mut out: Vec<u8> = Vec::new();
    push_header(&mut out, len);
    match signing_key {
        Some(key) => {
            let signature = sign(key, msg);
            push_bytes(&mut out, signature.0.as_slice());
        },
        None => {},
    }
    push_bytes(&mut out, msg);
    Ok(out)
}

/// The ports a peer listens to in a group.
#[derive(Debug, Clone, Copy, PartialEq, Eq, Structural)]
pub struct P2pPorts {
    /// The port for the control channel.
    pub control: u16,
    /// The port for the p2p communication channel.
    pub p2p: u16,
}

/// A hardware address in the form in which it is encoded: a flag that tells
/// an EUI-64 from an EUI-48, and eight bytes, of which an EUI-48 uses the
/// first six.
#[derive(Debug, Clone, Copy)]
pub struct DecodableMacAddr {
    pub is_v8: bool,
    pub bytes: [u8; 8],
}

impl DecodableMacAddr {
    /// The address that the flag and the bytes stand for.
    pub open spec fn spec_to_mac_addr(self) -> MacAddr {
        if self.is_v8 {
            MacAddr::V8(self.bytes)
        } else {
            MacAddr::V6(
                [
                    self.bytes@[0],
                    self.bytes@[1],
                    self.bytes@[2],
                    self.bytes@[3],
                    self.bytes@[4],
                    self.bytes@[5],
                ],
            )
        }
    }

    /// The encodable form of an address: an EUI-48 is followed by two zero
    /// bytes.
    pub open spec fn spec_from(addr: MacAddr) -> DecodableMacAddr {
        match addr {
            MacAddr::V6(a) => DecodableMacAddr {
                is_v8: false,
                bytes: [a@[0], a@[1], a@[2], a@[3], a@[4], a@[5], 0u8, 0u8],
            },
            MacAddr::V8(a) => DecodableMacAddr { is_v8: true, bytes: a },
        }
    }

    pub fn to_mac_addr(&self) -> (r: MacAddr)
        ensures
            r == self.spec_to_mac_addr(),
    {
        if self.is_v8 {
            MacAddr::V8(self.bytes)
        } else {
            let b = &self.bytes;
            MacAddr::V6([b[0], b[1], b[2], b[3], b[4], b[5]])
        }
    }
}

impl From<MacAddr> for DecodableMacAddr {
    fn from(addr: MacAddr) -> (r: Self) {
        match addr {
            MacAddr::V6(a) => DecodableMacAddr {
                is_v8: false,
                bytes: [a[0], a[1], a[2], a[3], a[4], a[5], 0, 0],
            },
            MacAddr::V8(a) => DecodableMacAddr { is_v8: true, bytes: a },
        }
    }
}

impl FromSpecImpl<MacAddr> for DecodableMacAddr {
    open spec fn obeys_from_spec() -> bool {
        true
    }

    open spec fn from_spec(addr: MacAddr) -> Self {
        DecodableMacAddr::spec_from(addr)
    }
}

/// An address survives the way through its encodable form.
pub proof fn lemma_decodable_mac_round_trip(addr: MacAddr)
    ensures
        DecodableMacAddr::spec_from(addr).spec_to_mac_addr() == addr,
{
    match addr {
        MacAddr::V6(a) => {
            let d = DecodableMacAddr::spec_from(addr);
            let back = d.spec_to_mac_addr();
            assert(back->V6_0 =~= a);
        },
        MacAddr::V8(a) => {},
    }
}

/// What a physical identity is: the name and the address of a device.
pub struct PhysiscalPeerIdentityView {
    pub name: Seq<char>,
    pub dev_addr: MacAddr,
}

/// Identity of a given device, as the radio reports it.
#[derive(Debug, Clone)]
pub struct PhysiscalPeerIdentity {
    /// Name of the device.
    pub name: String,
    /// Device address of the P2P device. Note this is _not_ usable to get a
    /// link-local address.
    pub dev_addr: MacAddr,
}

impl View for PhysiscalPeerIdentity {
    type V = PhysiscalPeerIdentityView;

    open spec fn view(&self) -> PhysiscalPeerIdentityView {
        PhysiscalPeerIdentityView { name: self.name@, dev_addr: self.dev_addr }
    }
}

/// What a self-reported identifier is: a name or an address.
pub enum PeerOwnIdentifierView {
    Name(Seq<char>),
    DevAddr(DecodableMacAddr),
}

/// A single self-reported identifier for a peer. Ideally this is always the
/// device address, but not every platform lets a device know its own, so the
/// name of the device can stand in for it.
#[derive(Debug, Clone)]
pub enum PeerOwnIdentifier {
    Name(String),
    DevAddr(DecodableMacAddr),
}

impl View for PeerOwnIdentifier {
    type V = PeerOwnIdentifierView;

    open spec fn view(&self) -> PeerOwnIdentifierView {
        match self {
            PeerOwnIdentifier::Name(n) => PeerOwnIdentifierView::Name(n@),
            PeerOwnIdentifier::DevAddr(a) => PeerOwnIdentifierView::DevAddr(*a),
        }
    }
}

impl PeerOwnIdentifier {
    /// A copy of this identifier.
    pub fn duplicate(&self) -> (r: PeerOwnIdentifier)
        ensures
            r@ == self@,
    {
        match self {
            PeerOwnIdentifier::Name(n) => PeerOwnIdentifier::Name(n.clone()),
            PeerOwnIdentifier::DevAddr(a) => PeerOwnIdentifier::DevAddr(*a),
        }
    }
}

/// Whether a device is the one that an identifier reports: the device of that
/// name, or the device of that address.
pub open spec fn spec_matches(id: PhysiscalPeerIdentityView, own_id: PeerOwnIdentifierView) -> bool {
    match own_id {
        PeerOwnIdentifierView::Name(n) => id.name == n,
        PeerOwnIdentifierView::DevAddr(a) => id.dev_addr == a.spec_to_mac_addr(),
    }
}

impl PhysiscalPeerIdentity {
    /// Whether this peer matches its self-reported own identifier.
    pub fn matches(&self, own_id: &PeerOwnIdentifier) -> (r: bool)
        ensures
            r == spec_matches(self@, own_id@),
    {
        match own_id {
            PeerOwnIdentifier::Name(n) => self.name == *n,
            PeerOwnIdentifier::DevAddr(a) => self.dev_addr.same(&a.to_mac_addr()),
        }
    }

    /// The identity as text: the name, and the device address in brackets.
    pub fn display(&self) -> (r: String)
        ensures
            r@ == self.name@ + seq![' ', '('] + crate::utils::spec_mac_text(self.dev_addr.bytes())
                + seq![')'],
    {
        let mut out = self.name.clone();
        proof {
            reveal_strlit(" (");
            reveal_strlit(")");
        }
        out.append(" (");
        let text = self.dev_addr.display();
        out.append(text.as_str());
        out.append(")");
        out
    }

    /// A copy of this identity.
    pub fn duplicate(&self) -> (r: PhysiscalPeerIdentity)
        ensures
            r@ == self@,
    {
        PhysiscalPeerIdentity { name: self.name.clone(), dev_addr: self.dev_addr }
    }
}

/// What the identity of a peer is at a given time.
pub struct PeerIdentityView {
    pub physical: PhysiscalPeerIdentityView,
    pub logical: Option<LogicalPeerIdentityView>,
}

/// A peer identity at the current time.
#[derive(Debug, Clone)]
pub struct PeerIdentity {
    pub physical: PhysiscalPeerIdentity,
    /// The logical identity to be able to verify messages from a given peer.
    /// Unknown until association.
    pub logical: Option<LogicalPeerIdentity>,
}

impl View for PeerIdentity {
    type V = PeerIdentityView;

    open spec fn view(&self) -> PeerIdentityView {
        PeerIdentityView {
            physical: self.physical@,
            logical: match self.logical {
                Some(l) => Some(l@),
                None => None,
            },
        }
    }
}

impl PeerIdentity {
    /// Whether this peer matches its self-reported own identifier.
    pub fn matches(&self, own_id: &PeerOwnIdentifier) -> (r: bool)
        ensures
            r == spec_matches(self.physical@, own_id@),
    {
        self.physical.matches(own_id)
    }

    /// The identity as the texts in which it is shown: the name of the
    /// device, its address, and the logical identity where the peer has one.
    pub fn texts(&self) -> (r: (String, String, Option<String>))
        ensures
            r.0@ == self.physical.name@,
            r.1@ == crate::utils::spec_mac_text(self.physical.dev_addr.bytes()),
            match self.logical {
                Some(l) => r.2 matches Some(text) && text@ == identity::spec_display_logical_id(
                    l.nickname@,
                    l.key.0@,
                ),
                None => r.2 is None,
            },
    {
        (
            self.physical.name.clone(),
            self.physical.dev_addr.display(),
            match &self.logical {
                Some(l) => Some(l.display()),
                None => None,
            },
        )
    }

    /// A copy of this identity.
    pub fn duplicate(&self) -> (r: PeerIdentity)
        ensures
            r@ == self@,
    {
        PeerIdentity {
            physical: self.physical.duplicate(),
            logical: match &self.logical {
                Some(l) => Some(l.duplicate()),
                None => None,
            },
        }
    }
}

/// Information from a peer (other than ourselves).
pub struct PeerInfo {
    /// Identity of this peer.
    pub identity: PeerIdentity,
    /// Current list of groups the peer is connected to.
    pub groups: Vec<GroupId>,
    /// The key exchange with this peer.
    pub key_exchange: KeyExchange,
    /// The path under which the platform knows this peer. Empty where the
    /// platform has none.
    pub data: String,
}

/// An IP address.
#[derive(Debug, Clone, Copy)]
pub enum IpAddr {
    V4([u8; 4]),
    V6([u8; 16]),
}

impl IpAddr {
    /// Whether two addresses are of one family and have the same bytes.
    pub fn same(&self, other: &IpAddr) -> (r: bool)
        ensures
            r == (*self == *other),
    {
        match (self, other) {
            (IpAddr::V4(a), IpAddr::V4(b)) => {
                let r = slices_equal(a.as_slice(), b.as_slice());
                proof {
                    if r {
                        assert(*a =~= *b);
                    }
                }
                r
            },
            (IpAddr::V6(a), IpAddr::V6(b)) => {
                let r = slices_equal(a.as_slice(), b.as_slice());
                proof {
                    if r {
                        assert(*a =~= *b);
                    }
                }
                r
            },
            _ => false,
        }
    }
}

/// The address of a socket.
#[allow(inconsistent_fields)]
#[derive(Debug, Clone, Copy)]
pub enum SocketAddr {
    V4 { ip: [u8; 4], port: u16 },
    V6 { ip: [u8; 16], port: u16, flowinfo: u32, scope_id: u32 },
}

/// Where a peer can be reached in a group.
#[derive(Debug, Clone, Copy)]
pub struct PeerAddress {
    pub address: IpAddr,
    pub ports: P2pPorts,
}

/// The socket address of a port of a peer: an IPv4 address has no use for
/// the scope id, an IPv6 address carries it as its zone index.
pub open spec fn spec_peer_to_socket_addr(addr: IpAddr, scope_id: u32, port: u16) -> SocketAddr {
    match addr {
        IpAddr::V4(ip) => SocketAddr::V4 { ip, port },
        IpAddr::V6(ip) => SocketAddr::V6 { ip, port, flowinfo: 0, scope_id },
    }
}

/// Given a peer and scope id, get an appropriate socket address to send
/// messages to.
pub fn peer_to_socket_addr(addr: IpAddr, scope_id: u32, port: u16) -> (r: SocketAddr)
    ensures
        r == spec_peer_to_socket_addr(addr, scope_id, port),
{
    match addr {
        IpAddr::V4(ip) => SocketAddr::V4 { ip, port },
        IpAddr::V6(ip) => SocketAddr::V6 { ip, port, flowinfo: 0, scope_id },
    }
}

/// Per group association for a given peer.
#[derive(Debug, Clone, Copy)]
pub struct PeerGroupInfo {
    /// The address of this peer in the group, and the ports it listens to.
    pub address: PeerAddress,
}

/// What the platform tells of a group.
#[derive(Debug)]
pub struct GroupData {
    /// The path under which the platform knows the group.
    pub path: String,
    /// The path under which the platform knows the group's interface.
    pub iface_path: String,
    /// Device address of the group owner, where the platform tells it.
    pub go_dev_addr: Option<MacAddr>,
}

/// Information about the current group.
#[derive(Debug)]
pub struct GroupInfo {
    /// Ip address of the group owner.
    pub go_ip_address: IpAddr,
    /// Name of the interface.
    pub iface_name: String,
    /// Scope id of the interface.
    pub scope_id: u32,
    /// Whether we're the group owner.
    pub is_go: bool,
    /// The current peers we have, by the raw value of their identifier.
    pub peers: HashMap<u64, PeerGroupInfo>,
    /// Back-end specific data for this group.
    pub data: GroupData,
}

/// What a control message is.
pub enum ControlMessageView {
    Associate {
        physical_id: PeerOwnIdentifierView,
        logical_id: LogicalPeerIdentityView,
        key_exchange_public_key: Seq<u8>,
        ports: P2pPorts,
    },
}

/// Control messages of the protocol, which is the same on every platform.
#[derive(Debug)]
pub enum ControlMessage {
    /// Associate this sender with a peer that the radio has found, telling
    /// the identity, the key and the ports of the sender.
    Associate {
        /// The identifier used to associate back to the peer.
        physical_id: PeerOwnIdentifier,
        /// The logical identity of our peer.
        logical_id: LogicalPeerIdentity,
        /// The public key of the sender's key exchange with the receiver.
        key_exchange_public_key: key_exchange::MaybeInvalidPublicKey,
        /// The ports the peer is listening to.
        ports: P2pPorts,
    },
}

impl View for ControlMessage {
    type V = ControlMessageView;

    open spec fn view(&self) -> ControlMessageView {
        match self {
            ControlMessage::Associate { physical_id, logical_id, key_exchange_public_key, ports } => {
                ControlMessageView::Associate {
                    physical_id: physical_id@,
                    logical_id: logical_id@,
                    key_exchange_public_key: key_exchange_public_key.0@,
                    ports: *ports,
                }
            },
        }
    }
}

/// A frame that was written is read back: the same signature, the same
/// payload, and nothing of what follows the frame.
pub proof fn lemma_frame_round_trip(payload: Seq<u8>, signature: Option<Seq<u8>>, rest: Seq<u8>)
    requires
        payload.len() <= u32::MAX,
        signature matches Some(s) ==> s.len() == SIGNATURE_LEN,
    ensures
        spec_parse_frame(spec_frame(payload, signature) + rest, signature is Some) == Ok::<
            FrameView,
            Error,
        >(
            FrameView {
                signature,
                payload,
                consumed: spec_frame(payload, signature).len() as int,
            },
        ),
{
    let len = payload.len() as u32;
    let sig = match signature {
        Some(s) => s,
        None => Seq::empty(),
    };
    let buf = spec_frame(payload, signature) + rest;
    assert(buf =~= spec_header(len) + (sig + payload + rest));
    lemma_header_round_trip(len, sig + payload + rest);
    let start = HEADER_LEN + sig.len();
    assert(buf.subrange(start as int, start + len) =~= payload);
    if signature is Some {
        assert(buf.subrange(HEADER_LEN as int, start as int) =~= sig);
    }
}

/// Reads a control frame from the start of a buffer and decodes its payload.
/// Control messages are unsigned. The message comes with the number of bytes
/// that its frame takes.
pub fn read_control_message(buf: &[u8]) -> (r: Result<(ControlMessage, usize), Error>)
    ensures
        match spec_parse_frame(buf@, false) {
            Err(e) => r matches Err(f) && f == e,
            Ok(frame) => match codec::spec_decode_message(frame.payload) {
                Some((msg, end)) => if end == frame.payload.len() {
                    r matches Ok((m, n)) && m@ == msg && n == frame.consumed
                } else {
                    r matches Err(e) && e == Error::InvalidLength
                },
                None => r matches Err(e) && e == Error::Decode,
            },
        },
{
    let frame = match read_binary_message(buf, false) {
        Ok(frame) => frame,
        Err(e) => {
            return Err(e);
        },
    };
    match codec::decode_control_message(frame.payload.as_slice()) {
        Ok(msg) => Ok((msg, frame.consumed)),
        Err(e) => Err(e),
    }
}

/// Makes the control frame of a message. A message whose encoding has more
/// than `u32::MAX` bytes is refused with `Error::HugeLength`.
pub fn write_control_message(msg: &ControlMessage) -> (r: Result<Vec<u8>, Error>)
    ensures
        codec::spec_encode_message(msg@).len() > u32::MAX ==> r == Err::<Vec<u8>, Error>(
            Error::HugeLength,
        ),
        codec::spec_encode_message(msg@).len() <= u32::MAX ==> (r matches Ok(frame) && frame@
            == spec_frame(codec::spec_encode_message(msg@), None)),
{
    let payload = codec::encode_control_message(msg);
    write_binary_message(payload.as_slice(), None)
}

/// Reads a data frame from the start of a buffer and verifies its signature
/// against the key of the peer that it comes from. The payload comes with the
/// number of bytes that its frame takes. A frame whose signature does not
/// verify is refused with `Error::BadSignature`.
pub fn read_peer_message(_own: &OwnIdentity, id: &LogicalPeerIdentity, buf: &[u8]) -> (r: Result<
    (Vec<u8>, usize),
    Error,
>)
    ensures
        match spec_parse_frame(buf@, true) {
            Err(e) => r matches Err(f) && f == e,
            Ok(frame) => if ed25519_verifies(id.key.0@, frame.payload, frame.signature.unwrap()) {
                r matches Ok((payload, n)) && payload@ == frame.payload && n == frame.consumed
            } else {
                r matches Err(e) && e == Error::BadSignature
            },
        },
{
    let frame = match read_binary_message(buf, true) {
        Ok(frame) => frame,
        Err(e) => {
            return Err(e);
        },
    };
    let signature = match frame.signature {
        Some(s) => s,
        None => {
            return Err(Error::BadSignature);
        },
    };
    match verify(&id.key, &signature, frame.payload.as_slice()) {
        Ok(()) => Ok((frame.payload, frame.consumed)),
        Err(e) => Err(e),
    }
}

/// Makes the data frame of a message from this session: the message, signed
/// with the session's key.
pub fn write_peer_message(from: &OwnIdentity, msg: &[u8]) -> (r: Result<Vec<u8>, Error>)
    ensures
        msg@.len() > u32::MAX ==> r == Err::<Vec<u8>, Error>(Error::HugeLength),
        msg@.len() <= u32::MAX ==> (r matches Ok(frame) && frame@ == spec_frame(
            msg@,
            Some(ed25519_signature(from.key_pair.spec_pkcs8(), msg@)),
        ) && frame@.len() == HEADER_LEN + SIGNATURE_LEN + msg@.len()),
{
    write_binary_message(msg, Some(&from.key_pair))
}

} // verus!
