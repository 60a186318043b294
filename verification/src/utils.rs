//! Miscellaneous utilities: hardware addresses, link-local addressing and the
//! retry policy of outgoing sends.

use vstd::prelude::*;
use vstd::string::StringExecFns;

verus! {

/// A hardware address, either EUI-48 or EUI-64.
#[derive(Clone, Copy, Debug)]
pub enum MacAddr {
    V6([u8; 6]),
    V8([u8; 8]),
}

impl MacAddr {
    /// The bytes of the address, most significant first.
    pub open spec fn bytes(self) -> Seq<u8> {
        match self {
            MacAddr::V6(a) => a@,
            MacAddr::V8(a) => a@,
        }
    }

    pub fn is_v8(&self) -> (r: bool)
        ensures
            r == (*self is V8),
    {
        match self {
            MacAddr::V6(_) => false,
            MacAddr::V8(_) => true,
        }
    }

    /// Whether two addresses have the same width and the same bytes.
    pub fn same(&self, other: &MacAddr) -> (r: bool)
        ensures
            r == (*self == *other),
    {
        match (self, other) {
            (MacAddr::V6(a), MacAddr::V6(b)) => {
                let r = a[0] == b[0] && a[1] == b[1] && a[2] == b[2] && a[3] == b[3] && a[4] == b[4]
                    && a[5] == b[5];
                proof {
                    if r {
                        assert(*a =~= *b);
                    }
                }
                r
            },
            (MacAddr::V8(a), MacAddr::V8(b)) => {
                let r = a[0] == b[0] && a[1] == b[1] && a[2] == b[2] && a[3] == b[3] && a[4] == b[4]
                    && a[5] == b[5] && a[6] == b[6] && a[7] == b[7];
                proof {
                    if r {
                        assert(*a =~= *b);
                    }
                }
                r
            },
            _ => false,
        }
    }
}

/// The upper-case hexadecimal digit of a value below sixteen.
pub open spec fn spec_upper_hex_digit(n: int) -> char {
    if n == 0 {
        '0'
    } else if n == 1 {
        '1'
    } else if n == 2 {
        '2'
    } else if n == 3 {
        '3'
    } else if n == 4 {
        '4'
    } else if n == 5 {
        '5'
    } else if n == 6 {
        '6'
    } else if n == 7 {
        '7'
    } else if n == 8 {
        '8'
    } else if n == 9 {
        '9'
    } else if n == 10 {
        'A'
    } else if n == 11 {
        'B'
    } else if n == 12 {
        'C'
    } else if n == 13 {
        'D'
    } else if n == 14 {
        'E'
    } else {
        'F'
    }
}

/// The text of a hardware address: its bytes as two upper-case hexadecimal
/// digits each, with colons between them.
pub open spec fn spec_mac_text(bytes: Seq<u8>) -> Seq<char>
    decreases bytes.len(),
{
    if bytes.len() == 0 {
        Seq::empty()
    } else {
        let digits = seq![
            spec_upper_hex_digit(bytes.last() as int / 16),
            spec_upper_hex_digit(bytes.last() as int % 16),
        ];
        if bytes.len() == 1 {
            digits
        } else {
            spec_mac_text(bytes.drop_last()) + seq![':'] + digits
        }
    }
}

fn upper_hex_digit(n: u8) -> (r: &'static str)
    requires
        n < 16,
    ensures
        r@ == seq![spec_upper_hex_digit(n as int)],
{
    proof {
        reveal_strlit("0");
        reveal_strlit("1");
        reveal_strlit("2");
        reveal_strlit("3");
        reveal_strlit("4");
        reveal_strlit("5");
        reveal_strlit("6");
        reveal_strlit("7");
        reveal_strlit("8");
        reveal_strlit("9");
        reveal_strlit("A");
        reveal_strlit("B");
        reveal_strlit("C");
        reveal_strlit("D");
        reveal_strlit("E");
        reveal_strlit("F");
    }
    let r = match n {
        0 => "0",
        1 => "1",
        2 => "2",
        3 => "3",
        4 => "4",
        5 => "5",
        6 => "6",
        7 => "7",
        8 => "8",
        9 => "9",
        10 => "A",
        11 => "B",
        12 => "C",
        13 => "D",
        14 => "E",
        _ => "F",
    };
    assert(r@ =~= seq![spec_upper_hex_digit(n as int)]);
    r
}

/// Writes the bytes of an address as two upper-case hexadecimal digits each,
/// with colons between them.
fn mac_text(bytes: &[u8]) -> (r: String)
    ensures
        r@ == spec_mac_text(bytes@),
{
    let mut out = String::new();
    let mut i: usize = 0;
    while i < bytes.len()
        invariant
            i <= bytes@.len(),
            out@ == spec_mac_text(bytes@.subrange(0, i as int)),
        decreases bytes@.len() - i,
    {
        let ghost before = out@;
        if i > 0 {
            proof {
                reveal_strlit(":");
            }
            out.append(":");
        }
        out.append(upper_hex_digit(bytes[i] / 16));
        out.append(upper_hex_digit(bytes[i] % 16));
        proof {
            let next = bytes@.subrange(0, i + 1);
            let digits = seq![
                spec_upper_hex_digit(bytes@[i as int] as int / 16),
                spec_upper_hex_digit(bytes@[i as int] as int % 16),
            ];
            assert(next.drop_last() =~= bytes@.subrange(0, i as int));
            assert(next.last() == bytes@[i as int]);
            if i == 0 {
                assert(before =~= Seq::<char>::empty());
                assert(out@ =~= digits);
            } else {
                assert(out@ =~= before + seq![':'] + digits);
            }
            assert(spec_mac_text(next) == if next.len() == 1 {
                digits
            } else {
                spec_mac_text(next.drop_last()) + seq![':'] + digits
            });
        }
        i = i + 1;
    }
    assert(bytes@.subrange(0, bytes@.len() as int) =~= bytes@);
    out
}

/// The bytes of the hardware address that a text is read as, or `None` where
/// the text is none: six or eight bytes, each of two hexadecimal digits,
/// with or without hyphens, colons or dots between them.
pub uninterp spec fn mac_text_parsed(text: Seq<char>) -> Option<Seq<u8>>;

/// The `FromStr` of `macaddr::MacAddr`: the bytes of the address that the
/// text is read as, six or eight of them, or `None` where the text is
/// refused.
#[verifier::external_body]
fn mac_bytes_from_text(text: &str) -> (r: Option<Vec<u8>>)
    ensures
        r is Some <==> mac_text_parsed(text@) is Some,
        r matches Some(bytes) ==> mac_text_parsed(text@) == Some(bytes@) && (bytes@.len() == 6
            || bytes@.len() == 8),
{
    match text.parse::<macaddr::MacAddr>() {
        Ok(addr) => Some(addr.as_bytes().to_vec()),
        Err(_) => None,
    }
}

/// The hardware address that a text is read as, if it is one.
pub open spec fn spec_parse_mac_addr(text: Seq<char>) -> Option<MacAddr> {
    match mac_text_parsed(text) {
        Some(bytes) => spec_to_mac_addr(bytes),
        None => None,
    }
}

/// Reads a hardware address from text such as `de:ad:be:ef:00:01`.
pub fn parse_mac_addr(text: &str) -> (r: Option<MacAddr>)
    ensures
        r == spec_parse_mac_addr(text@),
        r is Some <==> mac_text_parsed(text@) is Some,
{
    match mac_bytes_from_text(text) {
        Some(bytes) => to_mac_addr(bytes.as_slice()),
        None => None,
    }
}

impl MacAddr {
    /// The address as text, such as `DE:AD:BE:EF:00:01`.
    pub fn display(&self) -> (r: String)
        ensures
            r@ == spec_mac_text(self.bytes()),
    {
        match self {
            MacAddr::V6(a) => mac_text(a.as_slice()),
            MacAddr::V8(a) => mac_text(a.as_slice()),
        }
    }
}

/// The address that a raw buffer holds: six bytes make an EUI-48, eight an
/// EUI-64, and any other length is no address.
pub open spec fn spec_to_mac_addr(buff: Seq<u8>) -> Option<MacAddr> {
    if buff.len() == 6 {
        Some(MacAddr::V6([buff[0], buff[1], buff[2], buff[3], buff[4], buff[5]]))
    } else if buff.len() == 8 {
        Some(
            MacAddr::V8([buff[0], buff[1], buff[2], buff[3], buff[4], buff[5], buff[6], buff[7]]),
        )
    } else {
        None
    }
}

/// Turns a raw buffer into a mac address.
pub fn to_mac_addr(buff: &[u8]) -> (r: Option<MacAddr>)
    ensures
        r == spec_to_mac_addr(buff@),
        r matches Some(m) ==> m.bytes() == buff@,
{
    let len = buff.len();
    if len == 6 {
        let a: [u8; 6] = [buff[0], buff[1], buff[2], buff[3], buff[4], buff[5]];
        Some(MacAddr::V6(a))
    } else if len == 8 {
        let a: [u8; 8] = [buff[0], buff[1], buff[2], buff[3], buff[4], buff[5], buff[6], buff[7]];
        Some(MacAddr::V8(a))
    } else {
        None
    }
}

/// The EUI-64 form of an address: an EUI-64 is kept as it is, and an EUI-48
/// gets `ff fe` between its third and fourth byte.
pub open spec fn spec_to_eui64(mac: MacAddr) -> Seq<u8> {
    match mac {
        MacAddr::V6(a) => seq![a@[0], a@[1], a@[2], 0xffu8, 0xfeu8, a@[3], a@[4], a@[5]],
        MacAddr::V8(a) => a@,
    }
}

/// The link-local IPv6 address of an interface identifier: the prefix
/// `fe80::/64`, then the EUI-64 with the universal/local bit of its first byte
/// flipped.
pub open spec fn spec_link_local(eui64: Seq<u8>) -> Seq<u8>
    recommends
        eui64.len() == 8,
{
    seq![
        0xfeu8,
        0x80u8,
        0u8,
        0u8,
        0u8,
        0u8,
        0u8,
        0u8,
        eui64[0] ^ 0x02u8,
        eui64[1],
        eui64[2],
        eui64[3],
        eui64[4],
        eui64[5],
        eui64[6],
        eui64[7],
    ]
}

/// The interface identifier that a link-local address was made from.
pub open spec fn spec_eui64_of_link_local(addr: Seq<u8>) -> Seq<u8>
    recommends
        addr.len() == 16,
{
    seq![addr[8] ^ 0x02u8, addr[9], addr[10], addr[11], addr[12], addr[13], addr[14], addr[15]]
}

/// The EUI-48 that an EUI-64 was made from.
pub open spec fn spec_eui48_of_eui64(eui64: Seq<u8>) -> Seq<u8>
    recommends
        eui64.len() == 8,
{
    seq![eui64[0], eui64[1], eui64[2], eui64[5], eui64[6], eui64[7]]
}

/// Converts an EUI-48 address to EUI-64 as RFC 4291 describes.
pub fn to_eui64(mac_addr: &MacAddr) -> (r: [u8; 8])
    ensures
        r@ == spec_to_eui64(*mac_addr),
{
    let r = match mac_addr {
        MacAddr::V6(a) => [a[0], a[1], a[2], 0xff, 0xfe, a[3], a[4], a[5]],
        MacAddr::V8(a) => *a,
    };
    r
}

/// Turns a mac address into the IPv6 link-local address that stateless
/// autoconfiguration derives from it (RFC 4862, section 5.3).
pub fn mac_addr_to_local_link_address(mac_addr: &MacAddr) -> (r: [u8; 16])
    ensures
        r@ == spec_link_local(spec_to_eui64(*mac_addr)),
{
    let eui64 = to_eui64(mac_addr);
    let r: [u8; 16] = [
        0xfe,
        0x80,
        0,
        0,
        0,
        0,
        0,
        0,
        eui64[0] ^ 0x02,
        eui64[1],
        eui64[2],
        eui64[3],
        eui64[4],
        eui64[5],
        eui64[6],
        eui64[7],
    ];
    r
}

/// The six bytes of an EUI-48 stay where the derivation puts them: three before
/// and three after `ff fe` in the interface identifier, which fills the second
/// half of the link-local address with only the universal/local bit flipped;
/// undoing both steps gives the address back.
pub proof fn lemma_link_local_keeps_mac(a: [u8; 6])
    ensures
        ({
            let eui64 = spec_to_eui64(MacAddr::V6(a));
            let addr = spec_link_local(eui64);
            &&& eui64.len() == 8
            &&& addr.len() == 16
            &&& addr.subrange(0, 8) == seq![0xfeu8, 0x80u8, 0u8, 0u8, 0u8, 0u8, 0u8, 0u8]
            &&& addr[8] == a@[0] ^ 0x02u8
            &&& addr[9] == a@[1]
            &&& addr[10] == a@[2]
            &&& addr[11] == 0xffu8
            &&& addr[12] == 0xfeu8
            &&& addr[13] == a@[3]
            &&& addr[14] == a@[4]
            &&& addr[15] == a@[5]
            &&& spec_eui64_of_link_local(addr) == eui64
            &&& spec_eui48_of_eui64(spec_eui64_of_link_local(addr)) == a@
        }),
{
    let x = a@[0];
    assert((x ^ 0x02u8) ^ 0x02u8 == x) by (bit_vector);
}

/// An EUI-64 is its own interface identifier, and the link-local address made
/// from it gives it back.
pub proof fn lemma_link_local_keeps_eui64(a: [u8; 8])
    ensures
        spec_to_eui64(MacAddr::V8(a)) == a@,
        spec_eui64_of_link_local(spec_link_local(a@)) == a@,
{
    let x = a@[0];
    assert((x ^ 0x02u8) ^ 0x02u8 == x) by (bit_vector);
}

/// Whether two byte strings are equal.
pub fn slices_equal(a: &[u8], b: &[u8]) -> (r: bool)
    ensures
        r == (a@ == b@),
{
    if a.len() != b.len() {
        return false;
    }
    let mut i: usize = 0;
    while i < a.len()
        invariant
            i <= a@.len(),
            a@.len() == b@.len(),
            forall|j: int| 0 <= j < i ==> a@[j] == b@[j],
        decreases a@.len() - i,
    {
        if a[i] != b[i] {
            return false;
        }
        i = i + 1;
    }
    assert(a@ =~= b@);
    true
}

/// How often a send to a peer is tried.
pub const SEND_ATTEMPTS: usize = 5;

/// How many seconds a sender waits between two attempts of a send.
pub const SEND_RETRY_PERIOD_SECS: u64 = 2;

/// How many seconds a connection to a peer may take to come about.
pub const CONNECT_TIMEOUT_SECS: u64 = 5;

/// What a sender does after one attempt of a send that is tried several times.
#[derive(Clone, Copy, Debug, PartialEq, Eq, Structural)]
pub enum RetryStep {
    /// The attempt succeeded: its result is returned.
    Done,
    /// The attempt failed and was the last one: its error is returned.
    GiveUp,
    /// The attempt failed: sleep for the retry period, then try again with
    /// this many attempts left.
    Again { attempts_left: usize },
}

/// The retry policy: a success ends the loop, a failure uses up one attempt,
/// and the failure of the last attempt is final.
pub fn retry_step(attempts_left: usize, succeeded: bool) -> (r: RetryStep)
    requires
        attempts_left > 0,
    ensures
        succeeded ==> r == RetryStep::Done,
        !succeeded && attempts_left == 1 ==> r == RetryStep::GiveUp,
        !succeeded && attempts_left > 1 ==> r == (RetryStep::Again {
            attempts_left: (attempts_left - 1) as usize,
        }),
{
    if succeeded {
        RetryStep::Done
    } else if attempts_left == 1 {
        RetryStep::GiveUp
    } else {
        RetryStep::Again { attempts_left: attempts_left - 1 }
    }
}

/// Runs the retry policy over the outcomes of the attempts, in order, and
/// returns how many attempts were made and whether the last one succeeded.
/// An outcome that is missing counts as a failure.
pub fn retry_outcome(count: usize, outcomes: &[bool]) -> (r: (usize, bool))
    requires
        count > 0,
    ensures
        1 <= r.0 <= count,
        forall|i: int| 0 <= i < r.0 - 1 && i < outcomes@.len() ==> !outcomes@[i],
        r.1 <==> r.0 <= outcomes@.len() && outcomes@[r.0 - 1],
        !r.1 ==> r.0 == count,
{
    let mut left = count;
    let mut made: usize = 0;
    loop
        invariant
            0 < left <= count,
            made + left == count,
            forall|i: int| 0 <= i < made && i < outcomes@.len() ==> !outcomes@[i],
        decreases left,
    {
        let ok = made < outcomes.len() && outcomes[made];
        made = made + 1;
        match retry_step(left, ok) {
            RetryStep::Done => {
                return (made, true);
            },
            RetryStep::GiveUp => {
                return (made, false);
            },
            RetryStep::Again { attempts_left } => {
                left = attempts_left;
            },
        }
    }
}

} // verus!
