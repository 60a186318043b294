//! Stores of peers and groups. A record is addressed by a generational
//! handle. A handle of a record that was removed finds nothing for as long
//! as the same handle is not given out again. The handle map tells the
//! records that follow each other in one slot apart by a generation count of
//! sixteen bits, which starts again when it has run out. Each store keeps
//! count of its changes: for its first [`REUSE_LIMIT`] changes no generation
//! count has run out, and every handle that the store gives out is one that
//! it has never given out before.

use crate::ids::{GroupId, PeerId};
use crate::protocol::{GroupInfo, PeerInfo};
use crate::utils::MacAddr;
use handy::{Handle, HandleMap};
use std::collections::HashMap;
use vstd::hash_map::StringHashMap;
use vstd::prelude::*;

verus! {

broadcast use vstd::std_specs::hash::group_hash_axioms;

#[verifier::external_type_specification]
#[verifier::external_body]
#[verifier::reject_recursive_types(T)]
pub struct ExHandleMap<T>(handy::HandleMap<T>);

/// How many records a store takes. A handle map cannot grow beyond
/// `i32::MAX` slots, and it doubles when it grows.
pub const STORE_LIMIT: usize = 0x4000_0000;

/// How often a store can be changed before a handle that it gave out may
/// come again: the generation count of a slot goes up by at most two with
/// each change, and starts again when it has passed `u16::MAX`.
pub const REUSE_LIMIT: usize = 32766;

/// The peers that a handle map holds, by the raw value of their handles.
pub uninterp spec fn peer_entries(map: HandleMap<PeerInfo>) -> Map<u64, PeerInfo>;

/// The groups that a handle map holds, by the raw value of their handles.
pub uninterp spec fn group_entries(map: HandleMap<GroupInfo>) -> Map<u64, GroupInfo>;

/// The generation count of each slot of a handle map of peers, in the order
/// of the slots.
pub uninterp spec fn peer_generations(map: HandleMap<PeerInfo>) -> Seq<u16>;

/// The generation count of each slot of a handle map of groups, in the order
/// of the slots.
pub uninterp spec fn group_generations(map: HandleMap<GroupInfo>) -> Seq<u16>;

/// The slot that a handle points to: the low 32 bits of its raw value.
pub open spec fn spec_handle_slot(id: u64) -> int {
    id as int % 0x1_0000_0000
}

/// The generation count that a handle carries: the high 16 bits of its raw
/// value.
pub open spec fn spec_handle_generation(id: u64) -> int {
    id as int / 0x1_0000_0000_0000
}

/// The generation count of a slot that takes a record: one more than it
/// was, and 2 again once the count has passed `u16::MAX`.
pub open spec fn spec_next_generation(generation: u16) -> int {
    if generation == u16::MAX {
        2
    } else {
        generation + 1
    }
}

/// The generation count of a slot after the map was cleared: the next odd
/// count, and 1 again once the count has passed `u16::MAX`.
pub open spec fn spec_cleared_generation(generation: u16) -> int {
    if generation % 2 == 0 {
        generation + 1
    } else if generation == u16::MAX {
        1
    } else {
        generation + 2
    }
}

/// What taking a record does to the generation counts of a handle map: the
/// map may get more slots, each with the count 1; the slot of the new handle
/// gets its next count, which the handle carries; the other slots stay.
pub open spec fn spec_generations_inserted(before: Seq<u16>, after: Seq<u16>, id: u64) -> bool {
    let slot = spec_handle_slot(id);
    &&& before.len() <= after.len()
    &&& slot < after.len()
    &&& after[slot] == spec_handle_generation(id)
    &&& after[slot] == spec_next_generation(
        if slot < before.len() {
            before[slot]
        } else {
            1
        },
    )
    &&& forall|j: int|
        0 <= j < after.len() && j != slot ==> #[trigger] after[j] == (if j < before.len() {
            before[j]
        } else {
            1
        })
}

/// What clearing does to the generation counts of a handle map.
pub open spec fn spec_generations_cleared(before: Seq<u16>, after: Seq<u16>) -> bool {
    &&& after.len() == before.len()
    &&& forall|j: int|
        0 <= j < after.len() ==> #[trigger] after[j] == spec_cleared_generation(before[j])
}

/// `handy::HandleMap::new`: a map that holds nothing.
#[verifier::external_body]
fn peer_map_new() -> (map: HandleMap<PeerInfo>)
    ensures
        peer_entries(map) =~= Map::empty(),
        peer_generations(map) =~= Seq::empty(),
{
    HandleMap::new()
}

/// `handy::HandleMap::len`: the number of records.
#[verifier::external_body]
fn peer_map_len(map: &HandleMap<PeerInfo>) -> (n: usize)
    ensures
        n == peer_entries(*map).len(),
{
    map.len()
}

/// `handy::HandleMap::insert`: the record is held under a handle that no
/// record of the map has. The handle points to a slot and carries the
/// generation count that the slot has from then on. The map panics when it
/// has to grow beyond `i32::MAX` slots, which it does not below the limit.
#[verifier::external_body]
fn peer_map_insert(map: &mut HandleMap<PeerInfo>, value: PeerInfo) -> (id: u64)
    requires
        peer_entries(*old(map)).dom().finite(),
        peer_entries(*old(map)).len() < STORE_LIMIT,
    ensures
        !peer_entries(*old(map)).contains_key(id),
        peer_entries(*final(map)) == peer_entries(*old(map)).insert(id, value),
        spec_generations_inserted(peer_generations(*old(map)), peer_generations(*final(map)), id),
{
    map.insert(value).into_raw()
}

/// `handy::HandleMap::get`: the record of a handle, if the map holds one.
#[verifier::external_body]
fn peer_map_get(map: &HandleMap<PeerInfo>, id: u64) -> (r: Option<&PeerInfo>)
    ensures
        r is Some <==> peer_entries(*map).contains_key(id),
        r matches Some(v) ==> *v == peer_entries(*map)[id],
{
    map.get(Handle::from_raw(id))
}

/// `handy::HandleMap::get_mut`: the record of a handle, if the map holds one.
/// What is written through the reference is what the map holds afterwards;
/// the other records and the generation counts stay.
#[verifier::external_body]
fn peer_map_get_mut(map: &mut HandleMap<PeerInfo>, id: u64) -> (r: Option<&mut PeerInfo>)
    ensures
        r is Some <==> peer_entries(*old(map)).contains_key(id),
        r matches Some(v) ==> *v == peer_entries(*old(map))[id] && peer_entries(*final(map))
            == peer_entries(*old(map)).insert(id, *final(v)),
        r is None ==> peer_entries(*final(map)) == peer_entries(*old(map)),
        peer_generations(*final(map)) == peer_generations(*old(map)),
{
    map.get_mut(Handle::from_raw(id))
}

/// `handy::HandleMap::remove`: takes the record of a handle out of the map,
/// if the map holds one. The generation count of the slot then goes up by
/// one.
#[verifier::external_body]
fn peer_map_remove(map: &mut HandleMap<PeerInfo>, id: u64) -> (r: Option<PeerInfo>)
    ensures
        r is Some <==> peer_entries(*old(map)).contains_key(id),
        r matches Some(v) ==> v == peer_entries(*old(map))[id],
        peer_entries(*final(map)) == peer_entries(*old(map)).remove(id),
        r is None ==> peer_generations(*final(map)) == peer_generations(*old(map)),
        r is Some ==> spec_handle_slot(id) < peer_generations(*old(map)).len() && peer_generations(*final(map))
            =~= peer_generations(*old(map)).update(
            spec_handle_slot(id),
            (peer_generations(*old(map))[spec_handle_slot(id)] + 1) as u16,
        ) && peer_generations(*old(map))[spec_handle_slot(id)] < u16::MAX,
{
    map.remove(Handle::from_raw(id))
}

/// `handy::HandleMap::clear`: afterwards the map holds nothing, and every
/// slot has its next odd generation count.
#[verifier::external_body]
fn peer_map_clear(map: &mut HandleMap<PeerInfo>)
    ensures
        peer_entries(*final(map)) =~= Map::empty(),
        spec_generations_cleared(peer_generations(*old(map)), peer_generations(*final(map))),
{
    map.clear()
}

/// `handy::HandleMap::iter_with_handles`: the handles of all records, each
/// once, in the order of their slots.
#[verifier::external_body]
fn peer_map_handles(map: &HandleMap<PeerInfo>) -> (r: Vec<u64>)
    ensures
        r@.no_duplicates(),
        r@.to_set() == peer_entries(*map).dom(),
{
    map.iter_with_handles().map(|(handle, _)| handle.into_raw()).collect()
}

/// `handy::HandleMap::new`: a map that holds nothing.
#[verifier::external_body]
fn group_map_new() -> (map: HandleMap<GroupInfo>)
    ensures
        group_entries(map) =~= Map::empty(),
        group_generations(map) =~= Seq::empty(),
{
    HandleMap::new()
}

/// `handy::HandleMap::len`: the number of records.
#[verifier::external_body]
fn group_map_len(map: &HandleMap<GroupInfo>) -> (n: usize)
    ensures
        n == group_entries(*map).len(),
{
    map.len()
}

/// `handy::HandleMap::insert`: the record is held under a handle that no
/// record of the map has. The handle points to a slot and carries the
/// generation count that the slot has from then on. The map panics when it
/// has to grow beyond `i32::MAX` slots, which it does not below the limit.
#[verifier::external_body]
fn group_map_insert(map: &mut HandleMap<GroupInfo>, value: GroupInfo) -> (id: u64)
    requires
        group_entries(*old(map)).dom().finite(),
        group_entries(*old(map)).len() < STORE_LIMIT,
    ensures
        !group_entries(*old(map)).contains_key(id),
        group_entries(*final(map)) == group_entries(*old(map)).insert(id, value),
        spec_generations_inserted(group_generations(*old(map)), group_generations(*final(map)), id),
{
    map.insert(value).into_raw()
}

/// `handy::HandleMap::get`: the record of a handle, if the map holds one.
#[verifier::external_body]
fn group_map_get(map: &HandleMap<GroupInfo>, id: u64) -> (r: Option<&GroupInfo>)
    ensures
        r is Some <==> group_entries(*map).contains_key(id),
        r matches Some(v) ==> *v == group_entries(*map)[id],
{
    map.get(Handle::from_raw(id))
}

/// `handy::HandleMap::get_mut`: the record of a handle, if the map holds one.
/// What is written through the reference is what the map holds afterwards;
/// the other records and the generation counts stay.
#[verifier::external_body]
fn group_map_get_mut(map: &mut HandleMap<GroupInfo>, id: u64) -> (r: Option<&mut GroupInfo>)
    ensures
        r is Some <==> group_entries(*old(map)).contains_key(id),
        r matches Some(v) ==> *v == group_entries(*old(map))[id] && group_entries(*final(map))
            == group_entries(*old(map)).insert(id, *final(v)),
        r is None ==> group_entries(*final(map)) == group_entries(*old(map)),
        group_generations(*final(map)) == group_generations(*old(map)),
{
    map.get_mut(Handle::from_raw(id))
}

/// `handy::HandleMap::remove`: takes the record of a handle out of the map,
/// if the map holds one. The generation count of the slot then goes up by
/// one.
#[verifier::external_body]
fn group_map_remove(map: &mut HandleMap<GroupInfo>, id: u64) -> (r: Option<GroupInfo>)
    ensures
        r is Some <==> group_entries(*old(map)).contains_key(id),
        r matches Some(v) ==> v == group_entries(*old(map))[id],
        group_entries(*final(map)) == group_entries(*old(map)).remove(id),
        r is None ==> group_generations(*final(map)) == group_generations(*old(map)),
        r is Some ==> spec_handle_slot(id) < group_generations(*old(map)).len() && group_generations(*final(map))
            =~= group_generations(*old(map)).update(
            spec_handle_slot(id),
            (group_generations(*old(map))[spec_handle_slot(id)] + 1) as u16,
        ) && group_generations(*old(map))[spec_handle_slot(id)] < u16::MAX,
{
    map.remove(Handle::from_raw(id))
}

/// `handy::HandleMap::clear`: afterwards the map holds nothing, and every
/// slot has its next odd generation count.
#[verifier::external_body]
fn group_map_clear(map: &mut HandleMap<GroupInfo>)
    ensures
        group_entries(*final(map)) =~= Map::empty(),
        spec_generations_cleared(group_generations(*old(map)), group_generations(*final(map))),
{
    map.clear()
}

/// `handy::HandleMap::iter_with_handles`: the handles of all records, each
/// once, in the order of their slots.
#[verifier::external_body]
fn group_map_handles(map: &HandleMap<GroupInfo>) -> (r: Vec<u64>)
    ensures
        r@.no_duplicates(),
        r@.to_set() == group_entries(*map).dom(),
{
    map.iter_with_handles().map(|(handle, _)| handle.into_raw()).collect()
}

/// The bytes of an EUI-48 as one number, most significant byte first.
pub open spec fn spec_number6(a: Seq<u8>) -> int {
    ((((a[0] * 256 + a[1]) * 256 + a[2]) * 256 + a[3]) * 256 + a[4]) * 256 + a[5]
}

/// The bytes of an EUI-64 as one number, most significant byte first.
pub open spec fn spec_number8(a: Seq<u8>) -> int {
    ((((((a[0] * 256 + a[1]) * 256 + a[2]) * 256 + a[3]) * 256 + a[4]) * 256 + a[5]) * 256 + a[6])
        * 256 + a[7]
}

/// The number under which the index of a peer store knows a hardware address:
/// the bytes as one number, and for an EUI-64 a further bit above them.
pub open spec fn spec_mac_key(addr: MacAddr) -> u128 {
    match addr {
        MacAddr::V6(a) => spec_number6(a@) as u128,
        MacAddr::V8(a) => (0x1_0000_0000_0000_0000 + spec_number8(a@)) as u128,
    }
}

/// The number under which the index of a peer store knows a hardware address.
pub fn mac_key(addr: &MacAddr) -> (r: u128)
    ensures
        r == spec_mac_key(*addr),
{
    match addr {
        MacAddr::V6(a) => {
            let k: u128 = a[0] as u128;
            let k: u128 = k * 256 + a[1] as u128;
            let k: u128 = k * 256 + a[2] as u128;
            let k: u128 = k * 256 + a[3] as u128;
            let k: u128 = k * 256 + a[4] as u128;
            let k: u128 = k * 256 + a[5] as u128;
            k
        },
        MacAddr::V8(a) => {
            let k: u128 = a[0] as u128;
            let k: u128 = k * 256 + a[1] as u128;
            let k: u128 = k * 256 + a[2] as u128;
            let k: u128 = k * 256 + a[3] as u128;
            let k: u128 = k * 256 + a[4] as u128;
            let k: u128 = k * 256 + a[5] as u128;
            let k: u128 = k * 256 + a[6] as u128;
            let k: u128 = k * 256 + a[7] as u128;
            0x1_0000_0000_0000_0000 + k
        },
    }
}

proof fn lemma_digit(h1: int, l1: u8, h2: int, l2: u8)
    requires
        h1 * 256 + l1 == h2 * 256 + l2,
    ensures
        h1 == h2,
        l1 == l2,
{
}

proof fn lemma_number6(a: Seq<u8>, b: Seq<u8>)
    requires
        a.len() == 6,
        b.len() == 6,
        spec_number6(a) == spec_number6(b),
    ensures
        a == b,
{
    let a1 = a[0] * 256 + a[1];
    let b1 = b[0] * 256 + b[1];
    let a2 = a1 * 256 + a[2];
    let b2 = b1 * 256 + b[2];
    let a3 = a2 * 256 + a[3];
    let b3 = b2 * 256 + b[3];
    let a4 = a3 * 256 + a[4];
    let b4 = b3 * 256 + b[4];
    lemma_digit(a4, a[5], b4, b[5]);
    lemma_digit(a3, a[4], b3, b[4]);
    lemma_digit(a2, a[3], b2, b[3]);
    lemma_digit(a1, a[2], b1, b[2]);
    lemma_digit(a[0] as int, a[1], b[0] as int, b[1]);
    assert(a =~= b);
}

proof fn lemma_number8(a: Seq<u8>, b: Seq<u8>)
    requires
        a.len() == 8,
        b.len() == 8,
        spec_number8(a) == spec_number8(b),
    ensures
        a == b,
{
    let a1 = a[0] * 256 + a[1];
    let b1 = b[0] * 256 + b[1];
    let a2 = a1 * 256 + a[2];
    let b2 = b1 * 256 + b[2];
    let a3 = a2 * 256 + a[3];
    let b3 = b2 * 256 + b[3];
    let a4 = a3 * 256 + a[4];
    let b4 = b3 * 256 + b[4];
    let a5 = a4 * 256 + a[5];
    let b5 = b4 * 256 + b[5];
    let a6 = a5 * 256 + a[6];
    let b6 = b5 * 256 + b[6];
    lemma_digit(a6, a[7], b6, b[7]);
    lemma_digit(a5, a[6], b5, b[6]);
    lemma_digit(a4, a[5], b4, b[5]);
    lemma_digit(a3, a[4], b3, b[4]);
    lemma_digit(a2, a[3], b2, b[3]);
    lemma_digit(a1, a[2], b1, b[2]);
    lemma_digit(a[0] as int, a[1], b[0] as int, b[1]);
    assert(a =~= b);
}

proof fn lemma_number_bounds(a: Seq<u8>)
    ensures
        a.len() == 6 ==> 0 <= spec_number6(a) < 0x1_0000_0000_0000,
        a.len() == 8 ==> 0 <= spec_number8(a) < 0x1_0000_0000_0000_0000,
{
    if a.len() == 6 {
        let a1 = a[0] * 256 + a[1];
        let a2 = a1 * 256 + a[2];
        let a3 = a2 * 256 + a[3];
        let a4 = a3 * 256 + a[4];
        assert(0 <= a1 < 0x1_0000);
        assert(0 <= a2 < 0x100_0000);
        assert(0 <= a3 < 0x1_0000_0000);
        assert(0 <= a4 < 0x100_0000_0000);
    }
    if a.len() == 8 {
        let a1 = a[0] * 256 + a[1];
        let a2 = a1 * 256 + a[2];
        let a3 = a2 * 256 + a[3];
        let a4 = a3 * 256 + a[4];
        let a5 = a4 * 256 + a[5];
        let a6 = a5 * 256 + a[6];
        assert(0 <= a1 < 0x1_0000);
        assert(0 <= a2 < 0x100_0000);
        assert(0 <= a3 < 0x1_0000_0000);
        assert(0 <= a4 < 0x100_0000_0000);
        assert(0 <= a5 < 0x1_0000_0000_0000);
        assert(0 <= a6 < 0x100_0000_0000_0000);
    }
}

/// Two hardware addresses that the index knows under one number are the same
/// address.
pub proof fn lemma_mac_key_injective(a: MacAddr, b: MacAddr)
    requires
        spec_mac_key(a) == spec_mac_key(b),
    ensures
        a == b,
{
    lemma_number_bounds(a.bytes());
    lemma_number_bounds(b.bytes());
    match (a, b) {
        (MacAddr::V6(x), MacAddr::V6(y)) => {
            lemma_number6(x@, y@);
            assert(x =~= y);
        },
        (MacAddr::V8(x), MacAddr::V8(y)) => {
            lemma_number8(x@, y@);
            assert(x =~= y);
        },
        _ => {},
    }
}

/// Whether the generation counts of a store fit its history: no count is
/// further than two for each change of the store, and, as long as no count
/// can have started again, every identifier that was given out points to a
/// slot whose count has not fallen behind the one that the identifier
/// carries.
pub open spec fn spec_history(generations: Seq<u16>, issued: Set<u64>, uses: nat) -> bool {
    &&& forall|j: int| 0 <= j < generations.len() ==> #[trigger] generations[j] <= 1 + 2 * uses
    &&& uses <= REUSE_LIMIT ==> forall|h: u64| #[trigger]
        issued.contains(h) ==> spec_handle_slot(h) < generations.len() && spec_handle_generation(
            h,
        ) <= generations[spec_handle_slot(h)]
}

/// Taking a record keeps the history of a store, and as long as no count can
/// have started again the new identifier is none that was given out before.
pub proof fn lemma_history_inserted(
    before: Seq<u16>,
    after: Seq<u16>,
    issued: Set<u64>,
    uses: nat,
    id: u64,
)
    requires
        spec_history(before, issued, uses),
        spec_generations_inserted(before, after, id),
    ensures
        spec_history(after, issued.insert(id), uses + 1),
        uses <= REUSE_LIMIT ==> !issued.contains(id),
{
    let slot = spec_handle_slot(id);
    assert forall|j: int| 0 <= j < after.len() implies #[trigger] after[j] <= 1 + 2 * (uses + 1) by {
        if j != slot && j < before.len() {
            assert(before[j] <= 1 + 2 * uses);
        }
        if j == slot && slot < before.len() {
            assert(before[slot] <= 1 + 2 * uses);
        }
    }
    if uses <= REUSE_LIMIT {
        if slot < before.len() {
            assert(before[slot] <= 1 + 2 * uses);
        }
        if issued.contains(id) {
            assert(spec_handle_generation(id) <= before[slot]);
        }
    }
    if uses + 1 <= REUSE_LIMIT {
        assert forall|h: u64| #[trigger] issued.insert(id).contains(h) implies spec_handle_slot(h)
            < after.len() && spec_handle_generation(h) <= after[spec_handle_slot(h)] by {
            if h != id {
                assert(issued.contains(h));
                let j = spec_handle_slot(h);
                if j != slot {
                    assert(after[j] == before[j]);
                } else {
                    assert(before[slot] <= 1 + 2 * uses);
                }
            }
        }
    }
}

/// Giving up a record keeps the history of a store.
pub proof fn lemma_history_removed(
    before: Seq<u16>,
    after: Seq<u16>,
    issued: Set<u64>,
    uses: nat,
    slot: int,
)
    requires
        spec_history(before, issued, uses),
        0 <= slot < before.len(),
        before[slot] < u16::MAX,
        after == before.update(slot, (before[slot] + 1) as u16),
    ensures
        spec_history(after, issued, uses + 1),
{
    assert forall|j: int| 0 <= j < after.len() implies #[trigger] after[j] <= 1 + 2 * (uses + 1) by {
        assert(before[j] <= 1 + 2 * uses);
    }
    if uses + 1 <= REUSE_LIMIT {
        assert forall|h: u64| #[trigger] issued.contains(h) implies spec_handle_slot(h) < after.len()
            && spec_handle_generation(h) <= after[spec_handle_slot(h)] by {
            let j = spec_handle_slot(h);
            assert(spec_handle_generation(h) <= before[j]);
        }
    }
}

/// Dropping all records keeps the history of a store.
pub proof fn lemma_history_cleared(before: Seq<u16>, after: Seq<u16>, issued: Set<u64>, uses: nat)
    requires
        spec_history(before, issued, uses),
        spec_generations_cleared(before, after),
    ensures
        spec_history(after, issued, uses + 1),
{
    assert forall|j: int| 0 <= j < after.len() implies #[trigger] after[j] <= 1 + 2 * (uses + 1) by {
        assert(before[j] <= 1 + 2 * uses);
    }
    if uses + 1 <= REUSE_LIMIT {
        assert forall|h: u64| #[trigger] issued.contains(h) implies spec_handle_slot(h) < after.len()
            && spec_handle_generation(h) <= after[spec_handle_slot(h)] by {
            let j = spec_handle_slot(h);
            assert(spec_handle_generation(h) <= before[j]);
            assert(before[j] <= 1 + 2 * uses);
            assert(after[j] == spec_cleared_generation(before[j]));
        }
    }
}

/// The store of the peers that the radio has found, with an index from
/// hardware address to peer.
pub struct PeerStore {
    map: HandleMap<PeerInfo>,
    /// This is only used to speed up device updates.
    mac_to_id: HashMap<u128, u64>,
    /// Every identifier that the store has given out.
    issued: Ghost<Set<u64>>,
    /// How often the store has taken, given up or dropped records.
    uses: Ghost<nat>,
}

/// The number under which the index knows a peer.
pub open spec fn spec_peer_key(peer: PeerInfo) -> u128 {
    spec_mac_key(peer.identity.physical.dev_addr)
}

impl PeerStore {
    /// The records of the store, by the raw value of their identifiers.
    pub closed spec fn entries(&self) -> Map<u64, PeerInfo> {
        peer_entries(self.map)
    }

    /// The index of the store: from the number of a hardware address to the
    /// raw value of an identifier.
    pub closed spec fn index(&self) -> Map<u128, u64> {
        self.mac_to_id@
    }

    /// The generation count of each slot of the store.
    pub closed spec fn generations(&self) -> Seq<u16> {
        peer_generations(self.map)
    }

    /// The raw value of every identifier that the store has given out, those
    /// of removed peers too.
    pub closed spec fn issued(&self) -> Set<u64> {
        self.issued@
    }

    /// How often the store has taken, given up or dropped records.
    pub closed spec fn uses(&self) -> nat {
        self.uses@
    }

    /// The store is well formed: the index has one entry for each record, it
    /// leads from the address of each record to the record, and from nowhere
    /// else anywhere.
    pub open spec fn wf(&self) -> bool {
        &&& self.entries().dom().finite()
        &&& self.index().dom().finite()
        &&& self.entries().len() <= STORE_LIMIT
        &&& self.index().len() == self.entries().len()
        &&& spec_history(self.generations(), self.issued(), self.uses())
        &&& forall|id: u64| #[trigger]
            self.entries().contains_key(id) ==> self.index().contains_key(
                spec_peer_key(self.entries()[id]),
            ) && self.index()[spec_peer_key(self.entries()[id])] == id
        &&& forall|k: u128| #[trigger]
            self.index().contains_key(k) ==> self.entries().contains_key(self.index()[k])
                && spec_peer_key(self.entries()[self.index()[k]]) == k
    }

    /// Whether the store holds a peer of this hardware address.
    pub open spec fn has_mac(&self, addr: MacAddr) -> bool {
        self.index().contains_key(spec_mac_key(addr))
    }

    /// A store stays well formed when one of its records changes and keeps
    /// its hardware address.
    pub proof fn lemma_update_keeps_wf(before: PeerStore, after: PeerStore, id: u64)
        requires
            before.wf(),
            before.entries().contains_key(id),
            after.index() == before.index(),
            after.generations() == before.generations(),
            after.issued() == before.issued(),
            after.uses() == before.uses(),
            after.entries().contains_key(id),
            after.entries() == before.entries().insert(id, after.entries()[id]),
            spec_peer_key(after.entries()[id]) == spec_peer_key(before.entries()[id]),
        ensures
            after.wf(),
    {
    }

    /// In a well-formed store the index and the records agree: there are as
    /// many entries as records, and the index leads from a hardware address
    /// to an identifier exactly where the record of the identifier has that
    /// address.
    pub proof fn lemma_index_agrees(self, addr: MacAddr, id: u64)
        requires
            self.wf(),
        ensures
            self.index().len() == self.entries().len(),
            self.index().contains_key(spec_mac_key(addr)) && self.index()[spec_mac_key(addr)] == id
                <==> self.entries().contains_key(id) && self.entries()[id].identity.physical.dev_addr
                == addr,
    {
        if self.index().contains_key(spec_mac_key(addr)) && self.index()[spec_mac_key(addr)] == id {
            lemma_mac_key_injective(self.entries()[id].identity.physical.dev_addr, addr);
        }
    }

    /// An empty store.
    pub fn new() -> (r: Self)
        ensures
            r.wf(),
            r.entries() == Map::<u64, PeerInfo>::empty(),
            r.issued() == Set::<u64>::empty(),
            r.uses() == 0,
    {
        let r = PeerStore {
            map: peer_map_new(),
            mac_to_id: HashMap::new(),
            issued: Ghost(Set::empty()),
            uses: Ghost(0),
        };
        r
    }

    /// The number of peers.
    pub fn len(&self) -> (n: usize)
        ensures
            n == self.entries().len(),
    {
        peer_map_len(&self.map)
    }

    /// Takes a peer into the store and returns its identifier, which no peer
    /// of the store had. A peer whose hardware address the store knows
    /// already is refused, and so is any peer once the store is full; the
    /// store then stays as it is.
    pub fn insert(&mut self, peer: PeerInfo) -> (r: Option<PeerId>)
        requires
            old(self).wf(),
        ensures
            final(self).wf(),
            r is None <==> old(self).has_mac(peer.identity.physical.dev_addr) || old(self).entries().len()
                >= STORE_LIMIT,
            match r {
                Some(id) => {
                    &&& old(self).uses() <= REUSE_LIMIT ==> !old(self).issued().contains(id.0)
                    &&& final(self).issued() == old(self).issued().insert(id.0)
                    &&& final(self).uses() == old(self).uses() + 1
                    &&& !old(self).entries().contains_key(id.0)
                    &&& final(self).entries() == old(self).entries().insert(id.0, peer)
                    &&& final(self).index() == old(self).index().insert(spec_peer_key(peer), id.0)
                },
                None => {
                    &&& final(self).entries() == old(self).entries()
                    &&& final(self).index() == old(self).index()
                    &&& final(self).issued() == old(self).issued()
                    &&& final(self).uses() == old(self).uses()
                },
            },
    {
        let key = mac_key(&peer.identity.physical.dev_addr);
        if self.mac_to_id.contains_key(&key) || peer_map_len(&self.map) >= STORE_LIMIT {
            return None;
        }
        let id = peer_map_insert(&mut self.map, peer);
        self.mac_to_id.insert(key, id);
        self.issued = Ghost(self.issued@.insert(id));
        self.uses = Ghost(self.uses@ + 1);
        proof {
            lemma_history_inserted(
                old(self).generations(),
                self.generations(),
                old(self).issued(),
                old(self).uses(),
                id,
            );
            assert(self.entries().dom() =~= old(self).entries().dom().insert(id));
            assert(self.index().dom() =~= old(self).index().dom().insert(key));
        }
        Some(PeerId(id))
    }

    /// The identifier of the peer of a hardware address, if the store holds
    /// one.
    pub fn id_by_mac(&self, addr: &MacAddr) -> (r: Option<PeerId>)
        requires
            self.wf(),
        ensures
            r is Some <==> self.has_mac(*addr),
            r matches Some(id) ==> {
                &&& self.entries().contains_key(id.0)
                &&& self.entries()[id.0].identity.physical.dev_addr == *addr
                &&& self.index()[spec_mac_key(*addr)] == id.0
            },
    {
        let key = mac_key(addr);
        match self.mac_to_id.get(&key) {
            Some(id) => {
                proof {
                    lemma_mac_key_injective(self.entries()[*id].identity.physical.dev_addr, *addr);
                }
                Some(PeerId(*id))
            },
            None => None,
        }
    }

    /// The record of a peer, if the store holds one under the identifier.
    pub fn get(&self, id: PeerId) -> (r: Option<&PeerInfo>)
        ensures
            r is Some <==> self.entries().contains_key(id.0),
            r matches Some(peer) ==> *peer == self.entries()[id.0],
    {
        peer_map_get(&self.map, id.0)
    }

    /// The record of a peer for change, if the store holds one under the
    /// identifier. The store is well formed afterwards as long as the
    /// hardware address of the peer is left as it is.
    pub fn get_mut(&mut self, id: PeerId) -> (r: Option<&mut PeerInfo>)
        ensures
            r is Some <==> old(self).entries().contains_key(id.0),
            r matches Some(peer) ==> *peer == old(self).entries()[id.0] && final(self).entries()
                == old(self).entries().insert(id.0, *final(peer)),
            r is None ==> final(self).entries() == old(self).entries(),
            final(self).index() == old(self).index(),
            final(self).generations() == old(self).generations(),
            final(self).issued() == old(self).issued(),
            final(self).uses() == old(self).uses(),
    {
        peer_map_get_mut(&mut self.map, id.0)
    }

    /// Takes a peer out of the store, if the store holds one under the
    /// identifier. The identifier finds nothing from then on.
    pub fn remove(&mut self, id: PeerId) -> (r: Option<PeerInfo>)
        requires
            old(self).wf(),
        ensures
            final(self).wf(),
            r is Some <==> old(self).entries().contains_key(id.0),
            r matches Some(peer) ==> peer == old(self).entries()[id.0] && final(self).index()
                == old(self).index().remove(spec_peer_key(peer)),
            r is None ==> final(self).index() == old(self).index(),
            final(self).entries() == old(self).entries().remove(id.0),
            final(self).issued() == old(self).issued(),
            final(self).uses() == old(self).uses() + (if r is Some {
                1nat
            } else {
                0nat
            }),
    {
        let removed = peer_map_remove(&mut self.map, id.0);
        match &removed {
            Some(peer) => {
                let key = mac_key(&peer.identity.physical.dev_addr);
                self.mac_to_id.remove(&key);
                self.uses = Ghost(self.uses@ + 1);
                proof {
                    lemma_history_removed(
                        old(self).generations(),
                        self.generations(),
                        old(self).issued(),
                        old(self).uses(),
                        spec_handle_slot(id.0),
                    );
                    assert(self.entries().dom() =~= old(self).entries().dom().remove(id.0));
                    assert(self.index().dom() =~= old(self).index().dom().remove(key));
                }
            },
            None => {},
        }
        removed
    }

    /// Drops all peers.
    pub fn clear(&mut self)
        requires
            old(self).wf(),
        ensures
            final(self).wf(),
            final(self).entries() == Map::<u64, PeerInfo>::empty(),
            final(self).issued() == old(self).issued(),
            final(self).uses() == old(self).uses() + 1,
    {
        peer_map_clear(&mut self.map);
        self.mac_to_id.clear();
        self.uses = Ghost(self.uses@ + 1);
        proof {
            lemma_history_cleared(
                old(self).generations(),
                self.generations(),
                old(self).issued(),
                old(self).uses(),
            );
        }
    }

    /// The identifiers of all peers, each once, in no particular order.
    pub fn ids(&self) -> (r: Vec<u64>)
        ensures
            r@.no_duplicates(),
            r@.to_set() == self.entries().dom(),
    {
        peer_map_handles(&self.map)
    }
}

/// An object that the platform knows under a path.
pub trait DbusPath {
    /// The path of the object.
    spec fn spec_path(&self) -> Seq<char>;

    /// The path of the object.
    fn path(&self) -> (r: &String)
        ensures
            r@ == self.spec_path(),
    ;
}

impl DbusPath for GroupInfo {
    open spec fn spec_path(&self) -> Seq<char> {
        self.data.path@
    }

    fn path(&self) -> (r: &String) {
        &self.data.path
    }
}

/// The store of the groups of a session, with an index from the path of a
/// group to the group.
pub struct DbusStore {
    /// DBUS path to handle, for fast lookup from a path.
    path_to_handle: StringHashMap<u64>,
    /// The actual storage for the items.
    map: HandleMap<GroupInfo>,
    /// Every identifier that the store has given out.
    issued: Ghost<Set<u64>>,
    /// How often the store has taken, given up or dropped records.
    uses: Ghost<nat>,
}

impl DbusStore {
    /// The records of the store, by the raw value of their identifiers.
    pub closed spec fn entries(&self) -> Map<u64, GroupInfo> {
        group_entries(self.map)
    }

    /// The index of the store: from the path of a group to the raw value of
    /// its identifier.
    pub closed spec fn index(&self) -> Map<Seq<char>, u64> {
        self.path_to_handle@
    }

    /// The generation count of each slot of the store.
    pub closed spec fn generations(&self) -> Seq<u16> {
        group_generations(self.map)
    }

    /// The raw value of every identifier that the store has given out, those
    /// of removed groups too.
    pub closed spec fn issued(&self) -> Set<u64> {
        self.issued@
    }

    /// How often the store has taken, given up or dropped records.
    pub closed spec fn uses(&self) -> nat {
        self.uses@
    }

    /// The store is well formed: the index has one entry for each record, it
    /// leads from the path of each record to the record, and from nowhere
    /// else anywhere.
    pub open spec fn wf(&self) -> bool {
        &&& self.entries().dom().finite()
        &&& self.index().dom().finite()
        &&& self.entries().len() <= STORE_LIMIT
        &&& self.index().len() == self.entries().len()
        &&& spec_history(self.generations(), self.issued(), self.uses())
        &&& forall|id: u64| #[trigger]
            self.entries().contains_key(id) ==> self.index().contains_key(
                self.entries()[id].spec_path(),
            ) && self.index()[self.entries()[id].spec_path()] == id
        &&& forall|path: Seq<char>| #[trigger]
            self.index().contains_key(path) ==> self.entries().contains_key(self.index()[path])
                && self.entries()[self.index()[path]].spec_path() == path
    }

    /// Whether the store holds a group of this path.
    pub open spec fn has_path(&self, path: Seq<char>) -> bool {
        self.index().contains_key(path)
    }

    /// A store stays well formed when one of its records changes and keeps
    /// its path.
    pub proof fn lemma_update_keeps_wf(before: DbusStore, after: DbusStore, id: u64)
        requires
            before.wf(),
            before.entries().contains_key(id),
            after.index() == before.index(),
            after.generations() == before.generations(),
            after.issued() == before.issued(),
            after.uses() == before.uses(),
            after.entries().contains_key(id),
            after.entries() == before.entries().insert(id, after.entries()[id]),
            after.entries()[id].spec_path() == before.entries()[id].spec_path(),
        ensures
            after.wf(),
    {
        assert(after.entries().dom() =~= before.entries().dom());
        assert forall|other: u64| #[trigger] after.entries().contains_key(other) implies after.index().contains_key(
            after.entries()[other].spec_path(),
        ) && after.index()[after.entries()[other].spec_path()] == other by {
            assert(before.entries().contains_key(other));
        }
        assert forall|path: Seq<char>| #[trigger] after.index().contains_key(path) implies after.entries().contains_key(
            after.index()[path],
        ) && after.entries()[after.index()[path]].spec_path() == path by {
            assert(before.index().contains_key(path));
            assert(before.entries().contains_key(before.index()[path]));
        }
    }

    /// In a well-formed store the index and the records agree: there are as
    /// many entries as records, and the index leads from a path to an
    /// identifier exactly where the record of the identifier has that path.
    pub proof fn lemma_index_agrees(self, path: Seq<char>, id: u64)
        requires
            self.wf(),
        ensures
            self.index().len() == self.entries().len(),
            self.index().contains_key(path) && self.index()[path] == id
                <==> self.entries().contains_key(id) && self.entries()[id].spec_path() == path,
    {
    }

    /// An empty store.
    pub fn new() -> (r: Self)
        ensures
            r.wf(),
            r.entries() == Map::<u64, GroupInfo>::empty(),
            r.issued() == Set::<u64>::empty(),
            r.uses() == 0,
    {
        let r = DbusStore {
            path_to_handle: StringHashMap::new(),
            map: group_map_new(),
            issued: Ghost(Set::empty()),
            uses: Ghost(0),
        };
        assert(r.index() =~= Map::empty());
        r
    }

    /// The number of groups.
    pub fn len(&self) -> (n: usize)
        ensures
            n == self.entries().len(),
    {
        group_map_len(&self.map)
    }

    /// Takes a group into the store and returns its identifier, which no
    /// group of the store has. A group whose path the store knows already is
    /// refused, and so is any group once the store is full; the store then
    /// stays as it is.
    pub fn insert(&mut self, el: GroupInfo) -> (r: Option<GroupId>)
        requires
            old(self).wf(),
        ensures
            final(self).wf(),
            r is None <==> old(self).has_path(el.spec_path()) || old(self).entries().len()
                >= STORE_LIMIT,
            match r {
                Some(id) => {
                    &&& old(self).uses() <= REUSE_LIMIT ==> !old(self).issued().contains(id.0)
                    &&& final(self).issued() == old(self).issued().insert(id.0)
                    &&& final(self).uses() == old(self).uses() + 1
                    &&& !old(self).entries().contains_key(id.0)
                    &&& final(self).entries() == old(self).entries().insert(id.0, el)
                    &&& final(self).index() == old(self).index().insert(el.spec_path(), id.0)
                },
                None => {
                    &&& final(self).entries() == old(self).entries()
                    &&& final(self).index() == old(self).index()
                    &&& final(self).issued() == old(self).issued()
                    &&& final(self).uses() == old(self).uses()
                },
            },
    {
        if self.path_to_handle.contains_key(el.path().as_str()) || group_map_len(&self.map)
            >= STORE_LIMIT {
            return None;
        }
        let path = el.path().clone();
        let id = group_map_insert(&mut self.map, el);
        self.path_to_handle.insert(path, id);
        self.issued = Ghost(self.issued@.insert(id));
        self.uses = Ghost(self.uses@ + 1);
        proof {
            lemma_history_inserted(
                old(self).generations(),
                self.generations(),
                old(self).issued(),
                old(self).uses(),
                id,
            );
            let old_e = old(self).entries();
            let old_i = old(self).index();
            let key = el.spec_path();
            assert(self.entries().dom() =~= old_e.dom().insert(id));
            assert(self.index().dom() =~= old_i.dom().insert(key));
            assert forall|other: u64| #[trigger] self.entries().contains_key(other) implies self.index().contains_key(
                self.entries()[other].spec_path(),
            ) && self.index()[self.entries()[other].spec_path()] == other by {
                if other != id {
                    assert(old_e.contains_key(other));
                    assert(old_e[other].spec_path() != key);
                }
            }
            assert forall|k: Seq<char>| #[trigger] self.index().contains_key(k) implies self.entries().contains_key(
                self.index()[k],
            ) && self.entries()[self.index()[k]].spec_path() == k by {
                if k != key {
                    assert(old_i.contains_key(k));
                    assert(old_e.contains_key(old_i[k]));
                }
            }
        }
        Some(GroupId(id))
    }

    /// The record of a group, if the store holds one under the identifier.
    pub fn get(&self, id: GroupId) -> (r: Option<&GroupInfo>)
        ensures
            r is Some <==> self.entries().contains_key(id.0),
            r matches Some(group) ==> *group == self.entries()[id.0],
    {
        group_map_get(&self.map, id.0)
    }

    /// The record of a group for change, if the store holds one under the
    /// identifier. The store is well formed afterwards as long as the path of
    /// the group is left as it is.
    pub fn get_mut(&mut self, id: GroupId) -> (r: Option<&mut GroupInfo>)
        ensures
            r is Some <==> old(self).entries().contains_key(id.0),
            r matches Some(group) ==> *group == old(self).entries()[id.0] && final(self).entries()
                == old(self).entries().insert(id.0, *final(group)),
            r is None ==> final(self).entries() == old(self).entries(),
            final(self).index() == old(self).index(),
            final(self).generations() == old(self).generations(),
            final(self).issued() == old(self).issued(),
            final(self).uses() == old(self).uses(),
    {
        group_map_get_mut(&mut self.map, id.0)
    }

    /// The identifier of the group of a path, if the store holds one.
    pub fn id_by_path(&self, path: &String) -> (r: Option<GroupId>)
        requires
            self.wf(),
        ensures
            r is Some <==> self.has_path(path@),
            r matches Some(id) ==> {
                &&& self.entries().contains_key(id.0)
                &&& self.entries()[id.0].spec_path() == path@
                &&& self.index()[path@] == id.0
            },
    {
        match self.path_to_handle.get(path.as_str()) {
            Some(id) => {
                assert(self.index().contains_key(path@));
                Some(GroupId(*id))
            },
            None => None,
        }
    }

    /// The record of the group of a path, if the store holds one.
    pub fn get_by_path(&self, path: &String) -> (r: Option<&GroupInfo>)
        requires
            self.wf(),
        ensures
            r is Some <==> self.has_path(path@),
            r matches Some(group) ==> group.spec_path() == path@ && *group
                == self.entries()[self.index()[path@]],
    {
        match self.id_by_path(path) {
            Some(id) => self.get(id),
            None => None,
        }
    }

    /// Takes a group out of the store, if the store holds one under the
    /// identifier. The identifier finds nothing from then on.
    pub fn remove(&mut self, id: GroupId) -> (r: Option<GroupInfo>)
        requires
            old(self).wf(),
        ensures
            final(self).wf(),
            r is Some <==> old(self).entries().contains_key(id.0),
            r matches Some(group) ==> group == old(self).entries()[id.0] && final(self).index()
                == old(self).index().remove(group.spec_path()),
            r is None ==> final(self).index() == old(self).index(),
            final(self).entries() == old(self).entries().remove(id.0),
            final(self).issued() == old(self).issued(),
            final(self).uses() == old(self).uses() + (if r is Some {
                1nat
            } else {
                0nat
            }),
    {
        let removed = group_map_remove(&mut self.map, id.0);
        match &removed {
            Some(group) => {
                self.path_to_handle.remove(group.path().as_str());
                self.uses = Ghost(self.uses@ + 1);
                proof {
                    lemma_history_removed(
                        old(self).generations(),
                        self.generations(),
                        old(self).issued(),
                        old(self).uses(),
                        spec_handle_slot(id.0),
                    );
                    let old_e = old(self).entries();
                    let old_i = old(self).index();
                    let key = group.spec_path();
                    assert(old_e.contains_key(id.0));
                    assert(old_i.contains_key(key) && old_i[key] == id.0);
                    assert(self.entries().dom() =~= old_e.dom().remove(id.0));
                    assert(self.index().dom() =~= old_i.dom().remove(key));
                    assert forall|other: u64| #[trigger]
                        self.entries().contains_key(other) implies self.index().contains_key(
                        self.entries()[other].spec_path(),
                    ) && self.index()[self.entries()[other].spec_path()] == other by {
                        assert(old_e.contains_key(other));
                        assert(old_i[old_e[other].spec_path()] == other);
                    }
                    assert forall|k: Seq<char>| #[trigger]
                        self.index().contains_key(k) implies self.entries().contains_key(
                        self.index()[k],
                    ) && self.entries()[self.index()[k]].spec_path() == k by {
                        assert(old_i.contains_key(k));
                        assert(old_e.contains_key(old_i[k]));
                    }
                }
            },
            None => {
                proof {
                    assert(self.entries() =~= old(self).entries());
                }
            },
        }
        removed
    }

    /// Drops all groups.
    pub fn clear(&mut self)
        requires
            old(self).wf(),
        ensures
            final(self).wf(),
            final(self).entries() == Map::<u64, GroupInfo>::empty(),
            final(self).issued() == old(self).issued(),
            final(self).uses() == old(self).uses() + 1,
    {
        self.path_to_handle.clear();
        group_map_clear(&mut self.map);
        self.uses = Ghost(self.uses@ + 1);
        proof {
            lemma_history_cleared(
                old(self).generations(),
                self.generations(),
                old(self).issued(),
                old(self).uses(),
            );
        }
        assert(self.index() =~= Map::empty());
    }

    /// The identifiers of all groups, each once, in no particular order.
    pub fn ids(&self) -> (r: Vec<u64>)
        ensures
            r@.no_duplicates(),
            r@.to_set() == self.entries().dom(),
    {
        group_map_handles(&self.map)
    }
}

impl Default for DbusStore {
    fn default() -> (r: Self)
        ensures
            r.wf(),
            r.entries() == Map::<u64, GroupInfo>::empty(),
    {
        Self::new()
    }
}

} // verus!
