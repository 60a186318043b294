//! The session engine: the peers and groups of a session, and what each
//! event of the radio and each control message makes of them.
//!
//! The engine does no input or output. It is handed the events in the order
//! in which they arrive, changes its stores, and hands back the
//! notifications for the listener and the commands for the radio.

use crate::error::Error;
use crate::ids::{GroupId, PeerId};
use crate::protocol::identity::{LogicalPeerIdentity, OwnIdentity};
use crate::protocol::key_exchange::{ExchangeStatus, KeyExchange, MaybeInvalidPublicKey};
use crate::protocol::{
    peer_to_socket_addr, spec_matches, spec_peer_to_socket_addr, ControlMessage, GroupData,
    GroupInfo, IpAddr, P2pPorts, PeerAddress, PeerGroupInfo, PeerIdentity, PeerInfo,
    PeerOwnIdentifier, PhysiscalPeerIdentity, SocketAddr, GO_CONTROL_PORT,
};
use crate::store::{
    lemma_mac_key_injective, mac_key, spec_mac_key, DbusStore, PeerStore, REUSE_LIMIT,
    STORE_LIMIT,
};
use crate::utils::{
    mac_addr_to_local_link_address, parse_mac_addr, spec_parse_mac_addr, MacAddr,
};
use vstd::string::StringExecFns;
use std::collections::{HashMap, HashSet};
use vstd::prelude::*;

verus! {

broadcast use vstd::std_specs::hash::group_hash_axioms;

/// What the listener of a session is told.
#[derive(Clone, Copy, Debug, PartialEq, Eq, Structural)]
pub enum Notification {
    /// The radio has found a peer.
    PeerDiscovered(PeerId),
    /// The radio has lost a peer.
    PeerLost(PeerId),
    /// The radio has stopped looking for peers.
    PeerDiscoveryStopped,
    /// This session is in a group now; the flag tells whether it owns it.
    JoinedGroup(GroupId, bool),
    /// This session is in a group no more; the flag tells whether it owned
    /// it.
    LeftGroup(GroupId, bool),
    /// A peer is in a group no more.
    PeerLeftGroup(GroupId, PeerId),
}

/// The peers and groups refer to each other consistently: every member of a
/// group is a peer that lists the group, every group that a peer lists is a
/// group that has the peer as a member, and no peer lists a group twice.
pub open spec fn spec_linked(peers: Map<u64, PeerInfo>, groups: Map<u64, GroupInfo>) -> bool {
    &&& forall|g: u64, p: u64|
        groups.contains_key(g) && #[trigger] groups[g].peers@.contains_key(p) ==> peers.contains_key(
            p,
        ) && peers[p].groups@.contains(GroupId(g))
    &&& forall|p: u64, i: int|
        peers.contains_key(p) && 0 <= i < peers[p].groups@.len() ==> groups.contains_key(
            (#[trigger] peers[p].groups@[i]).0,
        ) && groups[peers[p].groups@[i].0].peers@.contains_key(p)
    &&& forall|p: u64| #[trigger] peers.contains_key(p) ==> peers[p].groups@.no_duplicates()
}

/// Whether two records of a peer are the same but for the groups.
pub open spec fn spec_same_peer(a: PeerInfo, b: PeerInfo) -> bool {
    a.identity == b.identity && a.key_exchange == b.key_exchange && a.data == b.data
}

/// Whether two records of a group are the same but for the members.
pub open spec fn spec_same_group(a: GroupInfo, b: GroupInfo) -> bool {
    a.go_ip_address == b.go_ip_address && a.iface_name == b.iface_name && a.scope_id == b.scope_id
        && a.is_go == b.is_go && a.data == b.data
}

/// A list of groups without one of them. No group is listed twice.
pub open spec fn spec_without(groups: Seq<GroupId>, g: GroupId) -> Seq<GroupId> {
    if groups.contains(g) {
        groups.remove(groups.index_of(g))
    } else {
        groups
    }
}

proof fn lemma_without(groups: Seq<GroupId>, g: GroupId)
    requires
        groups.no_duplicates(),
    ensures
        spec_without(groups, g).no_duplicates(),
        !spec_without(groups, g).contains(g),
        forall|x: GroupId| x != g ==> (spec_without(groups, g).contains(x) <==> groups.contains(x)),
        groups.len() > 0 && groups[0] == g ==> spec_without(groups, g) == groups.subrange(
            1,
            groups.len() as int,
        ),
{
    let w = spec_without(groups, g);
    if groups.contains(g) {
        let at = groups.index_of(g);
        assert forall|x: GroupId| x != g implies (w.contains(x) <==> groups.contains(x)) by {
            if groups.contains(x) {
                let j = groups.index_of(x);
                let k = if j < at {
                    j
                } else {
                    j - 1
                };
                assert(w[k] == x);
            }
        }
    }
}

/// Takes a group off a list of groups.
fn remove_group(groups: &mut Vec<GroupId>, g: GroupId) -> (removed: bool)
    requires
        old(groups)@.no_duplicates(),
    ensures
        removed == old(groups)@.contains(g),
        final(groups)@ == spec_without(old(groups)@, g),
{
    let mut i: usize = 0;
    while i < groups.len()
        invariant
            i <= groups@.len(),
            groups@ == old(groups)@,
            groups@.no_duplicates(),
            forall|j: int| 0 <= j < i ==> groups@[j] != g,
        decreases groups@.len() - i,
    {
        if groups[i].0 == g.0 {
            groups.remove(i);
            return true;
        }
        i = i + 1;
    }
    false
}

/// Whether a list of groups holds a group.
fn has_group(groups: &Vec<GroupId>, g: GroupId) -> (r: bool)
    ensures
        r == groups@.contains(g),
{
    let mut i: usize = 0;
    while i < groups.len()
        invariant
            i <= groups@.len(),
            forall|j: int| 0 <= j < i ==> groups@[j] != g,
        decreases groups@.len() - i,
    {
        if groups[i].0 == g.0 {
            return true;
        }
        i = i + 1;
    }
    false
}

/// A copy of a list of groups.
fn copy_groups(groups: &Vec<GroupId>) -> (r: Vec<GroupId>)
    ensures
        r@ == groups@,
{
    let mut out: Vec<GroupId> = Vec::new();
    let mut i: usize = 0;
    while i < groups.len()
        invariant
            i <= groups@.len(),
            out@ == groups@.subrange(0, i as int),
        decreases groups@.len() - i,
    {
        out.push(groups[i]);
        i = i + 1;
    }
    out
}

/// Why an association is refused.
#[derive(Clone, Copy, Debug, PartialEq, Eq, Structural)]
pub enum AssociateRejection {
    /// No peer that the radio has found is the one that the message reports.
    UnknownPeer,
    /// The peer is bound to another logical identity already.
    LogicalIdentityMismatch,
    /// The peer is in the group already.
    AlreadyInGroup,
    /// The group is not known, or not known any more.
    UnknownGroup,
    /// The key exchange with the peer has finished before, or fails now.
    KeyExchange,
}

/// A control message and where to send it.
#[derive(Debug)]
pub struct Reply {
    pub to: SocketAddr,
    pub message: ControlMessage,
}

/// What an Associate message came to.
#[derive(Debug)]
pub enum Associated {
    /// The peer is in the group now. Where this session owns the group, it
    /// answers with an Associate message of its own.
    Joined { peer: PeerId, reply: Option<Reply> },
    /// The message is dropped.
    Rejected(AssociateRejection),
}

/// The method by which this library pairs with peers and lets them in:
/// push-button configuration.
pub const WPS_METHOD: &'static str = "pbc";

/// What the radio is asked to do. Pairing is by [`WPS_METHOD`] throughout.
#[allow(inconsistent_fields)]
#[derive(Debug)]
pub enum RadioCommand {
    /// Tell the radio which interface to use (none for the first that knows
    /// Wi-Fi Direct), the name under which the device is advertised, and our
    /// group owner intent.
    Configure { interface_name: Option<String>, device_name: String, go_intent: u32 },
    /// Look for peers.
    Find,
    /// Connect to a peer by push-button configuration.
    Connect {
        /// The path under which the platform knows the peer.
        peer_path: String,
        /// The device address of the peer, where it is known.
        dev_addr: Option<MacAddr>,
        /// Our group owner intent.
        go_intent: u32,
        /// Whether to join a group that the peer owns already.
        auto_join: bool,
    },
    /// Let a device in by push-button configuration, as registrar, on the
    /// interface of a group that this session owns.
    AuthorizeWps {
        /// The path under which the platform knows the interface.
        iface_path: String,
        /// The device address of the peer that asks to be let in.
        dev_addr: MacAddr,
    },
}

/// How the radio tells where the owner of a group is.
#[derive(Debug, Clone, Copy)]
pub enum GroupOwnerAddress {
    /// The IP address of the owner.
    Ip(IpAddr),
    /// The hardware address of the owner's interface in the group, from
    /// which its link-local address follows.
    InterfaceMac(MacAddr),
}

/// What the radio tells of a group that has started.
#[derive(Debug)]
pub struct GroupStarted {
    /// The path under which the platform knows the group.
    pub path: String,
    /// The path under which the platform knows the group's interface.
    pub iface_path: String,
    /// Name of the interface.
    pub iface_name: String,
    /// Scope id of the interface.
    pub scope_id: u32,
    /// Whether we're the group owner.
    pub is_go: bool,
    /// Where the owner of the group is.
    pub go_address: GroupOwnerAddress,
    /// Device address of the group owner, where the platform tells it.
    pub go_dev_addr: Option<MacAddr>,
}

/// The IP address of the owner of a group: the one the radio told, or the
/// link-local address of the owner's interface.
pub open spec fn spec_go_ip(address: GroupOwnerAddress, ip: IpAddr) -> bool {
    match address {
        GroupOwnerAddress::Ip(a) => ip == a,
        GroupOwnerAddress::InterfaceMac(m) => ip matches IpAddr::V6(a) && a@
            == crate::utils::spec_link_local(crate::utils::spec_to_eui64(m)),
    }
}

/// What the radio tells the engine.
#[derive(Debug)]
pub enum RadioEvent {
    /// A device was found, known to the platform under a path.
    DeviceFound { identity: PhysiscalPeerIdentity, path: String },
    /// The devices that are seen now; every other device is lost.
    DevicesUpdated(Vec<PhysiscalPeerIdentity>),
    /// The device of a path was lost.
    DeviceLost { path: String },
    /// The search for peers has stopped.
    FindStopped,
    /// A group has started.
    GroupStarted(GroupStarted),
    /// The group of a path has finished.
    GroupFinished { path: String },
    /// The peer of a path has left a group that this session owns.
    PeerLeftGroup { group: GroupId, peer_path: String },
    /// The negotiation with the peer of a path over who owns the group has
    /// failed.
    GoNegotiationFailure { peer_path: String },
    /// The peer of a path asks for a negotiation over who owns the group.
    GoNegotiationRequest { peer_path: String },
    /// The peer of a path asks to be let in by push-button configuration.
    ProvisionDiscoveryPbcRequest { peer_path: String },
    /// Any other signal of the platform. None of them drives the engine.
    Other,
}

/// What the engine answers an event with.
#[derive(Debug)]
pub struct Reaction {
    /// What the listener is told, in this order.
    pub notifications: Vec<Notification>,
    /// What the radio is asked to do, in this order.
    pub commands: Vec<RadioCommand>,
}

/// Whether a list of devices holds one of the given hardware address.
pub open spec fn spec_listed(identities: Seq<PhysiscalPeerIdentity>, addr: MacAddr) -> bool {
    exists|i: int| 0 <= i < identities.len() && (#[trigger] identities[i]).dev_addr == addr
}

/// The hardware addresses of a list of devices, each as the number under
/// which the peer store knows it.
fn listed_addresses(identities: &Vec<PhysiscalPeerIdentity>) -> (seen: HashSet<u128>)
    ensures
        forall|addr: MacAddr| #[trigger]
            seen@.contains(spec_mac_key(addr)) <==> spec_listed(identities@, addr),
{
    let mut seen: HashSet<u128> = HashSet::new();
    let mut n: usize = 0;
    while n < identities.len()
        invariant
            n <= identities@.len(),
            forall|key: u128| #[trigger]
                seen@.contains(key) <==> exists|j: int|
                    0 <= j < n && spec_mac_key((#[trigger] identities@[j]).dev_addr) == key,
        decreases identities@.len() - n,
    {
        let ghost seen0 = seen@;
        let key = mac_key(&identities[n].dev_addr);
        seen.insert(key);
        proof {
            assert forall|k: u128| #[trigger] seen@.contains(k) <==> exists|j: int|
                0 <= j < n + 1 && spec_mac_key((#[trigger] identities@[j]).dev_addr) == k by {
                if seen0.contains(k) {
                    let j = choose|j: int|
                        0 <= j < n && spec_mac_key((#[trigger] identities@[j]).dev_addr) == k;
                    assert(spec_mac_key(identities@[j].dev_addr) == k);
                }
                if k == key {
                    assert(spec_mac_key(identities@[n as int].dev_addr) == k);
                }
            }
        }
        n = n + 1;
    }
    proof {
        assert forall|addr: MacAddr| #[trigger]
            seen@.contains(spec_mac_key(addr)) <==> spec_listed(identities@, addr) by {
            if seen@.contains(spec_mac_key(addr)) {
                let j = choose|j: int|
                    0 <= j < identities@.len() && spec_mac_key(
                        (#[trigger] identities@[j]).dev_addr,
                    ) == spec_mac_key(addr);
                lemma_mac_key_injective(identities@[j].dev_addr, addr);
            }
            if spec_listed(identities@, addr) {
                let j = choose|j: int|
                    0 <= j < identities@.len() && (#[trigger] identities@[j]).dev_addr == addr;
                assert(spec_mac_key(identities@[j].dev_addr) == spec_mac_key(addr));
            }
        }
    }
    seen
}

/// What a session is made of.
pub struct SessionInit {
    /// The interface name to use, or `None` to use the first available
    /// interface.
    pub interface_name: Option<String>,
    /// The device name we're advertised as.
    pub device_name: String,
    /// The identity we use to communicate with other peers.
    pub identity: OwnIdentity,
    /// Our group owner intent, from 0 to 15.
    pub go_intent: u32,
}

impl SessionInit {
    /// The command that configures the radio for this session.
    pub fn configure(&self) -> (r: RadioCommand)
        ensures
            r matches RadioCommand::Configure { interface_name, device_name, go_intent }
                && device_name@ == self.device_name@ && go_intent == self.go_intent && match (
                interface_name,
                self.interface_name,
            ) {
                (Some(told), Some(wanted)) => told@ == wanted@,
                (None, None) => true,
                _ => false,
            },
    {
        RadioCommand::Configure {
            interface_name: match &self.interface_name {
                Some(name) => Some(name.clone()),
                None => None,
            },
            device_name: self.device_name.clone(),
            go_intent: self.go_intent,
        }
    }
}

/// Whether the capabilities that the radio reports hold Wi-Fi Direct, without
/// which no session can be had.
pub fn has_p2p_support(capabilities: &Vec<String>) -> (r: bool)
    ensures
        r == exists|i: int| 0 <= i < capabilities@.len() && (#[trigger] capabilities@[i])@ == "p2p"@,
{
    let wanted = String::from_str("p2p");
    let mut i: usize = 0;
    while i < capabilities.len()
        invariant
            i <= capabilities@.len(),
            wanted@ == "p2p"@,
            forall|j: int| 0 <= j < i ==> (#[trigger] capabilities@[j])@ != "p2p"@,
        decreases capabilities@.len() - i,
    {
        if capabilities[i] == wanted {
            return true;
        }
        i = i + 1;
    }
    false
}

/// What a list of texts that tells of devices, a name and an address in
/// turn, makes of devices, if it makes any: an odd number of texts makes none,
/// and neither does a list with a text that is no address in the place of
/// one.
pub open spec fn spec_devices_told(details: Seq<String>, devices: Seq<PhysiscalPeerIdentity>) -> bool {
    &&& details.len() == 2 * devices.len()
    &&& forall|i: int|
        0 <= i < devices.len() ==> (#[trigger] devices[i]).name@ == details[2 * i]@ && Some(
            devices[i].dev_addr,
        ) == spec_parse_mac_addr(details[2 * i + 1]@)
}

/// Turns the list of texts in which a platform tells of the devices it sees,
/// a name and an address in turn, into the devices.
pub fn devices_from_details(details: &Vec<String>) -> (r: Option<Vec<PhysiscalPeerIdentity>>)
    ensures
        match r {
            Some(devices) => spec_devices_told(details@, devices@),
            None => details@.len() % 2 == 1 || exists|i: int|
                0 <= i && 2 * i + 1 < details@.len() && spec_parse_mac_addr(
                    (#[trigger] details@[2 * i + 1])@,
                ) is None,
        },
{
    if details.len() % 2 != 0 {
        return None;
    }
    let mut out: Vec<PhysiscalPeerIdentity> = Vec::new();
    let mut i: usize = 0;
    while i < details.len() / 2
        invariant
            details@.len() % 2 == 0,
            i <= details@.len() / 2,
            out@.len() == i,
            forall|k: int|
                0 <= k < i ==> (#[trigger] out@[k]).name@ == details@[2 * k]@ && Some(
                    out@[k].dev_addr,
                ) == spec_parse_mac_addr(details@[2 * k + 1]@),
        decreases details@.len() / 2 - i,
    {
        let name = details[2 * i].clone();
        match parse_mac_addr(details[2 * i + 1].as_str()) {
            Some(dev_addr) => {
                out.push(PhysiscalPeerIdentity { name, dev_addr });
            },
            None => {
                return None;
            },
        }
        i = i + 1;
    }
    Some(out)
}

/// Global state for a P2P session.
pub struct Session {
    pub peers: PeerStore,
    pub groups: DbusStore,
    /// Our own logical identity.
    pub identity: OwnIdentity,
    /// Our own P2P identifier.
    pub own_phy_id: PeerOwnIdentifier,
    /// Our group owner intent.
    pub go_intent: u32,
}

impl Session {
    /// The session is well formed: both stores are, and the peers and groups
    /// refer to each other consistently.
    pub open spec fn wf(&self) -> bool {
        &&& self.peers.wf()
        &&& self.groups.wf()
        &&& spec_linked(self.peers.entries(), self.groups.entries())
    }

    /// A session with no peers and no groups. The name of the device is what
    /// the session reports of itself when it associates.
    pub fn new(init: SessionInit) -> (r: Self)
        ensures
            r.wf(),
            r.peers.entries() == Map::<u64, PeerInfo>::empty(),
            r.groups.entries() == Map::<u64, GroupInfo>::empty(),
            r.identity == init.identity,
            r.go_intent == init.go_intent,
            r.own_phy_id@ == crate::protocol::PeerOwnIdentifierView::Name(init.device_name@),
    {
        Session {
            peers: PeerStore::new(),
            groups: DbusStore::new(),
            identity: init.identity,
            own_phy_id: PeerOwnIdentifier::Name(init.device_name),
            go_intent: init.go_intent,
        }
    }

    /// Our own identity.
    pub fn own_identity(&self) -> (r: &OwnIdentity)
        ensures
            *r == self.identity,
    {
        &self.identity
    }

    /// Drops all groups and all peers, as stopping the session does.
    pub fn clear(&mut self)
        requires
            old(self).wf(),
        ensures
            final(self).wf(),
            final(self).peers.entries() == Map::<u64, PeerInfo>::empty(),
            final(self).groups.entries() == Map::<u64, GroupInfo>::empty(),
            final(self).identity == old(self).identity,
            final(self).own_phy_id == old(self).own_phy_id,
            final(self).go_intent == old(self).go_intent,
    {
        self.groups.clear();
        self.peers.clear();
    }

    /// What taking a peer out of a group makes of a session: the group has
    /// the peer as a member no more, the peer lists the group no more, and
    /// everything else is as it was.
    pub open spec fn spec_unlinked(before: Session, after: Session, g: u64, p: u64) -> bool {
        let peers0 = before.peers.entries();
        let peers1 = after.peers.entries();
        let groups0 = before.groups.entries();
        let groups1 = after.groups.entries();
        &&& after.identity == before.identity
        &&& after.own_phy_id == before.own_phy_id
        &&& after.go_intent == before.go_intent
        &&& peers1.dom() == peers0.dom()
        &&& groups1.dom() == groups0.dom()
        &&& forall|q: u64| q != p && #[trigger] peers0.contains_key(q) ==> peers1[q] == peers0[q]
        &&& forall|h: u64| h != g && #[trigger] groups0.contains_key(h) ==> groups1[h] == groups0[h]
        &&& peers0.contains_key(p) ==> spec_same_peer(peers0[p], peers1[p]) && peers1[p].groups@
            == spec_without(peers0[p].groups@, GroupId(g))
        &&& groups0.contains_key(g) ==> spec_same_group(groups0[g], groups1[g])
            && groups1[g].peers@ == groups0[g].peers@.remove(p)
    }

    /// Takes a peer out of a group, on both sides.
    pub fn unlink(&mut self, group_id: GroupId, peer_id: PeerId)
        requires
            old(self).wf(),
        ensures
            final(self).wf(),
            Self::spec_unlinked(*old(self), *final(self), group_id.0, peer_id.0),
    {
        let p = peer_id.0;
        let ghost peers0 = self.peers.entries();
        let ghost groups0 = self.groups.entries();
        match self.groups.get_mut(group_id) {
            Some(group) => {
                group.peers.remove(&p);
            },
            None => {},
        }
        let ghost groups1 = self.groups.entries();
        proof {
            assert(groups1.dom() =~= groups0.dom());
        }
        match self.peers.get_mut(peer_id) {
            Some(peer) => {
                remove_group(&mut peer.groups, group_id);
            },
            None => {},
        }
        let ghost peers1 = self.peers.entries();
        proof {
            if peers0.contains_key(p) {
                lemma_without(peers0[p].groups@, group_id);
            }
            assert(peers1.dom() =~= peers0.dom());
        }
    }

    /// Whether the platform knows a peer of the session under a path. No
    /// peer is known under the empty path, which stands for a platform
    /// without paths.
    pub open spec fn spec_path_known(self, path: Seq<char>) -> bool {
        path.len() > 0 && exists|p: u64| #[trigger]
            self.peers.entries().contains_key(p) && self.peers.entries()[p].data@ == path
    }

    /// What a device that the radio has found makes of a session. A device
    /// whose hardware address or path is known already changes nothing, and
    /// neither does any device once the peer store is full. Any other device
    /// becomes a new peer, in no group and with no logical identity, of which
    /// the listener is told. As long as the peer store has not been changed
    /// too often, the identifier of the new peer is none that any peer had
    /// before, lost ones included.
    pub open spec fn spec_device_found(
        before: Session,
        after: Session,
        identity: PhysiscalPeerIdentity,
        path: String,
        notes: Seq<Notification>,
    ) -> bool {
        let peers0 = before.peers.entries();
        let peers1 = after.peers.entries();
        &&& after.groups == before.groups
        &&& after.identity == before.identity
        &&& after.own_phy_id == before.own_phy_id
        &&& after.go_intent == before.go_intent
        &&& if before.peers.has_mac(identity.dev_addr) || before.spec_path_known(path@)
            || peers0.len() >= STORE_LIMIT {
            notes.len() == 0 && peers1 == peers0
        } else {
            &&& notes.len() == 1
            &&& notes[0] matches Notification::PeerDiscovered(id)
            &&& !peers0.contains_key(id.0)
            &&& before.peers.uses() <= REUSE_LIMIT ==> !before.peers.issued().contains(id.0)
            &&& after.peers.issued() == before.peers.issued().insert(id.0)
            &&& peers1 == peers0.insert(id.0, peers1[id.0])
            &&& peers1[id.0].identity == (PeerIdentity { physical: identity, logical: None })
            &&& peers1[id.0].groups@.len() == 0
            &&& peers1[id.0].data == path
        }
    }

    /// Takes note of a device that the radio has found, see
    /// [`Self::spec_device_found`]. The new peer gets the given key
    /// exchange.
    pub fn device_found(
        &mut self,
        identity: PhysiscalPeerIdentity,
        path: String,
        key_exchange: KeyExchange,
    ) -> (r: Vec<Notification>)
        requires
            old(self).wf(),
        ensures
            final(self).wf(),
            Self::spec_device_found(*old(self), *final(self), identity, path, r@),
            r@.len() == 1 ==> (r@[0] matches Notification::PeerDiscovered(id) && final(
                self
            ).peers.entries()[id.0].key_exchange == key_exchange),
    {
        let mut out: Vec<Notification> = Vec::new();
        if !path.as_str().is_empty() && self.peer_id_by_path(&path).is_some() {
            return out;
        }
        let peer = PeerInfo {
            identity: PeerIdentity { physical: identity, logical: None },
            groups: Vec::new(),
            key_exchange,
            data: path,
        };
        match self.peers.insert(peer) {
            Some(id) => {
                out.push(Notification::PeerDiscovered(id));
            },
            None => {},
        }
        out
    }

    /// What a group that has started makes of a session. A group whose path
    /// is known already changes nothing, and neither does any group once the
    /// group store is full. Any other group becomes a new group without
    /// members, and the listener is told that the session has joined it.
    pub open spec fn spec_group_started(
        before: Session,
        after: Session,
        started: GroupStarted,
        notes: Seq<Notification>,
    ) -> bool {
        let groups0 = before.groups.entries();
        let groups1 = after.groups.entries();
        &&& after.peers == before.peers
        &&& after.identity == before.identity
        &&& after.own_phy_id == before.own_phy_id
        &&& after.go_intent == before.go_intent
        &&& if before.groups.has_path(started.path@) || groups0.len() >= STORE_LIMIT {
            notes.len() == 0 && groups1 == groups0
        } else {
            &&& notes.len() == 1
            &&& notes[0] matches Notification::JoinedGroup(id, is_go)
            &&& is_go == started.is_go
            &&& !groups0.contains_key(id.0)
            &&& before.groups.uses() <= REUSE_LIMIT ==> !before.groups.issued().contains(id.0)
            &&& after.groups.issued() == before.groups.issued().insert(id.0)
            &&& groups1 == groups0.insert(id.0, groups1[id.0])
            &&& Self::spec_fresh_group(groups1[id.0], started)
        }
    }

    /// Takes note of a group that has started, see
    /// [`Self::spec_group_started`].
    pub fn group_started(&mut self, started: GroupStarted) -> (r: Vec<Notification>)
        requires
            old(self).wf(),
        ensures
            final(self).wf(),
            Self::spec_group_started(*old(self), *final(self), started, r@),
    {
        let mut out: Vec<Notification> = Vec::new();
        let is_go = started.is_go;
        let go_ip_address = match started.go_address {
            GroupOwnerAddress::Ip(a) => a,
            GroupOwnerAddress::InterfaceMac(m) => IpAddr::V6(mac_addr_to_local_link_address(&m)),
        };
        let group = GroupInfo {
            go_ip_address,
            iface_name: started.iface_name,
            scope_id: started.scope_id,
            is_go,
            peers: HashMap::new(),
            data: GroupData {
                path: started.path,
                iface_path: started.iface_path,
                go_dev_addr: started.go_dev_addr,
            },
        };
        match self.groups.insert(group) {
            Some(id) => {
                out.push(Notification::JoinedGroup(id, is_go));
            },
            None => {},
        }
        out
    }

    /// Whether a record is that of a group that has just started: it holds
    /// what the radio told, and it has no members.
    pub open spec fn spec_fresh_group(group: GroupInfo, started: GroupStarted) -> bool {
        &&& spec_go_ip(started.go_address, group.go_ip_address)
        &&& group.iface_name == started.iface_name
        &&& group.scope_id == started.scope_id
        &&& group.is_go == started.is_go
        &&& group.peers@ == Map::<u64, PeerGroupInfo>::empty()
        &&& group.data.path == started.path
        &&& group.data.iface_path == started.iface_path
        &&& group.data.go_dev_addr == started.go_dev_addr
    }

    /// What the loss of a peer makes of a session. A peer that is not known
    /// changes nothing. A known peer is taken out of every group that it was
    /// in, and out of the peer store; the listener is told that the peer has
    /// left each of its groups, in the order in which the peer listed them,
    /// and then that the peer is lost.
    pub open spec fn spec_device_lost(
        before: Session,
        after: Session,
        p: u64,
        notes: Seq<Notification>,
    ) -> bool {
        let peers0 = before.peers.entries();
        let groups0 = before.groups.entries();
        let groups1 = after.groups.entries();
        &&& after.identity == before.identity
        &&& after.own_phy_id == before.own_phy_id
        &&& after.go_intent == before.go_intent
        &&& after.peers.entries() == peers0.remove(p)
        &&& groups1.dom() == groups0.dom()
        &&& forall|g: u64| #[trigger]
            groups0.contains_key(g) ==> spec_same_group(groups0[g], groups1[g]) && groups1[g].peers@
                == groups0[g].peers@.remove(p)
        &&& if peers0.contains_key(p) {
            notes == Self::spec_lost_peer_notes(peers0, p)
        } else {
            notes.len() == 0
        }
    }

    /// Takes note of the loss of a peer, see [`Self::spec_device_lost`].
    pub fn device_lost(&mut self, peer_id: PeerId) -> (r: Vec<Notification>)
        requires
            old(self).wf(),
        ensures
            final(self).wf(),
            Self::spec_device_lost(*old(self), *final(self), peer_id.0, r@),
    {
        let p = peer_id.0;
        let ghost peers0 = self.peers.entries();
        let ghost groups0 = self.groups.entries();
        let mut out: Vec<Notification> = Vec::new();
        let gs = match self.peers.get(peer_id) {
            Some(peer) => copy_groups(&peer.groups),
            None => {
                proof {
                    assert(peers0.remove(p) =~= peers0);
                    assert forall|g: u64| #[trigger] groups0.contains_key(g) implies groups0[g].peers@
                        == groups0[g].peers@.remove(p) by {}
                }
                return out;
            },
        };
        let mut i: usize = 0;
        while i < gs.len()
            invariant
                self.wf(),
                i <= gs@.len(),
                p == peer_id.0,
                peers0.contains_key(p),
                gs@ == peers0[p].groups@,
                gs@.no_duplicates(),
                self.identity == old(self).identity,
                self.own_phy_id == old(self).own_phy_id,
                self.go_intent == old(self).go_intent,
                self.peers.entries().dom() == peers0.dom(),
                forall|q: u64|
                    q != p && #[trigger] peers0.contains_key(q) ==> self.peers.entries()[q]
                        == peers0[q],
                spec_same_peer(peers0[p], self.peers.entries()[p]),
                self.peers.entries()[p].groups@ == gs@.subrange(i as int, gs@.len() as int),
                self.groups.entries().dom() == groups0.dom(),
                forall|g: u64| #[trigger]
                    groups0.contains_key(g) ==> spec_same_group(
                        groups0[g],
                        self.groups.entries()[g],
                    ) && self.groups.entries()[g].peers@ == (if gs@.subrange(0, i as int).contains(
                        GroupId(g),
                    ) {
                        groups0[g].peers@.remove(p)
                    } else {
                        groups0[g].peers@
                    }),
                out@ == Seq::new(i as nat, |k: int| Notification::PeerLeftGroup(gs@[k], PeerId(p))),
            decreases gs@.len() - i,
        {
            let group_id = gs[i];
            self.unlink(group_id, peer_id);
            out.push(Notification::PeerLeftGroup(group_id, peer_id));
            proof {
                let groups_c = self.groups.entries();
                let done = gs@.subrange(0, i as int);
                let done1 = gs@.subrange(0, i + 1);
                let rest = gs@.subrange(i as int, gs@.len() as int);
                assert(rest[0] == group_id);
                assert forall|g: u64| #[trigger] groups0.contains_key(g) implies spec_same_group(
                    groups0[g],
                    groups_c[g],
                ) && groups_c[g].peers@ == (if done1.contains(GroupId(g)) {
                    groups0[g].peers@.remove(p)
                } else {
                    groups0[g].peers@
                }) by {
                    if g == group_id.0 {
                        assert(done1[i as int] == group_id);
                    } else {
                        if done.contains(GroupId(g)) {
                            let j = done.index_of(GroupId(g));
                            assert(done1[j] == GroupId(g));
                        }
                    }
                }
            }
            i = i + 1;
        }
        self.peers.remove(peer_id);
        out.push(Notification::PeerLost(peer_id));
        proof {
            let groups_c = self.groups.entries();
            let peers_c = self.peers.entries();
            assert(peers_c =~= peers0.remove(p));
            assert forall|g: u64| #[trigger] groups0.contains_key(g) implies groups_c[g].peers@
                == groups0[g].peers@.remove(p) by {}
            let want = Seq::new(
                gs@.len() + 1,
                |k: int|
                    if k < gs@.len() {
                        Notification::PeerLeftGroup(gs@[k], PeerId(p))
                    } else {
                        Notification::PeerLost(PeerId(p))
                    },
            );
            assert(out@ =~= want);
        }
        out
    }

    /// What the end of a group makes of a session. A group that is not known
    /// changes nothing. A known group is taken off the list of each of its
    /// members and out of the group store; the listener is told once for
    /// each member that it has left the group, and then that the session has
    /// left the group.
    pub open spec fn spec_group_finished(
        before: Session,
        after: Session,
        g: u64,
        notes: Seq<Notification>,
    ) -> bool {
        let peers0 = before.peers.entries();
        let peers1 = after.peers.entries();
        let groups0 = before.groups.entries();
        &&& after.identity == before.identity
        &&& after.own_phy_id == before.own_phy_id
        &&& after.go_intent == before.go_intent
        &&& after.groups.entries() == groups0.remove(g)
        &&& peers1.dom() == peers0.dom()
        &&& forall|q: u64| #[trigger]
            peers0.contains_key(q) ==> spec_same_peer(peers0[q], peers1[q]) && peers1[q].groups@
                == spec_without(peers0[q].groups@, GroupId(g))
        &&& if groups0.contains_key(g) {
            let left = notes.drop_last();
            &&& notes.len() >= 1
            &&& notes.last() == Notification::LeftGroup(GroupId(g), groups0[g].is_go)
            &&& left.no_duplicates()
            &&& forall|k: int|
                0 <= k < left.len() ==> (#[trigger] left[k] matches Notification::PeerLeftGroup(h, q)
                    && h == GroupId(g) && groups0[g].peers@.contains_key(q.0))
            &&& forall|q: u64| #[trigger]
                groups0[g].peers@.contains_key(q) ==> left.contains(
                    Notification::PeerLeftGroup(GroupId(g), PeerId(q)),
                )
        } else {
            notes.len() == 0
        }
    }

    /// Takes note of the end of a group, see [`Self::spec_group_finished`].
    pub fn group_finished(&mut self, group_id: GroupId) -> (r: Vec<Notification>)
        requires
            old(self).wf(),
        ensures
            final(self).wf(),
            Self::spec_group_finished(*old(self), *final(self), group_id.0, r@),
    {
        let g = group_id.0;
        let ghost peers0 = self.peers.entries();
        let ghost groups0 = self.groups.entries();
        let mut out: Vec<Notification> = Vec::new();
        let is_go = match self.groups.get(group_id) {
            Some(group) => group.is_go,
            None => {
                proof {
                    assert(groups0.remove(g) =~= groups0);
                }
                return out;
            },
        };
        let ids = self.peers.ids();
        let mut i: usize = 0;
        while i < ids.len()
            invariant
                self.wf(),
                g == group_id.0,
                i <= ids@.len(),
                ids@.no_duplicates(),
                ids@.to_set() == peers0.dom(),
                groups0.contains_key(g),
                self.identity == old(self).identity,
                self.own_phy_id == old(self).own_phy_id,
                self.go_intent == old(self).go_intent,
                self.peers.entries().dom() == peers0.dom(),
                forall|q: u64| #[trigger]
                    peers0.contains_key(q) ==> spec_same_peer(peers0[q], self.peers.entries()[q])
                        && self.peers.entries()[q].groups@ == (if ids@.subrange(
                        0,
                        i as int,
                    ).contains(q) {
                        spec_without(peers0[q].groups@, GroupId(g))
                    } else {
                        peers0[q].groups@
                    }),
                self.groups.entries().dom() == groups0.dom(),
                forall|h: u64|
                    h != g && #[trigger] groups0.contains_key(h) ==> self.groups.entries()[h]
                        == groups0[h],
                spec_same_group(groups0[g], self.groups.entries()[g]),
                forall|q: u64|
                    !ids@.subrange(0, i as int).contains(q) ==> (
                    #[trigger] self.groups.entries()[g].peers@.contains_key(q)
                        <==> groups0[g].peers@.contains_key(q)),
                out@.no_duplicates(),
                forall|k: int|
                    0 <= k < out@.len() ==> (#[trigger] out@[k] matches Notification::PeerLeftGroup(
                        h,
                        q,
                    ) && h == GroupId(g) && groups0[g].peers@.contains_key(q.0) && ids@.subrange(
                        0,
                        i as int,
                    ).contains(q.0)),
                forall|j: int|
                    0 <= j < i && groups0[g].peers@.contains_key(#[trigger] ids@[j])
                        ==> out@.contains(Notification::PeerLeftGroup(GroupId(g), PeerId(ids@[j]))),
            decreases ids@.len() - i,
        {
            let ghost out0 = out@;
            let q = ids[i];
            let member = match self.groups.get(group_id) {
                Some(group) => group.peers.contains_key(&q),
                None => false,
            };
            self.unlink(group_id, PeerId(q));
            if member {
                out.push(Notification::PeerLeftGroup(group_id, PeerId(q)));
            }
            proof {
                let done = ids@.subrange(0, i as int);
                let done1 = ids@.subrange(0, i + 1);
                assert forall|x: u64| done1.contains(x) <==> (done.contains(x) || x == q) by {
                    if done.contains(x) {
                        let j = done.index_of(x);
                        assert(done1[j] == x);
                    }
                    if done1.contains(x) {
                        assert(done1[done1.index_of(x)] == x);
                    }
                    assert(done1[i as int] == q);
                }
                assert forall|j: int|
                    0 <= j < i + 1 && groups0[g].peers@.contains_key(
                        #[trigger] ids@[j],
                    ) implies out@.contains(
                    Notification::PeerLeftGroup(GroupId(g), PeerId(ids@[j])),
                ) by {
                    let want = Notification::PeerLeftGroup(GroupId(g), PeerId(ids@[j]));
                    if j < i {
                        let k = out0.index_of(want);
                        assert(out@[k] == want);
                    } else {
                        assert(out@[out0.len() as int] == want);
                    }
                }
            }
            i = i + 1;
        }
        let ghost left = out@;
        self.groups.remove(group_id);
        out.push(Notification::LeftGroup(group_id, is_go));
        proof {
            let groups_c = self.groups.entries();
            assert(groups_c =~= groups0.remove(g));
            assert(out@.drop_last() =~= left);
        }
        out
    }

    /// What a peer that has left a group which this session owns makes of
    /// the session. Where both the group and the peer are known, the peer is
    /// taken out of the group and the listener is told; the peer stays in
    /// the peer store. Else nothing changes.
    pub open spec fn spec_peer_left_group(
        before: Session,
        after: Session,
        group: GroupId,
        p: u64,
        notes: Seq<Notification>,
    ) -> bool {
        if before.peers.entries().contains_key(p) && before.groups.entries().contains_key(group.0) {
            notes == seq![Notification::PeerLeftGroup(group, PeerId(p))] && Self::spec_unlinked(
                before,
                after,
                group.0,
                p,
            )
        } else {
            notes.len() == 0 && after == before
        }
    }

    /// Takes note of a peer that has left a group which this session owns,
    /// see [`Self::spec_peer_left_group`].
    pub fn peer_left_group(&mut self, group_id: GroupId, peer_id: PeerId) -> (r: Vec<Notification>)
        requires
            old(self).wf(),
        ensures
            final(self).wf(),
            Self::spec_peer_left_group(*old(self), *final(self), group_id, peer_id.0, r@),
    {
        let mut out: Vec<Notification> = Vec::new();
        if self.peers.get(peer_id).is_none() || self.groups.get(group_id).is_none() {
            return out;
        }
        self.unlink(group_id, peer_id);
        out.push(Notification::PeerLeftGroup(group_id, peer_id));
        out
    }

    /// The peer that the platform knows under a path, if there is one.
    pub fn peer_id_by_path(&self, path: &String) -> (r: Option<PeerId>)
        ensures
            match r {
                Some(id) => self.peers.entries().contains_key(id.0) && self.peers.entries()[id.0].data@
                    == path@,
                None => forall|p: u64| #[trigger]
                    self.peers.entries().contains_key(p) ==> self.peers.entries()[p].data@ != path@,
            },
    {
        let ids = self.peers.ids();
        let mut i: usize = 0;
        while i < ids.len()
            invariant
                i <= ids@.len(),
                ids@.to_set() == self.peers.entries().dom(),
                forall|j: int|
                    0 <= j < i ==> self.peers.entries()[#[trigger] ids@[j]].data@ != path@,
            decreases ids@.len() - i,
        {
            match self.peers.get(PeerId(ids[i])) {
                Some(peer) => {
                    if peer.data == *path {
                        return Some(PeerId(ids[i]));
                    }
                },
                None => {},
            }
            i = i + 1;
        }
        None
    }

    /// A peer that is the one an identifier reports, if there is one.
    pub fn find_peer(&self, own_id: &PeerOwnIdentifier) -> (r: Option<PeerId>)
        ensures
            match r {
                Some(id) => self.peers.entries().contains_key(id.0) && spec_matches(
                    self.peers.entries()[id.0].identity.physical@,
                    own_id@,
                ),
                None => forall|p: u64| #[trigger]
                    self.peers.entries().contains_key(p) ==> !spec_matches(
                        self.peers.entries()[p].identity.physical@,
                        own_id@,
                    ),
            },
    {
        let ids = self.peers.ids();
        let mut i: usize = 0;
        while i < ids.len()
            invariant
                i <= ids@.len(),
                ids@.to_set() == self.peers.entries().dom(),
                forall|j: int|
                    0 <= j < i ==> !spec_matches(
                        self.peers.entries()[#[trigger] ids@[j]].identity.physical@,
                        own_id@,
                    ),
            decreases ids@.len() - i,
        {
            match self.peers.get(PeerId(ids[i])) {
                Some(peer) => {
                    if peer.identity.physical.matches(own_id) {
                        return Some(PeerId(ids[i]));
                    }
                },
                None => {},
            }
            i = i + 1;
        }
        None
    }

    /// Why an Associate message of a peer for a group is dropped before
    /// anything is changed, if it is: the reasons are looked at in this
    /// order.
    pub open spec fn spec_refusal(
        before: Session,
        g: u64,
        p: u64,
        logical_id: LogicalPeerIdentity,
    ) -> Option<AssociateRejection> {
        let peers0 = before.peers.entries();
        let groups0 = before.groups.entries();
        if !peers0.contains_key(p) {
            Some(AssociateRejection::UnknownPeer)
        } else if peers0[p].identity.logical is Some && peers0[p].identity.logical.unwrap()@
            != logical_id@ {
            Some(AssociateRejection::LogicalIdentityMismatch)
        } else if peers0[p].groups@.contains(GroupId(g)) {
            Some(AssociateRejection::AlreadyInGroup)
        } else if !groups0.contains_key(g) {
            Some(AssociateRejection::UnknownGroup)
        } else if peers0[p].key_exchange.spec_status() != ExchangeStatus::InProgress {
            Some(AssociateRejection::KeyExchange)
        } else {
            None
        }
    }

    /// What an Associate message of a peer for a group makes of a session.
    ///
    /// A message that is refused for one of the reasons of
    /// [`Self::spec_refusal`] changes nothing. Else the key exchange with the
    /// peer is finished with the key of the message. Where that key is
    /// refused the message is dropped, and of the session only the key
    /// exchange has changed, which has failed for good. Where the private key
    /// of the exchange and the key of the message agree on a secret, the peer
    /// has the keys of that secret from then on, is
    /// bound to the logical identity of the message, lists the group as its
    /// last, and is a member of the group at the address that the message
    /// came from and with the ports that it tells; where this session owns
    /// the group, it answers to the control port of the peer with its own
    /// identities, ports and the public key of its side of the exchange.
    pub open spec fn spec_associated(
        before: Session,
        after: Session,
        g: u64,
        p: u64,
        source: IpAddr,
        logical_id: LogicalPeerIdentity,
        key: Seq<u8>,
        ports: P2pPorts,
        own_ports: P2pPorts,
        result: Associated,
    ) -> bool {
        let peers0 = before.peers.entries();
        let peers1 = after.peers.entries();
        let groups0 = before.groups.entries();
        let groups1 = after.groups.entries();
        &&& after.identity == before.identity
        &&& after.own_phy_id == before.own_phy_id
        &&& after.go_intent == before.go_intent
        &&& match Self::spec_refusal(before, g, p, logical_id) {
            Some(why) => result == Associated::Rejected(why) && peers1 == peers0 && groups1
                == groups0,
            None => match result {
                Associated::Rejected(why) => {
                    &&& peers0[p].key_exchange.spec_agreed(key) is None
                    &&& why == AssociateRejection::KeyExchange
                    &&& groups1 == groups0
                    &&& peers1 == peers0.insert(p, peers1[p])
                    &&& peers1[p].identity == peers0[p].identity
                    &&& peers1[p].groups == peers0[p].groups
                    &&& peers1[p].data == peers0[p].data
                    &&& peers1[p].key_exchange.spec_status() == ExchangeStatus::Errored
                    &&& peers1[p].key_exchange.spec_public_key()
                        == peers0[p].key_exchange.spec_public_key()
                },
                Associated::Joined { peer, reply } => {
                    &&& peer == PeerId(p)
                    &&& peers0[p].key_exchange.spec_agreed(key) matches Some(secret)
                    &&& peers1[p].key_exchange.spec_keys() matches Some(keys)
                    &&& keys.spec_key() == secret
                    &&& keys.spec_sealed() == 0
                    &&& keys.spec_opened() == 0
                    &&& peers1 == peers0.insert(p, peers1[p])
                    &&& peers1[p].identity.physical == peers0[p].identity.physical
                    &&& peers1[p].identity.logical == Some(logical_id)
                    &&& peers1[p].groups@ == peers0[p].groups@.push(GroupId(g))
                    &&& peers1[p].data == peers0[p].data
                    &&& peers1[p].key_exchange.spec_status() == ExchangeStatus::Completed
                    &&& peers1[p].key_exchange.spec_public_key()
                        == peers0[p].key_exchange.spec_public_key()
                    &&& groups1 == groups0.insert(g, groups1[g])
                    &&& spec_same_group(groups0[g], groups1[g])
                    &&& groups1[g].peers@ == groups0[g].peers@.insert(
                        p,
                        PeerGroupInfo { address: PeerAddress { address: source, ports } },
                    )
                    &&& if groups0[g].is_go {
                        &&& reply matches Some(r)
                        &&& r.to == spec_peer_to_socket_addr(source, groups0[g].scope_id, ports.control)
                        &&& r.message matches ControlMessage::Associate {
                            physical_id,
                            logical_id: own_logical,
                            key_exchange_public_key,
                            ports: told,
                        }
                        &&& physical_id@ == before.own_phy_id@
                        &&& own_logical@.nickname == before.identity.nickname@
                        &&& own_logical@.key == before.identity.key_pair.spec_public_key()
                        &&& key_exchange_public_key.0@ == peers0[p].key_exchange.spec_public_key()
                        &&& told == own_ports
                    } else {
                        reply is None
                    }
                },
            },
        }
    }

    /// Applies an Associate message to the peer that it is about, see
    /// [`Self::spec_associated`].
    pub fn associate_peer(
        &mut self,
        group_id: GroupId,
        peer_id: PeerId,
        source: IpAddr,
        logical_id: LogicalPeerIdentity,
        key_exchange_public_key: MaybeInvalidPublicKey,
        ports: P2pPorts,
        own_ports: P2pPorts,
    ) -> (r: Associated)
        requires
            old(self).wf(),
        ensures
            final(self).wf(),
            Self::spec_associated(
                *old(self),
                *final(self),
                group_id.0,
                peer_id.0,
                source,
                logical_id,
                key_exchange_public_key.0@,
                ports,
                own_ports,
                r,
            ),
    {
        let g = group_id.0;
        let p = peer_id.0;
        let ghost peers0 = self.peers.entries();
        let ghost groups0 = self.groups.entries();
        match self.peers.get(peer_id) {
            None => {
                return Associated::Rejected(AssociateRejection::UnknownPeer);
            },
            Some(peer) => {
                match &peer.identity.logical {
                    Some(bound) => {
                        if !bound.same(&logical_id) {
                            return Associated::Rejected(
                                AssociateRejection::LogicalIdentityMismatch,
                            );
                        }
                    },
                    None => {},
                }
                if has_group(&peer.groups, group_id) {
                    return Associated::Rejected(AssociateRejection::AlreadyInGroup);
                }
            },
        }
        let (is_go, scope_id) = match self.groups.get(group_id) {
            None => {
                return Associated::Rejected(AssociateRejection::UnknownGroup);
            },
            Some(group) => (group.is_go, group.scope_id),
        };
        let mut own_key: Option<MaybeInvalidPublicKey> = None;
        match self.peers.get_mut(peer_id) {
            Some(peer) => {
                if matches!(peer.key_exchange.status(), ExchangeStatus::InProgress) {
                    match peer.key_exchange.finish(&key_exchange_public_key) {
                        Ok(()) => {
                            peer.groups.push(group_id);
                            peer.identity.logical = Some(logical_id);
                            own_key = Some(peer.key_exchange.export_public_key());
                        },
                        Err(_) => {},
                    }
                }
            },
            None => {},
        }
        let own_key = match own_key {
            Some(k) => k,
            None => {
                proof {
                    let peers1 = self.peers.entries();
                    if peers0[p].key_exchange.spec_status() != ExchangeStatus::InProgress {
                        assert(peers1 =~= peers0);
                    }
                }
                return Associated::Rejected(AssociateRejection::KeyExchange);
            },
        };
        match self.groups.get_mut(group_id) {
            Some(group) => {
                group.peers.insert(
                    p,
                    PeerGroupInfo { address: PeerAddress { address: source, ports } },
                );
            },
            None => {},
        }
        proof {
            Self::lemma_join_keeps_linked(
                peers0,
                groups0,
                self.peers.entries(),
                self.groups.entries(),
                g,
                p,
            );
        }
        let reply = if is_go {
            Some(
                Reply {
                    to: peer_to_socket_addr(source, scope_id, ports.control),
                    message: ControlMessage::Associate {
                        physical_id: self.own_phy_id.duplicate(),
                        logical_id: self.identity.to_public(),
                        key_exchange_public_key: own_key,
                        ports: own_ports,
                    },
                },
            )
        } else {
            None
        };
        Associated::Joined { peer: peer_id, reply }
    }

    proof fn lemma_join_keeps_linked(
        peers0: Map<u64, PeerInfo>,
        groups0: Map<u64, GroupInfo>,
        peers1: Map<u64, PeerInfo>,
        groups1: Map<u64, GroupInfo>,
        g: u64,
        p: u64,
    )
        requires
            spec_linked(peers0, groups0),
            peers0.contains_key(p),
            groups0.contains_key(g),
            !peers0[p].groups@.contains(GroupId(g)),
            peers1 == peers0.insert(p, peers1[p]),
            peers1[p].groups@ == peers0[p].groups@.push(GroupId(g)),
            groups1 == groups0.insert(g, groups1[g]),
            exists|info: PeerGroupInfo| groups1[g].peers@ == groups0[g].peers@.insert(p, info),
        ensures
            spec_linked(peers1, groups1),
    {
        let old_list = peers0[p].groups@;
        let new_list = peers1[p].groups@;
        assert forall|h: u64, q: u64|
            groups1.contains_key(h) && #[trigger] groups1[h].peers@.contains_key(
                q,
            ) implies peers1.contains_key(q) && peers1[q].groups@.contains(GroupId(h)) by {
            if h == g && q == p {
                assert(new_list[old_list.len() as int] == GroupId(g));
            } else {
                if q == p {
                    let j = old_list.index_of(GroupId(h));
                    assert(new_list[j] == GroupId(h));
                }
            }
        }
    }

    /// Applies an Associate message that came from an address to a group:
    /// looks for a peer that the message reports and goes on as
    /// [`Self::associate_peer`] does. Where there is no such peer, the
    /// message is dropped and nothing changes.
    pub fn associate(
        &mut self,
        group_id: GroupId,
        source: IpAddr,
        message: ControlMessage,
        own_ports: P2pPorts,
    ) -> (r: Associated)
        requires
            old(self).wf(),
        ensures
            final(self).wf(),
            message matches ControlMessage::Associate {
                physical_id,
                logical_id,
                key_exchange_public_key,
                ports,
            } && if forall|p: u64| #[trigger]
                old(self).peers.entries().contains_key(p) ==> !spec_matches(
                    old(self).peers.entries()[p].identity.physical@,
                    physical_id@,
                ) {
                r == Associated::Rejected(AssociateRejection::UnknownPeer) && *final(self) == *old(self)
            } else {
                exists|p: u64| #[trigger]
                    old(self).peers.entries().contains_key(p) && spec_matches(
                        old(self).peers.entries()[p].identity.physical@,
                        physical_id@,
                    ) && Self::spec_associated(
                        *old(self),
                        *final(self),
                        group_id.0,
                        p,
                        source,
                        logical_id,
                        key_exchange_public_key.0@,
                        ports,
                        own_ports,
                        r,
                    )
            },
    {
        match message {
            ControlMessage::Associate { physical_id, logical_id, key_exchange_public_key, ports } => {
                match self.find_peer(&physical_id) {
                    None => Associated::Rejected(AssociateRejection::UnknownPeer),
                    Some(peer_id) => {
                        self.associate_peer(
                            group_id,
                            peer_id,
                            source,
                            logical_id,
                            key_exchange_public_key,
                            ports,
                            own_ports,
                        )
                    },
                }
            },
        }
    }

    /// A snapshot of the identity of a peer, if the peer is known.
    pub fn peer_identity(&self, id: PeerId) -> (r: Option<PeerIdentity>)
        ensures
            r is Some <==> self.peers.entries().contains_key(id.0),
            r matches Some(identity) ==> identity@ == self.peers.entries()[id.0].identity@,
    {
        match self.peers.get(id) {
            Some(peer) => Some(peer.identity.duplicate()),
            None => None,
        }
    }

    /// A snapshot of the identities of all peers, each peer once.
    pub fn all_peers(&self) -> (r: Vec<(PeerId, PeerIdentity)>)
        ensures
            forall|i: int|
                0 <= i < r@.len() ==> self.peers.entries().contains_key((#[trigger] r@[i]).0.0)
                    && r@[i].1@ == self.peers.entries()[r@[i].0.0].identity@,
            forall|i: int, j: int| 0 <= i < j < r@.len() ==> r@[i].0 != r@[j].0,
            forall|p: u64| #[trigger]
                self.peers.entries().contains_key(p) ==> exists|i: int|
                    0 <= i < r@.len() && (#[trigger] r@[i]).0 == PeerId(p),
    {
        let ids = self.peers.ids();
        let mut out: Vec<(PeerId, PeerIdentity)> = Vec::new();
        let mut i: usize = 0;
        while i < ids.len()
            invariant
                i <= ids@.len(),
                out@.len() == i,
                ids@.no_duplicates(),
                ids@.to_set() == self.peers.entries().dom(),
                forall|k: int|
                    0 <= k < i ==> (#[trigger] out@[k]).0 == PeerId(ids@[k])
                        && self.peers.entries().contains_key(ids@[k]) && out@[k].1@
                        == self.peers.entries()[ids@[k]].identity@,
            decreases ids@.len() - i,
        {
            match self.peer_identity(PeerId(ids[i])) {
                Some(identity) => {
                    out.push((PeerId(ids[i]), identity));
                },
                None => {},
            }
            i = i + 1;
        }
        proof {
            assert forall|p: u64| #[trigger] self.peers.entries().contains_key(p) implies exists|
                k: int,
            |
                0 <= k < out@.len() && (#[trigger] out@[k]).0 == PeerId(p) by {
                let j = ids@.index_of(p);
                assert(out@[j].0 == PeerId(p));
            }
        }
        out
    }

    /// Where the data port of a peer is, for a message to the peer. The
    /// first of the peer's groups is taken. The peer has to be known
    /// (`Error::PeerLost`), to be in a group (`Error::NoGroup`) that is known
    /// (`Error::GroupNotFound`), and to have an address there
    /// (`Error::NoAddress`).
    pub fn peer_data_address(&self, id: PeerId) -> (r: Result<SocketAddr, Error>)
        ensures
            r == Self::spec_peer_data_address(*self, id.0),
    {
        let peer = match self.peers.get(id) {
            Some(peer) => peer,
            None => {
                return Err(Error::PeerLost);
            },
        };
        if peer.groups.len() == 0 {
            return Err(Error::NoGroup);
        }
        let group = match self.groups.get(peer.groups[0]) {
            Some(group) => group,
            None => {
                return Err(Error::GroupNotFound);
            },
        };
        match group.peers.get(&id.0) {
            Some(info) => Ok(
                peer_to_socket_addr(info.address.address, group.scope_id, info.address.ports.p2p),
            ),
            None => Err(Error::NoAddress),
        }
    }

    /// Where the data port of a peer is, see [`Self::peer_data_address`].
    pub open spec fn spec_peer_data_address(session: Session, p: u64) -> Result<SocketAddr, Error> {
        let peers = session.peers.entries();
        let groups = session.groups.entries();
        if !peers.contains_key(p) {
            Err(Error::PeerLost)
        } else if peers[p].groups@.len() == 0 {
            Err(Error::NoGroup)
        } else if !groups.contains_key(peers[p].groups@[0].0) {
            Err(Error::GroupNotFound)
        } else {
            let group = groups[peers[p].groups@[0].0];
            if !group.peers@.contains_key(p) {
                Err(Error::NoAddress)
            } else {
                Ok(
                    spec_peer_to_socket_addr(
                        group.peers@[p].address.address,
                        group.scope_id,
                        group.peers@[p].address.ports.p2p,
                    ),
                )
            }
        }
    }

    /// The member of a group that has the given address, if there is one.
    pub fn peer_id_from_address(&self, group_id: GroupId, address: &IpAddr) -> (r: Option<PeerId>)
        requires
            self.wf(),
        ensures
            match r {
                Some(id) => self.groups.entries().contains_key(group_id.0)
                    && self.groups.entries()[group_id.0].peers@.contains_key(id.0)
                    && self.groups.entries()[group_id.0].peers@[id.0].address.address == *address,
                None => self.groups.entries().contains_key(group_id.0) ==> forall|p: u64| #[trigger]
                    self.groups.entries()[group_id.0].peers@.contains_key(p)
                        ==> self.groups.entries()[group_id.0].peers@[p].address.address != *address,
            },
    {
        let group = match self.groups.get(group_id) {
            Some(group) => group,
            None => {
                return None;
            },
        };
        let ids = self.peers.ids();
        let mut i: usize = 0;
        while i < ids.len()
            invariant
                i <= ids@.len(),
                self.wf(),
                ids@.to_set() == self.peers.entries().dom(),
                self.groups.entries().contains_key(group_id.0),
                *group == self.groups.entries()[group_id.0],
                forall|j: int|
                    0 <= j < i && group.peers@.contains_key(#[trigger] ids@[j])
                        ==> group.peers@[ids@[j]].address.address != *address,
            decreases ids@.len() - i,
        {
            match group.peers.get(&ids[i]) {
                Some(info) => {
                    if info.address.address.same(address) {
                        return Some(PeerId(ids[i]));
                    }
                },
                None => {},
            }
            i = i + 1;
        }
        None
    }

    /// The peer that a data connection from an address in a group comes
    /// from, with the logical identity that its messages are verified
    /// against. There is none where the group is not known, where no member
    /// of the group has the address, and where the member that has it is
    /// bound to no logical identity.
    pub fn sender_of(&self, group_id: GroupId, address: &IpAddr) -> (r: Option<
        (PeerId, LogicalPeerIdentity),
    >)
        requires
            self.wf(),
        ensures
            match r {
                Some((id, logical)) => {
                    &&& self.groups.entries().contains_key(group_id.0)
                    &&& self.groups.entries()[group_id.0].peers@.contains_key(id.0)
                    &&& self.groups.entries()[group_id.0].peers@[id.0].address.address == *address
                    &&& self.peers.entries()[id.0].identity.logical matches Some(bound)
                    &&& logical@ == bound@
                },
                None => self.groups.entries().contains_key(group_id.0) ==> (forall|p: u64|
                 #[trigger]
                    self.groups.entries()[group_id.0].peers@.contains_key(p)
                        ==> self.groups.entries()[group_id.0].peers@[p].address.address != *address)
                    || (exists|p: u64| #[trigger]
                    self.groups.entries()[group_id.0].peers@.contains_key(p)
                        && self.groups.entries()[group_id.0].peers@[p].address.address == *address
                        && self.peers.entries()[p].identity.logical is None),
            },
    {
        let id = match self.peer_id_from_address(group_id, address) {
            Some(id) => id,
            None => {
                return None;
            },
        };
        match self.peers.get(id) {
            Some(peer) => match &peer.identity.logical {
                Some(logical) => Some((id, logical.duplicate())),
                None => None,
            },
            None => None,
        }
    }

    /// The peer of a hardware address that the platform tells as text, if
    /// the text is an address and the peer is known.
    pub fn peer_id_by_mac_text(&self, text: &str) -> (r: Option<PeerId>)
        requires
            self.wf(),
        ensures
            match spec_parse_mac_addr(text@) {
                Some(addr) => r is Some <==> self.peers.has_mac(addr),
                None => r is None,
            },
            r matches Some(id) ==> self.peers.entries().contains_key(id.0) && Some(
                self.peers.entries()[id.0].identity.physical.dev_addr,
            ) == spec_parse_mac_addr(text@),
    {
        match parse_mac_addr(text) {
            Some(addr) => self.peers.id_by_mac(&addr),
            None => None,
        }
    }

    /// The command that starts the search for peers.
    pub fn discover_peers(&self) -> (r: RadioCommand)
        ensures
            r is Find,
    {
        RadioCommand::Find
    }

    /// The command that connects to a peer by its path: by push-button
    /// configuration, with our group owner intent, and joining a group that
    /// the peer owns already. This is also the answer to a negotiation that
    /// a peer asks for, and to one that has failed.
    pub fn connect_to_peer_by_path(&self, peer_path: String) -> (r: RadioCommand)
        ensures
            r matches RadioCommand::Connect { peer_path: path, dev_addr, go_intent, auto_join }
                && path == peer_path && dev_addr is None && go_intent == self.go_intent
                && auto_join,
    {
        RadioCommand::Connect {
            peer_path,
            dev_addr: None,
            go_intent: self.go_intent,
            auto_join: true,
        }
    }

    /// The command that connects to a peer, or `Error::PeerLost` where the
    /// peer is not known.
    pub fn connect_to_peer(&self, id: PeerId) -> (r: Result<RadioCommand, Error>)
        ensures
            match r {
                Ok(command) => self.peers.entries().contains_key(id.0) && (
                command matches RadioCommand::Connect { peer_path, dev_addr, go_intent, auto_join }
                    && peer_path@ == self.peers.entries()[id.0].data@ && dev_addr == Some(
                    self.peers.entries()[id.0].identity.physical.dev_addr,
                ) && go_intent == self.go_intent && auto_join),
                Err(e) => e == Error::PeerLost && !self.peers.entries().contains_key(id.0),
            },
    {
        match self.peers.get(id) {
            Some(peer) => Ok(
                RadioCommand::Connect {
                    peer_path: peer.data.clone(),
                    dev_addr: Some(peer.identity.physical.dev_addr),
                    go_intent: self.go_intent,
                    auto_join: true,
                },
            ),
            None => Err(Error::PeerLost),
        }
    }

    /// The ports that the task of a group listens to: the control port, which
    /// is the well-known one where this session owns the group and any free
    /// one (0) else, and the data port, which is any free one. They come with
    /// the scope id of the group's interface. A group that is not known gives
    /// `Error::GroupNotFound`.
    pub fn listen_ports(&self, group_id: GroupId) -> (r: Result<(u16, u16, u32), Error>)
        ensures
            match r {
                Ok((control, data, scope_id)) => self.groups.entries().contains_key(group_id.0)
                    && control == (if self.groups.entries()[group_id.0].is_go {
                    GO_CONTROL_PORT
                } else {
                    0
                }) && data == 0 && scope_id == self.groups.entries()[group_id.0].scope_id,
                Err(e) => e == Error::GroupNotFound && !self.groups.entries().contains_key(
                    group_id.0,
                ),
            },
    {
        match self.groups.get(group_id) {
            Some(group) => Ok(
                (
                    if group.is_go {
                        GO_CONTROL_PORT
                    } else {
                        0
                    },
                    0,
                    group.scope_id,
                ),
            ),
            None => Err(Error::GroupNotFound),
        }
    }

    /// The Associate message with which this session introduces itself to the
    /// owner of a group, and where to send it: to the owner's control port.
    /// The message tells our identities, the ports we listen to, and the
    /// public key of our key exchange with the owner. The owner of a group
    /// sends none. The group has to be known (`Error::GroupNotFound`), and
    /// its owner has to be one of the peers that the radio has found
    /// (`Error::GroupOwnerUnknown`).
    pub fn initial_associate(&self, group_id: GroupId, my_ports: P2pPorts) -> (r: Result<
        Option<Reply>,
        Error,
    >)
        ensures
            !self.groups.entries().contains_key(group_id.0) ==> (r matches Err(e) && e
                == Error::GroupNotFound),
            self.groups.entries().contains_key(group_id.0) ==> ({
                let group = self.groups.entries()[group_id.0];
                if group.is_go {
                    r matches Ok(None)
                } else if group.data.go_dev_addr is None || forall|p: u64| #[trigger]
                    self.peers.entries().contains_key(p)
                        ==> self.peers.entries()[p].identity.physical.dev_addr
                        != group.data.go_dev_addr.unwrap() {
                    r matches Err(e) && e == Error::GroupOwnerUnknown
                } else {
                    &&& r matches Ok(Some(out))
                    &&& out.to == spec_peer_to_socket_addr(
                        group.go_ip_address,
                        group.scope_id,
                        GO_CONTROL_PORT,
                    )
                    &&& out.message matches ControlMessage::Associate {
                        physical_id,
                        logical_id,
                        key_exchange_public_key,
                        ports,
                    }
                    &&& physical_id@ == self.own_phy_id@
                    &&& logical_id@.nickname == self.identity.nickname@
                    &&& logical_id@.key == self.identity.key_pair.spec_public_key()
                    &&& ports == my_ports
                    &&& exists|p: u64| #[trigger]
                        self.peers.entries().contains_key(p)
                            && self.peers.entries()[p].identity.physical.dev_addr
                            == group.data.go_dev_addr.unwrap() && key_exchange_public_key.0@
                            == self.peers.entries()[p].key_exchange.spec_public_key()
                }
            }),
    {
        let group = match self.groups.get(group_id) {
            Some(group) => group,
            None => {
                return Err(Error::GroupNotFound);
            },
        };
        if group.is_go {
            return Ok(None);
        }
        let go_dev_addr = match group.data.go_dev_addr {
            Some(addr) => addr,
            None => {
                return Err(Error::GroupOwnerUnknown);
            },
        };
        let owner = PeerOwnIdentifier::DevAddr(crate::protocol::DecodableMacAddr::from(go_dev_addr));
        proof {
            crate::protocol::lemma_decodable_mac_round_trip(go_dev_addr);
        }
        let key_exchange_public_key = match self.find_peer(&owner) {
            Some(id) => match self.peers.get(id) {
                Some(peer) => peer.key_exchange.export_public_key(),
                None => {
                    return Err(Error::GroupOwnerUnknown);
                },
            },
            None => {
                return Err(Error::GroupOwnerUnknown);
            },
        };
        Ok(
            Some(
                Reply {
                    to: peer_to_socket_addr(group.go_ip_address, group.scope_id, GO_CONTROL_PORT),
                    message: ControlMessage::Associate {
                        physical_id: self.own_phy_id.duplicate(),
                        logical_id: self.identity.to_public(),
                        key_exchange_public_key,
                        ports: my_ports,
                    },
                },
            ),
        )
    }

    /// Whether commands are those that let a peer in on the interfaces of
    /// the given groups: one command for each group, in this order, that
    /// authorizes the address of the peer on the interface of the group. The
    /// peer is known under the path, and the groups are those that this
    /// session owns, each once.
    pub open spec fn spec_authorizes(
        self,
        peer_path: Seq<char>,
        commands: Seq<RadioCommand>,
        p: u64,
        owned: Seq<u64>,
    ) -> bool {
        let peers = self.peers.entries();
        let groups = self.groups.entries();
        &&& peers.contains_key(p)
        &&& peers[p].data@ == peer_path
        &&& owned.no_duplicates()
        &&& forall|g: u64| owned.contains(g) <==> groups.contains_key(g) && groups[g].is_go
        &&& commands.len() == owned.len()
        &&& forall|i: int|
            0 <= i < commands.len() ==> (#[trigger] commands[i] matches RadioCommand::AuthorizeWps {
                iface_path,
                dev_addr,
            } && iface_path@ == groups[owned[i]].data.iface_path@ && dev_addr
                == peers[p].identity.physical.dev_addr)
    }

    /// Whether commands are those that let the peer of a path in: none where
    /// no peer is known under the path; else, for a peer of that path, one
    /// for each group that this session owns, see [`Self::spec_authorizes`].
    pub open spec fn spec_authorized(self, peer_path: Seq<char>, commands: Seq<RadioCommand>) -> bool {
        let peers = self.peers.entries();
        if forall|p: u64| #[trigger] peers.contains_key(p) ==> peers[p].data@ != peer_path {
            commands.len() == 0
        } else {
            exists|p: u64, owned: Seq<u64>| #[trigger]
                self.spec_authorizes(peer_path, commands, p, owned)
        }
    }

    /// The commands that let a peer in which asks for push-button
    /// configuration: one for the interface of each group that this session
    /// owns. A peer that is not known gets none.
    pub fn authorize_wps(&self, peer_path: &String) -> (r: Vec<RadioCommand>)
        ensures
            self.spec_authorized(peer_path@, r@),
    {
        let mut out: Vec<RadioCommand> = Vec::new();
        let (peer, dev_addr) = match self.peer_id_by_path(peer_path) {
            Some(id) => match self.peers.get(id) {
                Some(peer) => (id, peer.identity.physical.dev_addr),
                None => {
                    return out;
                },
            },
            None => {
                return out;
            },
        };
        let ghost mut owned: Seq<u64> = Seq::empty();
        let ids = self.groups.ids();
        let mut i: usize = 0;
        while i < ids.len()
            invariant
                i <= ids@.len(),
                ids@.no_duplicates(),
                ids@.to_set() == self.groups.entries().dom(),
                self.peers.entries().contains_key(peer.0),
                self.peers.entries()[peer.0].data@ == peer_path@,
                self.peers.entries()[peer.0].identity.physical.dev_addr == dev_addr,
                owned.no_duplicates(),
                forall|g: u64|
                    owned.contains(g) <==> ids@.subrange(0, i as int).contains(g)
                        && self.groups.entries()[g].is_go,
                out@.len() == owned.len(),
                forall|k: int|
                    0 <= k < out@.len() ==> (#[trigger] out@[k] matches RadioCommand::AuthorizeWps {
                        iface_path,
                        dev_addr: told,
                    } && iface_path@ == self.groups.entries()[owned[k]].data.iface_path@ && told
                        == dev_addr),
            decreases ids@.len() - i,
        {
            let ghost owned0 = owned;
            let g = ids[i];
            let ghost done = ids@.subrange(0, i as int);
            let ghost done1 = ids@.subrange(0, i + 1);
            proof {
                assert forall|x: u64| done1.contains(x) <==> (done.contains(x) || x == g) by {
                    if done1.contains(x) {
                        assert(done1[done1.index_of(x)] == x);
                    }
                    assert(done1[i as int] == g);
                }
            }
            let is_go = match self.groups.get(GroupId(g)) {
                Some(group) => {
                    if group.is_go {
                        out.push(
                            RadioCommand::AuthorizeWps {
                                iface_path: group.data.iface_path.clone(),
                                dev_addr,
                            },
                        );
                    }
                    group.is_go
                },
                None => false,
            };
            proof {
                if is_go {
                    owned = owned0.push(g);
                    assert forall|a: int, b: int|
                        0 <= a < owned.len() && 0 <= b < owned.len() && a != b implies owned[a]
                        != owned[b] by {
                        if a < owned0.len() && b < owned0.len() {
                        } else if a < owned0.len() {
                            assert(owned0.contains(owned0[a]));
                        } else {
                            assert(owned0.contains(owned0[b]));
                        }
                    }
                    assert forall|x: u64| owned.contains(x) <==> (owned0.contains(x) || x == g) by {
                        if owned0.contains(x) {
                            let j = owned0.index_of(x);
                            assert(owned[j] == x);
                        }
                        if owned.contains(x) {
                            assert(owned[owned.index_of(x)] == x);
                        }
                        assert(owned[owned0.len() as int] == g);
                    }
                }
            }
            i = i + 1;
        }
        proof {
            assert(ids@.subrange(0, ids@.len() as int) =~= ids@);
            assert(self.spec_authorizes(peer_path@, out@, peer.0, owned));
        }
        out
    }

    /// What the listener is told of the loss of one peer: that the peer has
    /// left each of its groups, in the order in which the peer listed them,
    /// and then that the peer is lost.
    pub open spec fn spec_lost_peer_notes(peers: Map<u64, PeerInfo>, p: u64) -> Seq<Notification> {
        let gs = peers[p].groups@;
        Seq::new(
            gs.len() + 1,
            |i: int|
                if i < gs.len() {
                    Notification::PeerLeftGroup(gs[i], PeerId(p))
                } else {
                    Notification::PeerLost(PeerId(p))
                },
        )
    }

    /// What the listener is told of the loss of several peers, one after the
    /// other.
    pub open spec fn spec_lost_notes(peers: Map<u64, PeerInfo>, lost: Seq<u64>) -> Seq<
        Notification,
    >
        decreases lost.len(),
    {
        if lost.len() == 0 {
            Seq::empty()
        } else {
            Self::spec_lost_notes(peers, lost.drop_last()) + Self::spec_lost_peer_notes(
                peers,
                lost.last(),
            )
        }
    }

    /// Whether a record is that of a peer that was made of a device of a
    /// list a moment ago: it has the name and the address of a device of the
    /// list, no logical identity, no groups, no path, and a key exchange that
    /// is in progress.
    pub open spec fn spec_fresh_peer(peer: PeerInfo, identities: Seq<PhysiscalPeerIdentity>) -> bool {
        &&& exists|i: int|
            0 <= i < identities.len() && (#[trigger] identities[i])@ == peer.identity.physical@
        &&& peer.identity.logical is None
        &&& peer.groups@.len() == 0
        &&& peer.data@.len() == 0
        &&& peer.key_exchange.spec_status() == ExchangeStatus::InProgress
        &&& peer.key_exchange.spec_keys() is None
    }

    /// Whether a group is what a list of the devices that the radio sees
    /// makes of it: the same group, with those of its members whose addresses
    /// are on the list, at the addresses they had.
    pub open spec fn spec_group_updated(
        peers0: Map<u64, PeerInfo>,
        identities: Seq<PhysiscalPeerIdentity>,
        group0: GroupInfo,
        group1: GroupInfo,
    ) -> bool {
        &&& spec_same_group(group0, group1)
        &&& forall|q: u64|
            (#[trigger] group1.peers@.contains_key(q)) <==> group0.peers@.contains_key(q)
                && spec_listed(identities, peers0[q].identity.physical.dev_addr)
        &&& forall|q: u64| #[trigger]
            group1.peers@.contains_key(q) ==> group1.peers@[q] == group0.peers@[q]
    }

    /// What the list of the devices that the radio sees now makes of a
    /// session. The peers are those of the old ones that are on the list,
    /// unchanged, and new ones, each made of a device of the list. The
    /// groups are the old ones without the members that are not on the list.
    /// The listener is told of the loss of each peer that is not on the list,
    /// of the groups that such a peer has left, and of peers that are new,
    /// and of nothing else.
    pub open spec fn spec_devices_updated(
        before: Session,
        after: Session,
        identities: Seq<PhysiscalPeerIdentity>,
        notes: Seq<Notification>,
    ) -> bool {
        let peers0 = before.peers.entries();
        let peers1 = after.peers.entries();
        let groups0 = before.groups.entries();
        let groups1 = after.groups.entries();
        &&& after.identity == before.identity
        &&& after.own_phy_id == before.own_phy_id
        &&& after.go_intent == before.go_intent
        &&& groups1.dom() == groups0.dom()
        &&& forall|g: u64| #[trigger]
            groups0.contains_key(g) ==> Self::spec_group_updated(
                peers0,
                identities,
                groups0[g],
                groups1[g],
            )
        &&& forall|p: u64| #[trigger]
            peers1.contains_key(p) ==> (peers0.contains_key(p) && peers1[p] == peers0[p])
                || Self::spec_fresh_peer(peers1[p], identities)
        &&& forall|p: u64| #[trigger]
            peers1.contains_key(p) ==> (peers0.contains_key(p) && spec_listed(
                identities,
                peers0[p].identity.physical.dev_addr,
            ) && peers1[p] == peers0[p]) || notes.contains(Notification::PeerDiscovered(PeerId(p)))
        &&& forall|p: u64| #[trigger]
            peers1.contains_key(p) ==> spec_listed(
                identities,
                peers1[p].identity.physical.dev_addr,
            )
        &&& forall|p: u64| #[trigger]
            peers0.contains_key(p) && spec_listed(identities, peers0[p].identity.physical.dev_addr)
                ==> peers1.contains_key(p) && peers1[p] == peers0[p]
        &&& forall|p: u64| #[trigger]
            peers0.contains_key(p) && !spec_listed(identities, peers0[p].identity.physical.dev_addr)
                ==> notes.contains(Notification::PeerLost(PeerId(p)))
        &&& forall|k: int|
            0 <= k < notes.len() ==> match #[trigger] notes[k] {
                Notification::PeerLost(id) => peers0.contains_key(id.0) && !spec_listed(
                    identities,
                    peers0[id.0].identity.physical.dev_addr,
                ),
                Notification::PeerLeftGroup(g, id) => peers0.contains_key(id.0) && !spec_listed(
                    identities,
                    peers0[id.0].identity.physical.dev_addr,
                ) && peers0[id.0].groups@.contains(g),
                Notification::PeerDiscovered(id) => peers1.contains_key(id.0)
                    && Self::spec_fresh_peer(peers1[id.0], identities),
                _ => false,
            }
        &&& exists|lost: Seq<u64>| #[trigger]
            Self::spec_lost_first(peers0, identities, notes, lost)
    }

    /// Whether a listener is told of the loss of the given peers first, peer
    /// by peer, and then of new peers only, of each once. The peers are the
    /// ones that are not on the list, each once.
    pub open spec fn spec_lost_first(
        peers0: Map<u64, PeerInfo>,
        identities: Seq<PhysiscalPeerIdentity>,
        notes: Seq<Notification>,
        lost: Seq<u64>,
    ) -> bool {
        let told = Self::spec_lost_notes(peers0, lost);
        &&& lost.no_duplicates()
        &&& forall|p: u64|
            lost.contains(p) <==> peers0.contains_key(p) && !spec_listed(
                identities,
                peers0[p].identity.physical.dev_addr,
            )
        &&& told.len() <= notes.len()
        &&& notes.subrange(0, told.len() as int) == told
        &&& forall|k: int| told.len() <= k < notes.len() ==> #[trigger] notes[k] is PeerDiscovered
        &&& forall|j: int, k: int|
            told.len() <= j < k < notes.len() ==> #[trigger] notes[j] != #[trigger] notes[k]
    }

    /// Takes note of the devices that the radio sees now. A peer whose
    /// hardware address is not on the list is lost, as
    /// [`Self::device_lost`] describes. The peers whose addresses are on the
    /// list stay as they are. A device on the list that is no peer yet becomes
    /// one, as [`Self::device_found`] describes, with a fresh key exchange;
    /// where the key exchange cannot be made, or the store is full, the
    /// device is passed over. The listener is told of the lost peers first
    /// and of the new ones then.
    pub fn update_devices(&mut self, identities: &Vec<PhysiscalPeerIdentity>) -> (r: Vec<
        Notification,
    >)
        requires
            old(self).wf(),
        ensures
            final(self).wf(),
            Self::spec_devices_updated(*old(self), *final(self), identities@, r@),
    {
        let ghost peers0 = self.peers.entries();
        let ghost groups0 = self.groups.entries();
        let ghost mut lost: Seq<u64> = Seq::empty();
        let mut out: Vec<Notification> = Vec::new();
        let seen = listed_addresses(identities);
        let ids = self.peers.ids();
        let mut i: usize = 0;
        while i < ids.len()
            invariant
                self.wf(),
                i <= ids@.len(),
                ids@.no_duplicates(),
                ids@.to_set() == peers0.dom(),
                forall|addr: MacAddr| #[trigger]
                    seen@.contains(spec_mac_key(addr)) <==> spec_listed(identities@, addr),
                lost.no_duplicates(),
                forall|p: u64|
                    lost.contains(p) <==> ids@.subrange(0, i as int).contains(p) && !spec_listed(
                        identities@,
                        peers0[p].identity.physical.dev_addr,
                    ),
                out@ == Self::spec_lost_notes(peers0, lost),
                self.identity == old(self).identity,
                self.own_phy_id == old(self).own_phy_id,
                self.go_intent == old(self).go_intent,
                self.groups.entries().dom() == groups0.dom(),
                forall|g: u64| #[trigger]
                    groups0.contains_key(g) ==> spec_same_group(
                        groups0[g],
                        self.groups.entries()[g],
                    ),
                forall|g: u64, q: u64|
                    groups0.contains_key(g) ==> ((
                    #[trigger] self.groups.entries()[g].peers@.contains_key(q))
                        <==> groups0[g].peers@.contains_key(q) && !lost.contains(q)),
                forall|g: u64, q: u64|
                    groups0.contains_key(g) && #[trigger] self.groups.entries()[g].peers@.contains_key(
                        q,
                    ) ==> self.groups.entries()[g].peers@[q] == groups0[g].peers@[q],
                forall|p: u64| #[trigger]
                    self.peers.entries().contains_key(p) ==> peers0.contains_key(p)
                        && self.peers.entries()[p] == peers0[p],
                forall|j: int|
                    i <= j < ids@.len() ==> self.peers.entries().contains_key(#[trigger] ids@[j]),
                forall|j: int|
                    0 <= j < i ==> (self.peers.entries().contains_key(#[trigger] ids@[j])
                        <==> spec_listed(identities@, peers0[ids@[j]].identity.physical.dev_addr)),
                forall|j: int|
                    0 <= j < i && !spec_listed(
                        identities@,
                        peers0[#[trigger] ids@[j]].identity.physical.dev_addr,
                    ) ==> out@.contains(Notification::PeerLost(PeerId(ids@[j]))),
                forall|k: int|
                    0 <= k < out@.len() ==> match #[trigger] out@[k] {
                        Notification::PeerLost(id) => peers0.contains_key(id.0) && !spec_listed(
                            identities@,
                            peers0[id.0].identity.physical.dev_addr,
                        ),
                        Notification::PeerLeftGroup(g, id) => peers0.contains_key(id.0)
                            && !spec_listed(identities@, peers0[id.0].identity.physical.dev_addr)
                            && peers0[id.0].groups@.contains(g),
                        _ => false,
                    },
            decreases ids@.len() - i,
        {
            let ghost out0 = out@;
            let ghost groups_b = self.groups.entries();
            let id = ids[i];
            let is_lost = match self.peers.get(PeerId(id)) {
                Some(peer) => !seen.contains(&mac_key(&peer.identity.physical.dev_addr)),
                None => false,
            };
            let ghost lost0 = lost;
            let ghost done = ids@.subrange(0, i as int);
            let ghost done1 = ids@.subrange(0, i + 1);
            proof {
                assert forall|x: u64| done1.contains(x) <==> (done.contains(x) || x == id) by {
                    if done.contains(x) {
                        let j = done.index_of(x);
                        assert(done1[j] == x);
                    }
                    if done1.contains(x) {
                        assert(done1[done1.index_of(x)] == x);
                    }
                    assert(done1[i as int] == id);
                }
            }
            if is_lost {
                let mut notes = self.device_lost(PeerId(id));
                out.append(&mut notes);
                proof {
                    let gs = peers0[id].groups@;
                    lost = lost0.push(id);
                    assert(lost.drop_last() =~= lost0);
                    assert forall|a: int, b: int| 0 <= a < lost.len() && 0 <= b < lost.len() && a
                        != b implies lost[a] != lost[b] by {
                        if a < lost0.len() && b < lost0.len() {
                        } else if a < lost0.len() {
                            assert(lost0.contains(lost0[a]));
                        } else {
                            assert(lost0.contains(lost0[b]));
                        }
                    }
                    assert forall|x: u64| lost.contains(x) <==> (lost0.contains(x) || x == id) by {
                        if lost0.contains(x) {
                            let j = lost0.index_of(x);
                            assert(lost[j] == x);
                        }
                        if lost.contains(x) {
                            assert(lost[lost.index_of(x)] == x);
                        }
                        assert(lost[lost0.len() as int] == id);
                    }
                    assert(out@[(out0.len() + gs.len()) as int] == Notification::PeerLost(PeerId(id)));
                    let groups_c = self.groups.entries();
                    assert forall|g: u64, q: u64| groups0.contains_key(g) implies ((
                    #[trigger] groups_c[g].peers@.contains_key(q)) <==> groups0[g].peers@.contains_key(
                        q,
                    ) && !lost.contains(q)) by {
                        assert(groups_b.contains_key(g));
                        assert(groups_c[g].peers@ == groups_b[g].peers@.remove(id));
                        assert(groups_b[g].peers@.contains_key(q) <==> groups0[g].peers@.contains_key(
                            q,
                        ) && !lost0.contains(q));
                    }
                    assert forall|g: u64, q: u64|
                        groups0.contains_key(g) && #[trigger] groups_c[g].peers@.contains_key(
                            q,
                        ) implies groups_c[g].peers@[q] == groups0[g].peers@[q] by {
                        assert(groups_b.contains_key(g));
                        assert(groups_c[g].peers@ == groups_b[g].peers@.remove(id));
                        assert(groups_b[g].peers@.contains_key(q));
                    }
                    assert forall|g: u64| #[trigger] groups0.contains_key(g) implies spec_same_group(
                        groups0[g],
                        groups_c[g],
                    ) by {
                        assert(groups_b.contains_key(g));
                    }
                    assert forall|j: int|
                        0 <= j < i + 1 && !spec_listed(
                            identities@,
                            peers0[#[trigger] ids@[j]].identity.physical.dev_addr,
                        ) implies out@.contains(Notification::PeerLost(PeerId(ids@[j]))) by {
                        if j < i {
                            let want = Notification::PeerLost(PeerId(ids@[j]));
                            let k = out0.index_of(want);
                            assert(out@[k] == want);
                        }
                    }
                }
            }
            i = i + 1;
        }
        let ghost kept = self.peers.entries();
        let ghost groups1 = self.groups.entries();
        let ghost lost_notes = out@;
        proof {
            assert(ids@.subrange(0, ids@.len() as int) =~= ids@);
            assert forall|g: u64| #[trigger] groups0.contains_key(g) implies Self::spec_group_updated(
                peers0,
                identities@,
                groups0[g],
                groups1[g],
            ) by {
                assert forall|q: u64|
                    (#[trigger] groups1[g].peers@.contains_key(q)) <==> groups0[g].peers@.contains_key(
                        q,
                    ) && spec_listed(identities@, peers0[q].identity.physical.dev_addr) by {
                    if groups0[g].peers@.contains_key(q) {
                        assert(peers0.contains_key(q));
                        assert(ids@.to_set().contains(q));
                        assert(ids@.contains(q));
                    }
                    if lost.contains(q) {
                        assert(ids@.contains(q));
                    }
                }
            }
        }
        let mut n: usize = 0;
        while n < identities.len()
            invariant
                self.wf(),
                n <= identities@.len(),
                self.identity == old(self).identity,
                self.own_phy_id == old(self).own_phy_id,
                self.go_intent == old(self).go_intent,
                self.groups.entries() == groups1,
                forall|p: u64| #[trigger]
                    self.peers.entries().contains_key(p) ==> spec_listed(
                        identities@,
                        self.peers.entries()[p].identity.physical.dev_addr,
                    ),
                forall|p: u64| #[trigger]
                    kept.contains_key(p) ==> self.peers.entries().contains_key(p)
                        && self.peers.entries()[p] == kept[p],
                forall|p: u64| #[trigger]
                    self.peers.entries().contains_key(p) ==> (kept.contains_key(p)
                        && self.peers.entries()[p] == kept[p]) || Self::spec_fresh_peer(
                        self.peers.entries()[p],
                        identities@,
                    ),
                forall|p: u64| #[trigger]
                    self.peers.entries().contains_key(p) ==> kept.contains_key(p) || out@.contains(
                        Notification::PeerDiscovered(PeerId(p)),
                    ),
                forall|j: int, k: int|
                    lost_notes.len() <= j < k < out@.len() ==> #[trigger] out@[j]
                        != #[trigger] out@[k],
                out@.len() >= lost_notes.len(),
                out@.subrange(0, lost_notes.len() as int) == lost_notes,
                lost_notes == Self::spec_lost_notes(peers0, lost),
                forall|k: int|
                    lost_notes.len() <= k < out@.len() ==> (
                    #[trigger] out@[k] matches Notification::PeerDiscovered(id)
                        && self.peers.entries().contains_key(id.0) && Self::spec_fresh_peer(
                        self.peers.entries()[id.0],
                        identities@,
                    )),
            decreases identities@.len() - n,
        {
            let ghost out0 = out@;
            let ghost before = self.peers.entries();
            let identity = identities[n].duplicate();
            if self.peers.id_by_mac(&identity.dev_addr).is_none() {
                match KeyExchange::new() {
                    Ok(key_exchange) => {
                        let mut notes = self.device_found(identity, String::new(), key_exchange);
                        let ghost added = notes@;
                        out.append(&mut notes);
                        proof {
                            let now = self.peers.entries();
                            assert(out@ =~= out0 + added);
                            if added.len() == 1 {
                                let new_id = added[0]->PeerDiscovered_0;
                                assert(identities@[n as int]@ == now[new_id.0].identity.physical@);
                                assert(Self::spec_fresh_peer(now[new_id.0], identities@));
                                assert forall|p: u64| #[trigger] now.contains_key(p) implies (
                                kept.contains_key(p) && now[p] == kept[p]) || Self::spec_fresh_peer(
                                    now[p],
                                    identities@,
                                ) by {
                                    if p != new_id.0 {
                                        assert(before.contains_key(p));
                                        assert(now[p] == before[p]);
                                    }
                                }
                                assert forall|k: int| lost_notes.len() <= k < out@.len() implies (
                                #[trigger] out@[k] matches Notification::PeerDiscovered(id)
                                    && now.contains_key(id.0) && Self::spec_fresh_peer(
                                    now[id.0],
                                    identities@,
                                )) by {
                                    if k < out0.len() {
                                        assert(out@[k] == out0[k]);
                                        let id = out0[k]->PeerDiscovered_0;
                                        assert(before.contains_key(id.0));
                                        assert(now[id.0] == before[id.0]);
                                    } else {
                                        assert(out@[k] == added[0]);
                                    }
                                }
                            }
                            if added.len() == 1 {
                                let new_id = added[0]->PeerDiscovered_0;
                                assert(out@[out0.len() as int] == added[0]);
                                assert forall|p: u64| #[trigger] now.contains_key(p) implies kept.contains_key(
                                    p,
                                ) || out@.contains(Notification::PeerDiscovered(PeerId(p))) by {
                                    if p != new_id.0 && !kept.contains_key(p) {
                                        let want = Notification::PeerDiscovered(PeerId(p));
                                        assert(before.contains_key(p));
                                        let k = out0.index_of(want);
                                        assert(out0[k] == want);
                                        assert(out@[k] == want);
                                    }
                                }
                                assert forall|j: int, k: int|
                                    lost_notes.len() <= j < k < out@.len() implies #[trigger] out@[j]
                                    != #[trigger] out@[k] by {
                                    assert(out@[j] == out0[j]);
                                    if k < out0.len() {
                                        assert(out@[k] == out0[k]);
                                    } else {
                                        let id = out0[j]->PeerDiscovered_0;
                                        assert(before.contains_key(id.0));
                                    }
                                }
                            }
                            assert(out@.subrange(0, lost_notes.len() as int) =~= out0.subrange(
                                0,
                                lost_notes.len() as int,
                            ));
                        }
                    },
                    Err(_) => {},
                }
            }
            n = n + 1;
        }
        proof {
            assert forall|k: int| 0 <= k < out@.len() implies match #[trigger] out@[k] {
                Notification::PeerLost(id) => peers0.contains_key(id.0) && !spec_listed(
                    identities@,
                    peers0[id.0].identity.physical.dev_addr,
                ),
                Notification::PeerLeftGroup(g, id) => peers0.contains_key(id.0) && !spec_listed(
                    identities@,
                    peers0[id.0].identity.physical.dev_addr,
                ) && peers0[id.0].groups@.contains(g),
                Notification::PeerDiscovered(id) => self.peers.entries().contains_key(id.0)
                    && Self::spec_fresh_peer(self.peers.entries()[id.0], identities@),
                _ => false,
            } by {
                if k < lost_notes.len() {
                    assert(out@.subrange(0, lost_notes.len() as int)[k] == out@[k]);
                }
            }
            assert(Self::spec_lost_first(peers0, identities@, out@, lost));
        }
        out
    }

    /// Whether a command is the one that connects to the peer of a path, as
    /// [`Self::connect_to_peer_by_path`] makes it.
    pub open spec fn spec_connects(self, command: RadioCommand, path: String) -> bool {
        command matches RadioCommand::Connect { peer_path, dev_addr, go_intent, auto_join }
            && peer_path == path && dev_addr is None && go_intent == self.go_intent && auto_join
    }

    /// What one event of the radio makes of a session, what the listener is
    /// told of it and what the radio is asked: each event as the function
    /// that takes note of it describes. A device that was found, and would be
    /// a new peer, is passed over where no key exchange can be made for it.
    /// Where an event tells of a peer or a group by its path, some peer or
    /// group of that path is meant.
    pub open spec fn spec_handled(
        before: Session,
        after: Session,
        event: RadioEvent,
        notes: Seq<Notification>,
        commands: Seq<RadioCommand>,
    ) -> bool {
        let peers0 = before.peers.entries();
        let groups0 = before.groups.entries();
        match event {
            RadioEvent::DeviceFound { identity, path } => {
                &&& commands.len() == 0
                &&& notes.len() == 0 && after == before || Self::spec_device_found(
                    before,
                    after,
                    identity,
                    path,
                    notes,
                )
                &&& notes.len() == 1 ==> (notes[0] matches Notification::PeerDiscovered(id)
                    && after.peers.entries()[id.0].key_exchange.spec_status()
                    == ExchangeStatus::InProgress)
            },
            RadioEvent::DevicesUpdated(identities) => {
                &&& commands.len() == 0
                &&& Self::spec_devices_updated(before, after, identities@, notes)
            },
            RadioEvent::DeviceLost { path } => {
                &&& commands.len() == 0
                &&& if forall|p: u64| #[trigger] peers0.contains_key(p) ==> peers0[p].data@ != path@ {
                    notes.len() == 0 && after == before
                } else {
                    exists|p: u64| #[trigger]
                        peers0.contains_key(p) && peers0[p].data@ == path@
                            && Self::spec_device_lost(before, after, p, notes)
                }
            },
            RadioEvent::FindStopped => {
                &&& commands.len() == 0
                &&& notes == seq![Notification::PeerDiscoveryStopped]
                &&& after == before
            },
            RadioEvent::GroupStarted(started) => {
                &&& commands.len() == 0
                &&& Self::spec_group_started(before, after, started, notes)
            },
            RadioEvent::GroupFinished { path } => {
                &&& commands.len() == 0
                &&& if !before.groups.has_path(path@) {
                    notes.len() == 0 && after == before
                } else {
                    exists|g: u64| #[trigger]
                        groups0.contains_key(g) && groups0[g].data.path@ == path@
                            && Self::spec_group_finished(before, after, g, notes)
                }
            },
            RadioEvent::PeerLeftGroup { group, peer_path } => {
                &&& commands.len() == 0
                &&& if forall|p: u64| #[trigger]
                    peers0.contains_key(p) ==> peers0[p].data@ != peer_path@ {
                    notes.len() == 0 && after == before
                } else {
                    exists|p: u64| #[trigger]
                        peers0.contains_key(p) && peers0[p].data@ == peer_path@
                            && Self::spec_peer_left_group(before, after, group, p, notes)
                }
            },
            RadioEvent::GoNegotiationFailure { peer_path } => {
                &&& notes.len() == 0
                &&& commands.len() == 1
                &&& before.spec_connects(commands[0], peer_path)
                &&& after == before
            },
            RadioEvent::GoNegotiationRequest { peer_path } => {
                &&& notes.len() == 0
                &&& commands.len() == 1
                &&& before.spec_connects(commands[0], peer_path)
                &&& after == before
            },
            RadioEvent::ProvisionDiscoveryPbcRequest { peer_path } => {
                &&& notes.len() == 0
                &&& before.spec_authorized(peer_path@, commands)
                &&& after == before
            },
            RadioEvent::Other => {
                &&& notes.len() == 0
                &&& commands.len() == 0
                &&& after == before
            },
        }
    }

    /// Takes one event of the radio: changes the stores as the event asks,
    /// and answers with what the listener is to be told and what the radio
    /// is to be asked. The events are to be handed over in the order in which
    /// they arrive.
    pub fn handle_event(&mut self, event: RadioEvent) -> (r: Reaction)
        requires
            old(self).wf(),
        ensures
            final(self).wf(),
            Self::spec_handled(*old(self), *final(self), event, r.notifications@, r.commands@),
    {
        let mut notifications: Vec<Notification> = Vec::new();
        let mut commands: Vec<RadioCommand> = Vec::new();
        match event {
            RadioEvent::DeviceFound { identity, path } => {
                if self.peers.id_by_mac(&identity.dev_addr).is_none() {
                    match KeyExchange::new() {
                        Ok(key_exchange) => {
                            notifications = self.device_found(identity, path, key_exchange);
                        },
                        Err(_) => {},
                    }
                }
            },
            RadioEvent::DevicesUpdated(identities) => {
                notifications = self.update_devices(&identities);
            },
            RadioEvent::DeviceLost { path } => {
                match self.peer_id_by_path(&path) {
                    Some(id) => {
                        notifications = self.device_lost(id);
                    },
                    None => {},
                }
            },
            RadioEvent::FindStopped => {
                notifications.push(Notification::PeerDiscoveryStopped);
            },
            RadioEvent::GroupStarted(started) => {
                notifications = self.group_started(started);
            },
            RadioEvent::GroupFinished { path } => {
                match self.groups.id_by_path(&path) {
                    Some(id) => {
                        notifications = self.group_finished(id);
                    },
                    None => {},
                }
            },
            RadioEvent::PeerLeftGroup { group, peer_path } => {
                match self.peer_id_by_path(&peer_path) {
                    Some(id) => {
                        notifications = self.peer_left_group(group, id);
                    },
                    None => {},
                }
            },
            RadioEvent::GoNegotiationFailure { peer_path } => {
                commands.push(self.connect_to_peer_by_path(peer_path));
            },
            RadioEvent::GoNegotiationRequest { peer_path } => {
                commands.push(self.connect_to_peer_by_path(peer_path));
            },
            RadioEvent::ProvisionDiscoveryPbcRequest { peer_path } => {
                commands = self.authorize_wps(&peer_path);
            },
            RadioEvent::Other => {},
        }
        Reaction { notifications, commands }
    }

    /// In a well-formed session a peer is a member of a group exactly where
    /// the peer lists the group, and the members of a group are peers of the
    /// session.
    pub proof fn lemma_membership_agrees(self, g: u64, p: u64)
        requires
            self.wf(),
        ensures
            self.groups.entries().contains_key(g) && self.groups.entries()[g].peers@.contains_key(p)
                <==> self.peers.entries().contains_key(p) && self.peers.entries()[p].groups@.contains(
                GroupId(g),
            ),
    {
        let peers = self.peers.entries();
        let groups = self.groups.entries();
        if peers.contains_key(p) && peers[p].groups@.contains(GroupId(g)) {
            let i = peers[p].groups@.index_of(GroupId(g));
            assert(peers[p].groups@[i] == GroupId(g));
        }
    }

    /// The logical identity of a peer is written once: an Associate message
    /// that reports another one than the peer is bound to is refused, and
    /// the stores stay as they are.
    pub proof fn lemma_logical_identity_pinned(
        before: Session,
        after: Session,
        g: u64,
        p: u64,
        source: IpAddr,
        logical_id: LogicalPeerIdentity,
        key: Seq<u8>,
        ports: P2pPorts,
        own_ports: P2pPorts,
        result: Associated,
    )
        requires
            Self::spec_associated(
                before,
                after,
                g,
                p,
                source,
                logical_id,
                key,
                ports,
                own_ports,
                result,
            ),
            before.peers.entries().contains_key(p),
            before.peers.entries()[p].identity.logical matches Some(bound) && bound@
                != logical_id@,
        ensures
            result == Associated::Rejected(AssociateRejection::LogicalIdentityMismatch),
            after.peers.entries() == before.peers.entries(),
            after.groups.entries() == before.groups.entries(),
    {
    }

    /// A peer lands in a group once: after an Associate message has brought
    /// a peer into a group, every further one of the peer for the group is
    /// refused and changes nothing, so that the peer lists the group once
    /// and the group has the peer as one member.
    pub proof fn lemma_associated_once(
        first: Session,
        second: Session,
        third: Session,
        g: u64,
        p: u64,
        source1: IpAddr,
        logical1: LogicalPeerIdentity,
        key1: Seq<u8>,
        ports1: P2pPorts,
        source2: IpAddr,
        logical2: LogicalPeerIdentity,
        key2: Seq<u8>,
        ports2: P2pPorts,
        own_ports: P2pPorts,
        result1: Associated,
        result2: Associated,
    )
        requires
            first.wf(),
            second.wf(),
            Self::spec_associated(
                first,
                second,
                g,
                p,
                source1,
                logical1,
                key1,
                ports1,
                own_ports,
                result1,
            ),
            Self::spec_associated(
                second,
                third,
                g,
                p,
                source2,
                logical2,
                key2,
                ports2,
                own_ports,
                result2,
            ),
            result1 is Joined,
        ensures
            result2 is Rejected,
            third.peers.entries() == second.peers.entries(),
            third.groups.entries() == second.groups.entries(),
            second.peers.entries()[p].groups@.no_duplicates(),
            second.peers.entries()[p].groups@.contains(GroupId(g)),
            second.groups.entries()[g].peers@.contains_key(p),
    {
        let list = second.peers.entries()[p].groups@;
        assert(list[list.len() - 1] == GroupId(g));
    }

}

} // verus!
