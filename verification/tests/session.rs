use ngn::error::Error;
use ngn::ids::{GroupId, PeerId};
use ngn::protocol::encryption::nonce_from;
use ngn::protocol::identity::{new_own_id, LogicalPeerIdentity};
use ngn::protocol::key_exchange::{ExchangeStatus, KeyExchange, MaybeInvalidPublicKey as ExchangeKey};
use ngn::protocol::signing::MaybeInvalidPublicKey;
use ngn::protocol::{
    read_control_message, read_peer_message, write_control_message, write_peer_message,
    ControlMessage, IpAddr, P2pPorts, PeerOwnIdentifier, PhysiscalPeerIdentity, SocketAddr,
};
use ngn::session::{
    devices_from_details, has_p2p_support, AssociateRejection, Associated, GroupOwnerAddress, GroupStarted, Notification, RadioCommand,
    RadioEvent, Session, SessionInit,
};
use ngn::utils::{mac_addr_to_local_link_address, MacAddr};

fn session(device_name: &str, nickname: &str, go_intent: u32) -> Session {
    Session::new(SessionInit {
        interface_name: None,
        device_name: device_name.to_string(),
        identity: new_own_id(nickname.to_string()).unwrap(),
        go_intent,
    })
}

fn mac(last: u8) -> MacAddr {
    MacAddr::V6([2, 0, 0, 0, 0, last])
}

fn device(name: &str, last: u8) -> PhysiscalPeerIdentity {
    PhysiscalPeerIdentity { name: name.to_string(), dev_addr: mac(last) }
}

fn found(session: &mut Session, name: &str, last: u8) -> PeerId {
    let notes =
        session.device_found(device(name, last), format!("/peers/{last}"), KeyExchange::new().unwrap());
    match notes.as_slice() {
        [Notification::PeerDiscovered(id)] => *id,
        other => panic!("a new peer is discovered, not {other:?}"),
    }
}

fn started(session: &mut Session, path: &str, is_go: bool, go: u8) -> GroupId {
    let notes = session.group_started(GroupStarted {
        path: path.to_string(),
        iface_path: format!("{path}/iface"),
        iface_name: "p2p-wlan0-0".to_string(),
        scope_id: 4,
        is_go,
        go_address: GroupOwnerAddress::InterfaceMac(mac(go)),
        go_dev_addr: Some(mac(go)),
    });
    match notes.as_slice() {
        [Notification::JoinedGroup(id, told)] => {
            assert_eq!(*told, is_go);
            *id
        }
        other => panic!("a new group is joined, not {other:?}"),
    }
}

fn link_local(last: u8) -> IpAddr {
    IpAddr::V6(mac_addr_to_local_link_address(&mac(last)))
}

fn logical(nickname: &str, key: u8) -> LogicalPeerIdentity {
    LogicalPeerIdentity { nickname: nickname.to_string(), key: MaybeInvalidPublicKey([key; 32]) }
}

fn fresh_key() -> ExchangeKey {
    KeyExchange::new().unwrap().export_public_key()
}

fn ports(control: u16) -> P2pPorts {
    P2pPorts { control, p2p: control + 1 }
}

fn join(session: &mut Session, group: GroupId, peer: PeerId, last: u8, nickname: &str) -> Associated {
    session.associate_peer(
        group,
        peer,
        link_local(last),
        logical(nickname, last),
        fresh_key(),
        ports(40000 + last as u16),
        ports(9001),
    )
}

fn agrees(session: &Session) {
    for p in session.peers.ids() {
        let peer = session.peers.get(PeerId(p)).unwrap();
        for g in &peer.groups {
            assert!(session.groups.get(*g).unwrap().peers.contains_key(&p));
        }
        let mut seen = peer.groups.clone();
        seen.sort_by_key(|g| g.0);
        seen.dedup();
        assert_eq!(seen.len(), peer.groups.len());
        assert_eq!(session.peers.id_by_mac(&peer.identity.physical.dev_addr), Some(PeerId(p)));
    }
    for g in session.groups.ids() {
        for p in session.groups.get(GroupId(g)).unwrap().peers.keys() {
            assert!(session.peers.get(PeerId(*p)).unwrap().groups.contains(&GroupId(g)));
        }
    }
}

#[test]
fn new_session_knows_nobody() {
    let s = session("phone", "alice", 14);
    assert_eq!(s.go_intent, 14);
    assert_eq!(s.own_identity().nickname, "alice");
    assert!(matches!(&s.own_phy_id, PeerOwnIdentifier::Name(n) if n == "phone"));
    assert!(s.all_peers().is_empty());
    assert_eq!(s.peers.len(), 0);
    assert_eq!(s.groups.len(), 0);
    assert!(s.peer_identity(PeerId(1)).is_none());
    assert!(matches!(s.discover_peers(), RadioCommand::Find));
}

#[test]
fn found_device_becomes_a_peer_once() {
    let mut s = session("phone", "alice", 14);
    let id = found(&mut s, "bob", 1);
    let identity = s.peer_identity(id).unwrap();
    assert_eq!(identity.physical.name, "bob");
    assert!(identity.physical.dev_addr.same(&mac(1)));
    assert!(identity.logical.is_none());
    let record = s.peers.get(id).unwrap();
    assert!(record.groups.is_empty());
    assert_eq!(record.data, "/peers/1");
    assert_eq!(record.key_exchange.status(), ExchangeStatus::InProgress);

    let again = s.device_found(device("bob again", 1), "/peers/x".to_string(), KeyExchange::new().unwrap());
    assert!(again.is_empty());
    assert_eq!(s.peers.len(), 1);
    assert_eq!(s.peer_identity(id).unwrap().physical.name, "bob");
    agrees(&s);
}

#[test]
fn all_peers_lists_each_peer_once() {
    let mut s = session("phone", "alice", 14);
    let a = found(&mut s, "a", 1);
    let b = found(&mut s, "b", 2);
    let c = found(&mut s, "c", 3);
    let mut all: Vec<(u64, String)> =
        s.all_peers().into_iter().map(|(id, identity)| (id.0, identity.physical.name)).collect();
    all.sort();
    let mut expected =
        vec![(a.0, "a".to_string()), (b.0, "b".to_string()), (c.0, "c".to_string())];
    expected.sort();
    assert_eq!(all, expected);
}

#[test]
fn peer_is_found_by_path_and_by_what_it_reports() {
    let mut s = session("phone", "alice", 14);
    let a = found(&mut s, "a", 1);
    let b = found(&mut s, "b", 2);
    assert_eq!(s.peer_id_by_path(&"/peers/1".to_string()), Some(a));
    assert_eq!(s.peer_id_by_path(&"/peers/2".to_string()), Some(b));
    assert_eq!(s.peer_id_by_path(&"/peers/3".to_string()), None);
    assert_eq!(s.find_peer(&PeerOwnIdentifier::Name("b".to_string())), Some(b));
    assert_eq!(s.find_peer(&PeerOwnIdentifier::Name("c".to_string())), None);
    let addr = ngn::protocol::DecodableMacAddr::from(mac(1));
    assert_eq!(s.find_peer(&PeerOwnIdentifier::DevAddr(addr)), Some(a));
}

#[test]
fn started_group_has_the_owners_link_local_address() {
    let mut s = session("phone", "alice", 14);
    let g = started(&mut s, "/groups/0", true, 9);
    let group = s.groups.get(g).unwrap();
    assert!(group.is_go);
    assert_eq!(group.scope_id, 4);
    assert_eq!(group.iface_name, "p2p-wlan0-0");
    assert!(group.peers.is_empty());
    assert!(group.go_ip_address.same(&link_local(9)));
    assert!(matches!(
        group.go_ip_address,
        IpAddr::V6([0xfe, 0x80, 0, 0, 0, 0, 0, 0, 0, 0, 0, 0xff, 0xfe, 0, 0, 9])
    ));
    assert_eq!(s.listen_ports(g), Ok((9001, 0, 4)));

    let h = {
        let notes = s.group_started(GroupStarted {
            path: "/groups/1".to_string(),
            iface_path: String::new(),
            iface_name: "p2p0".to_string(),
            scope_id: 5,
            is_go: false,
            go_address: GroupOwnerAddress::Ip(IpAddr::V4([192, 168, 49, 1])),
            go_dev_addr: None,
        });
        match notes.as_slice() {
            [Notification::JoinedGroup(id, false)] => *id,
            other => panic!("a new group is joined, not {other:?}"),
        }
    };
    assert!(s.groups.get(h).unwrap().go_ip_address.same(&IpAddr::V4([192, 168, 49, 1])));
    assert_eq!(s.listen_ports(h), Ok((0, 0, 5)));
    assert_eq!(s.listen_ports(GroupId(h.0 + 1)), Err(Error::GroupNotFound));

    let again = s.group_started(GroupStarted {
        path: "/groups/0".to_string(),
        iface_path: String::new(),
        iface_name: String::new(),
        scope_id: 0,
        is_go: false,
        go_address: GroupOwnerAddress::Ip(IpAddr::V4([0, 0, 0, 0])),
        go_dev_addr: None,
    });
    assert!(again.is_empty());
    assert_eq!(s.groups.len(), 2);
}

#[test]
fn associate_binds_the_peer_and_the_owner_answers() {
    let mut s = session("owner", "alice", 14);
    let bob = found(&mut s, "bob", 1);
    let g = started(&mut s, "/groups/0", true, 9);
    let own_key = s.peers.get(bob).unwrap().key_exchange.export_public_key();
    let own_public = s.own_identity().to_public();

    let outcome = join(&mut s, g, bob, 1, "bob");
    let Associated::Joined { peer, reply } = outcome else { panic!("the peer joins") };
    assert_eq!(peer, bob);
    let reply = reply.unwrap();
    match reply.to {
        SocketAddr::V6 { ip, port, flowinfo, scope_id } => {
            assert!(IpAddr::V6(ip).same(&link_local(1)));
            assert_eq!(port, 40001);
            assert_eq!(flowinfo, 0);
            assert_eq!(scope_id, 4);
        }
        SocketAddr::V4 { .. } => panic!("the answer goes to the peer's address"),
    }
    let ControlMessage::Associate { physical_id, logical_id, key_exchange_public_key, ports: told } =
        reply.message;
    assert!(matches!(physical_id, PeerOwnIdentifier::Name(n) if n == "owner"));
    assert!(logical_id.same(&own_public));
    assert_eq!(key_exchange_public_key.0, own_key.0);
    assert_eq!(told, ports(9001));

    let record = s.peers.get(bob).unwrap();
    assert!(record.identity.logical.as_ref().unwrap().same(&logical("bob", 1)));
    assert_eq!(record.groups, vec![g]);
    assert_eq!(record.key_exchange.status(), ExchangeStatus::Completed);
    let info = s.groups.get(g).unwrap().peers[&bob.0];
    assert!(info.address.address.same(&link_local(1)));
    assert_eq!(info.address.ports, ports(40001));
    agrees(&s);
}

#[test]
fn client_does_not_answer_an_associate() {
    let mut s = session("client", "bob", 3);
    let owner = found(&mut s, "owner", 9);
    let g = started(&mut s, "/groups/0", false, 9);
    let outcome = join(&mut s, g, owner, 9, "alice");
    assert!(matches!(outcome, Associated::Joined { peer, reply: None } if peer == owner));
    agrees(&s);
}

#[test]
fn associate_of_an_unknown_peer_is_dropped() {
    let mut s = session("owner", "alice", 14);
    found(&mut s, "bob", 1);
    let g = started(&mut s, "/groups/0", true, 9);
    let message = ControlMessage::Associate {
        physical_id: PeerOwnIdentifier::Name("mallory".to_string()),
        logical_id: logical("mallory", 6),
        key_exchange_public_key: fresh_key(),
        ports: ports(5),
    };
    let outcome = s.associate(g, link_local(6), message, ports(9001));
    assert!(matches!(outcome, Associated::Rejected(AssociateRejection::UnknownPeer)));
    assert!(s.groups.get(g).unwrap().peers.is_empty());
    let outcome = join(&mut s, g, PeerId(12345), 1, "bob");
    assert!(matches!(outcome, Associated::Rejected(AssociateRejection::UnknownPeer)));
    agrees(&s);
}

#[test]
fn associate_for_an_unknown_group_is_dropped() {
    let mut s = session("owner", "alice", 14);
    let bob = found(&mut s, "bob", 1);
    let outcome = join(&mut s, GroupId(77), bob, 1, "bob");
    assert!(matches!(outcome, Associated::Rejected(AssociateRejection::UnknownGroup)));
    let record = s.peers.get(bob).unwrap();
    assert!(record.identity.logical.is_none());
    assert!(record.groups.is_empty());
    assert_eq!(record.key_exchange.status(), ExchangeStatus::InProgress);
}

#[test]
fn second_associate_lands_the_peer_once() {
    let mut s = session("owner", "alice", 14);
    let bob = found(&mut s, "bob", 1);
    let g = started(&mut s, "/groups/0", true, 9);
    assert!(matches!(join(&mut s, g, bob, 1, "bob"), Associated::Joined { .. }));
    let outcome = join(&mut s, g, bob, 1, "bob");
    assert!(matches!(outcome, Associated::Rejected(AssociateRejection::AlreadyInGroup)));
    assert_eq!(s.peers.get(bob).unwrap().groups, vec![g]);
    assert_eq!(s.groups.get(g).unwrap().peers.len(), 1);
    agrees(&s);
}

#[test]
fn logical_identity_is_pinned() {
    let mut s = session("owner", "alice", 14);
    let bob = found(&mut s, "bob", 1);
    let g = started(&mut s, "/groups/0", true, 9);
    let h = started(&mut s, "/groups/1", true, 9);
    assert!(matches!(join(&mut s, g, bob, 1, "bob"), Associated::Joined { .. }));

    let message = ControlMessage::Associate {
        physical_id: PeerOwnIdentifier::Name("bob".to_string()),
        logical_id: logical("bob", 2),
        key_exchange_public_key: fresh_key(),
        ports: ports(7),
    };
    let outcome = s.associate(h, link_local(1), message, ports(9001));
    assert!(matches!(outcome, Associated::Rejected(AssociateRejection::LogicalIdentityMismatch)));
    let outcome = s.associate_peer(h, bob, link_local(1), logical("robert", 1), fresh_key(), ports(7), ports(9001));
    assert!(matches!(outcome, Associated::Rejected(AssociateRejection::LogicalIdentityMismatch)));

    let record = s.peers.get(bob).unwrap();
    assert!(record.identity.logical.as_ref().unwrap().same(&logical("bob", 1)));
    assert_eq!(record.groups, vec![g]);
    assert!(s.groups.get(h).unwrap().peers.is_empty());
    assert_eq!(s.groups.get(g).unwrap().peers[&bob.0].address.ports, ports(40001));
    agrees(&s);
}

#[test]
fn finished_key_exchange_refuses_a_further_group() {
    let mut s = session("owner", "alice", 14);
    let bob = found(&mut s, "bob", 1);
    let g = started(&mut s, "/groups/0", true, 9);
    let h = started(&mut s, "/groups/1", true, 9);
    assert!(matches!(join(&mut s, g, bob, 1, "bob"), Associated::Joined { .. }));
    let outcome = join(&mut s, h, bob, 1, "bob");
    assert!(matches!(outcome, Associated::Rejected(AssociateRejection::KeyExchange)));
    assert_eq!(s.peers.get(bob).unwrap().groups, vec![g]);
    assert!(s.groups.get(h).unwrap().peers.is_empty());
    agrees(&s);
}

#[test]
fn failed_key_exchange_drops_the_associate() {
    let mut s = session("owner", "alice", 14);
    let bob = found(&mut s, "bob", 1);
    let g = started(&mut s, "/groups/0", true, 9);
    let outcome =
        s.associate_peer(g, bob, link_local(1), logical("bob", 1), ExchangeKey([0; 32]), ports(7), ports(9001));
    assert!(matches!(outcome, Associated::Rejected(AssociateRejection::KeyExchange)));
    let record = s.peers.get(bob).unwrap();
    assert!(record.identity.logical.is_none());
    assert!(record.groups.is_empty());
    assert_eq!(record.key_exchange.status(), ExchangeStatus::Errored);
    assert!(s.groups.get(g).unwrap().peers.is_empty());
    agrees(&s);
}

#[test]
fn peer_that_leaves_a_group_stays_a_peer() {
    let mut s = session("owner", "alice", 14);
    let p1 = found(&mut s, "one", 1);
    let p2 = found(&mut s, "two", 2);
    let p3 = found(&mut s, "three", 3);
    let g = started(&mut s, "/groups/0", true, 9);
    for (peer, last) in [(p1, 1), (p2, 2), (p3, 3)] {
        assert!(matches!(join(&mut s, g, peer, last, "n"), Associated::Joined { .. }));
    }
    assert_eq!(s.groups.get(g).unwrap().peers.len(), 3);

    let notes = s.peer_left_group(g, p2);
    assert_eq!(notes, vec![Notification::PeerLeftGroup(g, p2)]);
    let group = s.groups.get(g).unwrap();
    assert!(!group.peers.contains_key(&p2.0));
    assert!(group.peers.contains_key(&p1.0));
    assert!(group.peers.contains_key(&p3.0));
    assert!(s.peers.get(p2).unwrap().groups.is_empty());
    assert_eq!(s.peers.get(p1).unwrap().groups, vec![g]);
    assert!(s.peer_identity(p2).is_some());
    assert_eq!(s.peers.len(), 3);
    agrees(&s);

    assert!(s.peer_left_group(g, PeerId(999)).is_empty());
    assert!(s.peer_left_group(GroupId(999), p1).is_empty());
    assert_eq!(s.peers.get(p1).unwrap().groups, vec![g]);

    let lost = s.device_lost(p2);
    assert_eq!(lost, vec![Notification::PeerLost(p2)]);
    assert!(s.peer_identity(p2).is_none());
    agrees(&s);
}

#[test]
fn lost_peer_leaves_its_groups_first() {
    let mut s = session("owner", "alice", 14);
    let bob = found(&mut s, "bob", 1);
    let carol = found(&mut s, "carol", 2);
    let g = started(&mut s, "/groups/0", true, 9);
    assert!(matches!(join(&mut s, g, bob, 1, "bob"), Associated::Joined { .. }));
    assert!(matches!(join(&mut s, g, carol, 2, "carol"), Associated::Joined { .. }));

    let notes = s.device_lost(bob);
    assert_eq!(notes, vec![Notification::PeerLeftGroup(g, bob), Notification::PeerLost(bob)]);
    assert!(s.peers.get(bob).is_none());
    assert!(!s.groups.get(g).unwrap().peers.contains_key(&bob.0));
    assert!(s.groups.get(g).unwrap().peers.contains_key(&carol.0));
    assert_eq!(s.peers.id_by_mac(&mac(1)), None);
    agrees(&s);

    assert!(s.device_lost(bob).is_empty());
    assert_eq!(s.peers.len(), 1);
}

#[test]
fn finished_group_is_left_by_its_members_first() {
    let mut s = session("owner", "alice", 14);
    let bob = found(&mut s, "bob", 1);
    let carol = found(&mut s, "carol", 2);
    let dave = found(&mut s, "dave", 3);
    let g = started(&mut s, "/groups/0", true, 9);
    assert!(matches!(join(&mut s, g, bob, 1, "bob"), Associated::Joined { .. }));
    assert!(matches!(join(&mut s, g, carol, 2, "carol"), Associated::Joined { .. }));

    let mut notes = s.group_finished(g);
    assert_eq!(notes.pop(), Some(Notification::LeftGroup(g, true)));
    notes.sort_by_key(|n| match n {
        Notification::PeerLeftGroup(_, p) => p.0,
        _ => u64::MAX,
    });
    let mut expected =
        vec![Notification::PeerLeftGroup(g, bob), Notification::PeerLeftGroup(g, carol)];
    expected.sort_by_key(|n| match n {
        Notification::PeerLeftGroup(_, p) => p.0,
        _ => u64::MAX,
    });
    assert_eq!(notes, expected);
    assert!(s.groups.get(g).is_none());
    assert_eq!(s.groups.id_by_path(&"/groups/0".to_string()), None);
    for peer in [bob, carol, dave] {
        assert!(s.peers.get(peer).unwrap().groups.is_empty());
    }
    assert!(s.peers.get(bob).unwrap().identity.logical.is_some());
    agrees(&s);
    assert!(s.group_finished(g).is_empty());
}

#[test]
fn updated_devices_replace_the_peers() {
    let mut s = session("owner", "alice", 14);
    let first = s.update_devices(&vec![device("a", 1), device("b", 2)]);
    assert_eq!(first.len(), 2);
    let a = s.peers.id_by_mac(&mac(1)).unwrap();
    let b = s.peers.id_by_mac(&mac(2)).unwrap();
    assert_eq!(first, vec![Notification::PeerDiscovered(a), Notification::PeerDiscovered(b)]);
    assert_eq!(s.peers.get(a).unwrap().data, "");

    let g = started(&mut s, "/groups/0", true, 9);
    assert!(matches!(join(&mut s, g, a, 1, "a"), Associated::Joined { .. }));

    let second = s.update_devices(&vec![device("b", 2), device("c", 3), device("c again", 3)]);
    let c = s.peers.id_by_mac(&mac(3)).unwrap();
    assert_eq!(
        second,
        vec![
            Notification::PeerLeftGroup(g, a),
            Notification::PeerLost(a),
            Notification::PeerDiscovered(c),
        ]
    );
    assert!(s.peers.get(a).is_none());
    assert_eq!(s.peers.get(b).unwrap().identity.physical.name, "b");
    assert_eq!(s.peers.get(c).unwrap().identity.physical.name, "c");
    assert_eq!(s.peers.len(), 2);
    assert!(s.groups.get(g).unwrap().peers.is_empty());
    agrees(&s);

    assert!(s.update_devices(&vec![device("b", 2), device("c", 3)]).is_empty());
    let last = s.update_devices(&Vec::new());
    assert_eq!(last.len(), 2);
    assert!(last.contains(&Notification::PeerLost(b)));
    assert!(last.contains(&Notification::PeerLost(c)));
    assert_eq!(s.peers.len(), 0);
}

#[test]
fn message_needs_a_peer_in_a_group_with_an_address() {
    let mut s = session("owner", "alice", 14);
    assert_eq!(s.peer_data_address(PeerId(5)).unwrap_err(), Error::PeerLost);
    let bob = found(&mut s, "bob", 1);
    assert_eq!(s.peer_data_address(bob).unwrap_err(), Error::NoGroup);
    let g = started(&mut s, "/groups/0", true, 9);
    assert!(matches!(join(&mut s, g, bob, 1, "bob"), Associated::Joined { .. }));
    match s.peer_data_address(bob).unwrap() {
        SocketAddr::V6 { ip, port, flowinfo, scope_id } => {
            assert!(IpAddr::V6(ip).same(&link_local(1)));
            assert_eq!(port, 40002);
            assert_eq!(flowinfo, 0);
            assert_eq!(scope_id, 4);
        }
        SocketAddr::V4 { .. } => panic!("the peer has an IPv6 address"),
    }
    s.peers.get_mut(bob).unwrap().groups.insert(0, GroupId(4242));
    assert_eq!(s.peer_data_address(bob).unwrap_err(), Error::GroupNotFound);
    s.peers.get_mut(bob).unwrap().groups.remove(0);
    s.groups.get_mut(g).unwrap().peers.clear();
    assert_eq!(s.peer_data_address(bob).unwrap_err(), Error::NoAddress);
}

#[test]
fn member_is_found_by_its_address() {
    let mut s = session("owner", "alice", 14);
    let bob = found(&mut s, "bob", 1);
    let carol = found(&mut s, "carol", 2);
    found(&mut s, "dave", 3);
    let g = started(&mut s, "/groups/0", true, 9);
    assert!(matches!(join(&mut s, g, bob, 1, "bob"), Associated::Joined { .. }));
    assert!(matches!(join(&mut s, g, carol, 2, "carol"), Associated::Joined { .. }));
    assert_eq!(s.peer_id_from_address(g, &link_local(1)), Some(bob));
    assert_eq!(s.peer_id_from_address(g, &link_local(2)), Some(carol));
    assert_eq!(s.peer_id_from_address(g, &link_local(3)), None);
    assert_eq!(s.peer_id_from_address(GroupId(99), &link_local(1)), None);
}

#[test]
fn connect_asks_for_push_button_with_our_intent() {
    let mut s = session("phone", "alice", 14);
    let bob = found(&mut s, "bob", 1);
    match s.connect_to_peer(bob).unwrap() {
        RadioCommand::Connect { peer_path, dev_addr, go_intent, auto_join } => {
            assert_eq!(peer_path, "/peers/1");
            assert!(dev_addr.unwrap().same(&mac(1)));
            assert_eq!(go_intent, 14);
            assert!(auto_join);
        }
        other => panic!("a peer is connected to, not {other:?}"),
    }
    assert_eq!(s.connect_to_peer(PeerId(77)).unwrap_err(), Error::PeerLost);
    match s.connect_to_peer_by_path("/peers/x".to_string()) {
        RadioCommand::Connect { peer_path, dev_addr, go_intent, auto_join } => {
            assert_eq!(peer_path, "/peers/x");
            assert!(dev_addr.is_none());
            assert_eq!(go_intent, 14);
            assert!(auto_join);
        }
        other => panic!("a peer is connected to, not {other:?}"),
    }
}

#[test]
fn push_button_request_is_authorized_on_owned_groups() {
    let mut s = session("phone", "alice", 14);
    found(&mut s, "bob", 1);
    started(&mut s, "/groups/own", true, 9);
    started(&mut s, "/groups/other", false, 8);
    started(&mut s, "/groups/own2", true, 9);
    let commands = s.authorize_wps(&"/peers/1".to_string());
    let mut paths: Vec<String> = commands
        .iter()
        .map(|c| match c {
            RadioCommand::AuthorizeWps { iface_path, dev_addr } => {
                assert!(dev_addr.same(&mac(1)));
                iface_path.clone()
            }
            other => panic!("an interface is authorized, not {other:?}"),
        })
        .collect();
    paths.sort();
    assert_eq!(paths, vec!["/groups/own/iface".to_string(), "/groups/own2/iface".to_string()]);
    assert!(s.authorize_wps(&"/peers/2".to_string()).is_empty());
}

#[test]
fn first_associate_goes_to_the_owners_control_port() {
    let mut s = session("client", "bob", 3);
    let g = started(&mut s, "/groups/0", false, 9);
    assert_eq!(s.initial_associate(g, ports(5000)).unwrap_err(), Error::GroupOwnerUnknown);
    let owner = found(&mut s, "owner", 9);
    let own_key = s.peers.get(owner).unwrap().key_exchange.export_public_key();
    let reply = s.initial_associate(g, ports(5000)).unwrap().unwrap();
    match reply.to {
        SocketAddr::V6 { ip, port, flowinfo, scope_id } => {
            assert!(IpAddr::V6(ip).same(&link_local(9)));
            assert_eq!(port, 9001);
            assert_eq!(flowinfo, 0);
            assert_eq!(scope_id, 4);
        }
        SocketAddr::V4 { .. } => panic!("the owner has a link-local address"),
    }
    let ControlMessage::Associate { physical_id, logical_id, key_exchange_public_key, ports: told } =
        reply.message;
    assert!(matches!(physical_id, PeerOwnIdentifier::Name(n) if n == "client"));
    assert!(logical_id.same(&s.own_identity().to_public()));
    assert_eq!(key_exchange_public_key.0, own_key.0);
    assert_eq!(told, ports(5000));

    assert_eq!(s.initial_associate(GroupId(g.0 + 1), ports(1)).unwrap_err(), Error::GroupNotFound);
    let mut go = session("owner", "alice", 14);
    let own = started(&mut go, "/groups/0", true, 9);
    assert!(go.initial_associate(own, ports(9001)).unwrap().is_none());
}

#[test]
fn events_are_answered() {
    let mut s = session("phone", "alice", 7);
    let r = s.handle_event(RadioEvent::FindStopped);
    assert_eq!(r.notifications, vec![Notification::PeerDiscoveryStopped]);
    assert!(r.commands.is_empty());
    let r = s.handle_event(RadioEvent::Other);
    assert!(r.notifications.is_empty() && r.commands.is_empty());

    let r = s.handle_event(RadioEvent::DeviceFound { identity: device("bob", 1), path: "/p/bob".to_string() });
    let bob = s.peers.id_by_mac(&mac(1)).unwrap();
    assert_eq!(r.notifications, vec![Notification::PeerDiscovered(bob)]);
    let r = s.handle_event(RadioEvent::DeviceFound { identity: device("bob", 1), path: "/p/bob".to_string() });
    assert!(r.notifications.is_empty());

    for event in [
        RadioEvent::GoNegotiationRequest { peer_path: "/p/bob".to_string() },
        RadioEvent::GoNegotiationFailure { peer_path: "/p/bob".to_string() },
    ] {
        let r = s.handle_event(event);
        assert!(r.notifications.is_empty());
        assert_eq!(r.commands.len(), 1);
        assert!(matches!(
            &r.commands[0],
            RadioCommand::Connect { peer_path, dev_addr: None, go_intent: 7, auto_join: true }
                if peer_path == "/p/bob"
        ));
    }

    let r = s.handle_event(RadioEvent::GroupStarted(GroupStarted {
        path: "/g/0".to_string(),
        iface_path: "/i/0".to_string(),
        iface_name: "p2p0".to_string(),
        scope_id: 2,
        is_go: true,
        go_address: GroupOwnerAddress::InterfaceMac(mac(9)),
        go_dev_addr: Some(mac(9)),
    }));
    let g = s.groups.id_by_path(&"/g/0".to_string()).unwrap();
    assert_eq!(r.notifications, vec![Notification::JoinedGroup(g, true)]);
    assert!(matches!(join(&mut s, g, bob, 1, "bob"), Associated::Joined { .. }));

    let r = s.handle_event(RadioEvent::ProvisionDiscoveryPbcRequest { peer_path: "/p/bob".to_string() });
    assert_eq!(r.commands.len(), 1);
    assert!(matches!(
        &r.commands[0],
        RadioCommand::AuthorizeWps { iface_path, dev_addr } if iface_path == "/i/0" && dev_addr.same(&mac(1))
    ));

    let r = s.handle_event(RadioEvent::PeerLeftGroup { group: g, peer_path: "/p/nobody".to_string() });
    assert!(r.notifications.is_empty());
    let r = s.handle_event(RadioEvent::PeerLeftGroup { group: g, peer_path: "/p/bob".to_string() });
    assert_eq!(r.notifications, vec![Notification::PeerLeftGroup(g, bob)]);
    assert!(s.groups.get(g).unwrap().peers.is_empty());

    let r = s.handle_event(RadioEvent::DevicesUpdated(vec![device("bob", 1), device("carol", 2)]));
    let carol = s.peers.id_by_mac(&mac(2)).unwrap();
    assert_eq!(r.notifications, vec![Notification::PeerDiscovered(carol)]);

    let r = s.handle_event(RadioEvent::DeviceLost { path: "/p/nobody".to_string() });
    assert!(r.notifications.is_empty());
    let r = s.handle_event(RadioEvent::DeviceLost { path: "/p/bob".to_string() });
    assert_eq!(r.notifications, vec![Notification::PeerLost(bob)]);

    let r = s.handle_event(RadioEvent::GroupFinished { path: "/g/none".to_string() });
    assert!(r.notifications.is_empty());
    let r = s.handle_event(RadioEvent::GroupFinished { path: "/g/0".to_string() });
    assert_eq!(r.notifications, vec![Notification::LeftGroup(g, true)]);
    assert_eq!(s.groups.len(), 0);
    agrees(&s);
}

#[test]
fn stopping_clears_the_stores() {
    let mut s = session("phone", "alice", 7);
    let bob = found(&mut s, "bob", 1);
    let g = started(&mut s, "/groups/0", true, 9);
    assert!(matches!(join(&mut s, g, bob, 1, "bob"), Associated::Joined { .. }));
    s.clear();
    assert_eq!(s.peers.len(), 0);
    assert_eq!(s.groups.len(), 0);
    assert!(s.peer_identity(bob).is_none());
    assert_eq!(s.own_identity().nickname, "alice");
    assert_eq!(s.go_intent, 7);
}

#[test]
fn two_sessions_discover_associate_and_greet() {
    let mut alice = session("alice's phone", "alice", 14);
    let mut bob = session("bob's phone", "bob", 14);
    let alice_mac = 10;
    let bob_mac = 20;

    let bob_at_alice = found(&mut alice, "bob's phone", bob_mac);
    let alice_at_bob = found(&mut bob, "alice's phone", alice_mac);
    assert!(matches!(bob.connect_to_peer(alice_at_bob), Ok(RadioCommand::Connect { .. })));

    let group_at_alice = started(&mut alice, "/groups/0", true, alice_mac);
    let group_at_bob = started(&mut bob, "/groups/7", false, alice_mac);
    let (control, _, _) = alice.listen_ports(group_at_alice).unwrap();
    assert_eq!(control, 9001);
    let alice_ports = P2pPorts { control: 9001, p2p: 41000 };
    let bob_ports = P2pPorts { control: 42000, p2p: 42001 };
    assert!(alice.initial_associate(group_at_alice, alice_ports).unwrap().is_none());

    let hello = bob.initial_associate(group_at_bob, bob_ports).unwrap().unwrap();
    assert!(matches!(hello.to, SocketAddr::V6 { port: 9001, scope_id: 4, .. }));
    let wire = write_control_message(&hello.message).unwrap();
    let (message, consumed) = read_control_message(&wire).unwrap();
    assert_eq!(consumed, wire.len());
    let outcome = alice.associate(group_at_alice, link_local(bob_mac), message, alice_ports);
    let Associated::Joined { peer, reply } = outcome else { panic!("bob joins alice's group") };
    assert_eq!(peer, bob_at_alice);

    let echo = reply.unwrap();
    assert!(matches!(echo.to, SocketAddr::V6 { port: 42000, scope_id: 4, .. }));
    let wire = write_control_message(&echo.message).unwrap();
    let (message, _) = read_control_message(&wire).unwrap();
    let outcome = bob.associate(group_at_bob, link_local(alice_mac), message, bob_ports);
    assert!(matches!(outcome, Associated::Joined { peer, reply: None } if peer == alice_at_bob));
    agrees(&alice);
    agrees(&bob);

    let to = bob.peer_data_address(alice_at_bob).unwrap();
    assert!(matches!(to, SocketAddr::V6 { port: 41000, scope_id: 4, .. }));
    let frame = write_peer_message(bob.own_identity(), b"hi").unwrap();

    let from = alice.peer_id_from_address(group_at_alice, &link_local(bob_mac)).unwrap();
    assert_eq!(from, bob_at_alice);
    let sender = alice.peer_identity(from).unwrap().logical.unwrap();
    assert_eq!(sender.display(), bob.own_identity().display());
    let (payload, _) = read_peer_message(alice.own_identity(), &sender, &frame).unwrap();
    assert_eq!(payload, b"hi");

    let forger = new_own_id("bob".to_string()).unwrap();
    let forged = write_peer_message(&forger, b"hi").unwrap();
    assert_eq!(
        read_peer_message(alice.own_identity(), &sender, &forged).unwrap_err(),
        Error::BadSignature
    );
    assert_eq!(alice.peers.get(from).unwrap().groups, vec![group_at_alice]);

    let nonce = nonce_from(0, &[1; 8]);
    let mut secret = b"for alice only".to_vec();
    let bobs = bob.peers.get(alice_at_bob).unwrap().key_exchange.encryption_keys().unwrap();
    bobs.seal_with_nonce(&nonce, &mut secret).unwrap();
    let alices = alice.peers.get(bob_at_alice).unwrap().key_exchange.encryption_keys().unwrap();
    assert_eq!(alices.open_with_nonce(&nonce, &mut secret), Ok(()));
    assert_eq!(secret, b"for alice only");
}

#[test]
fn radio_without_wifi_direct_is_refused() {
    assert!(has_p2p_support(&vec!["ap".to_string(), "p2p".to_string()]));
    assert!(has_p2p_support(&vec!["p2p".to_string()]));
    assert!(!has_p2p_support(&vec!["ap".to_string(), "P2P".to_string(), "p2p ".to_string()]));
    assert!(!has_p2p_support(&Vec::new()));
}

#[test]
fn radio_is_configured_with_name_and_intent() {
    let init = SessionInit {
        interface_name: Some("wlan0".to_string()),
        device_name: "phone".to_string(),
        identity: new_own_id("alice".to_string()).unwrap(),
        go_intent: 15,
    };
    assert!(matches!(
        init.configure(),
        RadioCommand::Configure { interface_name: Some(iface), device_name, go_intent: 15 }
            if device_name == "phone" && iface == "wlan0"
    ));
}

#[test]
fn devices_are_told_as_names_and_addresses() {
    let details: Vec<String> =
        ["bob", "02:00:00:00:00:01", "carol", "02-00-00-00-00-02"].iter().map(|s| s.to_string()).collect();
    let devices = devices_from_details(&details).unwrap();
    assert_eq!(devices.len(), 2);
    assert_eq!(devices[0].name, "bob");
    assert!(devices[0].dev_addr.same(&mac(1)));
    assert_eq!(devices[1].name, "carol");
    assert!(devices[1].dev_addr.same(&mac(2)));
    assert!(devices_from_details(&Vec::new()).unwrap().is_empty());
    assert!(devices_from_details(&details[..3].to_vec()).is_none());
    let bad: Vec<String> = ["bob", "nowhere"].iter().map(|s| s.to_string()).collect();
    assert!(devices_from_details(&bad).is_none());
}

#[test]
fn peer_is_found_by_the_text_of_its_address() {
    let mut s = session("phone", "alice", 14);
    let bob = found(&mut s, "bob", 1);
    assert_eq!(s.peer_id_by_mac_text("02:00:00:00:00:01"), Some(bob));
    assert_eq!(s.peer_id_by_mac_text("02:00:00:00:00:02"), None);
    assert_eq!(s.peer_id_by_mac_text("bob"), None);
}

#[test]
fn identity_is_shown_as_three_texts() {
    let mut s = session("owner", "alice", 14);
    let bob = found(&mut s, "bob", 1);
    let g = started(&mut s, "/groups/0", true, 9);
    assert_eq!(
        s.peer_identity(bob).unwrap().texts(),
        ("bob".to_string(), "02:00:00:00:00:01".to_string(), None)
    );
    assert!(matches!(join(&mut s, g, bob, 1, "bob"), Associated::Joined { .. }));
    assert_eq!(
        s.peer_identity(bob).unwrap().texts(),
        ("bob".to_string(), "02:00:00:00:00:01".to_string(), Some("bob#010101".to_string()))
    );
}

#[test]
fn pairing_is_by_push_button() {
    assert_eq!(ngn::session::WPS_METHOD, "pbc");
}

#[test]
fn found_device_of_a_known_path_is_no_second_peer() {
    let mut s = session("phone", "alice", 14);
    let bob = found(&mut s, "bob", 1);
    let again = s.device_found(device("bob", 2), "/peers/1".to_string(), KeyExchange::new().ok().unwrap());
    assert!(again.is_empty());
    assert_eq!(s.peers.len(), 1);
    assert!(s.peers.id_by_mac(&mac(2)).is_none());
    assert_eq!(s.peer_id_by_path(&"/peers/1".to_string()), Some(bob));

    let first = s.device_found(device("carol", 3), String::new(), KeyExchange::new().ok().unwrap());
    let second = s.device_found(device("dave", 4), String::new(), KeyExchange::new().ok().unwrap());
    assert_eq!(first.len(), 1);
    assert_eq!(second.len(), 1);
    assert_eq!(s.peers.len(), 3);
    agrees(&s);
}

#[test]
fn sender_is_the_associated_member_of_that_address() {
    let mut s = session("owner", "alice", 14);
    let bob = found(&mut s, "bob", 1);
    found(&mut s, "carol", 2);
    let g = started(&mut s, "/groups/0", true, 9);
    assert!(s.sender_of(g, &link_local(1)).is_none());
    assert!(matches!(join(&mut s, g, bob, 1, "bob"), Associated::Joined { .. }));
    let (peer, identity) = s.sender_of(g, &link_local(1)).unwrap();
    assert_eq!(peer, bob);
    assert!(identity.same(&logical("bob", 1)));
    assert!(s.sender_of(g, &link_local(2)).is_none());
    assert!(s.sender_of(GroupId(g.0 + 1), &link_local(1)).is_none());
    s.peers.get_mut(bob).unwrap().identity.logical = None;
    assert!(s.sender_of(g, &link_local(1)).is_none());
}

#[test]
fn associate_finishes_the_exchange_with_the_key_of_the_message() {
    let mut s = session("owner", "alice", 14);
    let bob = found(&mut s, "bob", 1);
    let g = started(&mut s, "/groups/0", true, 9);
    let own_key = s.peers.get(bob).unwrap().key_exchange.export_public_key();
    let mut theirs = KeyExchange::new().ok().unwrap();
    let outcome = s.associate_peer(
        g,
        bob,
        link_local(1),
        logical("bob", 1),
        theirs.export_public_key(),
        ports(7),
        ports(9001),
    );
    assert!(matches!(outcome, Associated::Joined { .. }));
    assert_eq!(theirs.finish(&own_key), Ok(()));
    let nonce = nonce_from(3, &[9; 8]);
    let mut data = b"only with this key".to_vec();
    theirs.encryption_keys().unwrap().seal_with_nonce(&nonce, &mut data).unwrap();
    let ours = s.peers.get(bob).unwrap().key_exchange.encryption_keys().unwrap();
    assert_eq!(ours.open_with_nonce(&nonce, &mut data), Ok(()));
    assert_eq!(data, b"only with this key");
}

#[test]
fn updated_devices_announce_each_new_peer_once() {
    let mut s = session("owner", "alice", 14);
    let notes = s.update_devices(&vec![device("a", 1), device("b", 2), device("a too", 1)]);
    let a = s.peers.id_by_mac(&mac(1)).unwrap();
    let b = s.peers.id_by_mac(&mac(2)).unwrap();
    assert_eq!(notes, vec![Notification::PeerDiscovered(a), Notification::PeerDiscovered(b)]);
    let record = s.peers.get(a).unwrap();
    assert_eq!(record.identity.physical.name, "a");
    assert!(record.identity.logical.is_none());
    assert!(record.groups.is_empty());
    assert_eq!(record.key_exchange.status(), ExchangeStatus::InProgress);
}
