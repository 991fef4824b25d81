use ckb_network::identify::{
    IdentifyCallback, IdentifyProtocol, ListensOutcome, Misbehavior, MisbehaveResult,
    ObservedOutcome, ReceivedOutcome, SessionInfo, SessionType, VerifyOutcome,
};
use ckb_network::address::NetAddress;
use ckb_network::wire::IdentifyPayload;

fn sock(a: u8, b: u8, c: u8, d: u8, port: u16) -> NetAddress {
    NetAddress::Socket { a, b, c, d, port, peer: None }
}

fn callback() -> IdentifyCallback {
    IdentifyCallback::new(b"QmSelf".to_vec(), "/ckb".to_string(), "0.200.0".to_string())
}

fn protocol() -> IdentifyProtocol {
    IdentifyProtocol::new(callback())
}

fn outbound_session(id: u64) -> SessionInfo {
    SessionInfo { id, ty: SessionType::Outbound, address: sock(20, 30, 40, 50, 8115) }
}

fn inbound_session(id: u64) -> SessionInfo {
    SessionInfo { id, ty: SessionType::Inbound, address: sock(20, 30, 40, 50, 8115) }
}

fn remote_payload(name: &[u8], flags: u64, listens: Vec<NetAddress>) -> Vec<u8> {
    IdentifyPayload {
        name: name.to_vec(),
        flags,
        client_version: b"0.199.0".to_vec(),
        listen_addrs: listens,
        observed_addr: sock(99, 88, 77, 66, 4000),
    }
    .encode()
}

#[test]
fn connected_sends_identity_and_filtered_addresses() {
    let mut proto = protocol();
    let public = vec![sock(8, 8, 8, 8, 8115), sock(192, 168, 0, 1, 8115)];
    let out = proto.connected(outbound_session(7), &"2".to_string(), 0, public);
    assert_eq!(out.register.session, 7);
    assert_eq!(out.register.version, "2");
    assert!(out.register.add_outbound_addr.is_some());
    let sent = IdentifyPayload::decode(&out.message).expect("our own payload must decode");
    assert_eq!(sent.name, b"/ckb".to_vec());
    assert_eq!(sent.flags, 1);
    assert_eq!(sent.client_version, b"0.200.0".to_vec());
    // the private address is not advertised
    assert_eq!(sent.listen_addrs.len(), 1);
    assert!(matches!(sent.listen_addrs[0], NetAddress::Socket { a: 8, .. }));
    // the peer is told which address we see it under
    assert!(matches!(sent.observed_addr, NetAddress::Socket { a: 20, .. }));
    assert!(proto.has_session(7));
}

#[test]
fn inbound_connected_stores_no_outbound_addr() {
    let mut proto = protocol();
    let out = proto.connected(inbound_session(9), &"2".to_string(), 0, Vec::new());
    assert!(out.register.add_outbound_addr.is_none());
}

#[test]
fn first_receipt_continues_second_is_duplicate() {
    let mut proto = protocol();
    let public = vec![sock(8, 8, 8, 8, 8115)];
    proto.connected(outbound_session(1), &"2".to_string(), 0, Vec::new());
    let data = remote_payload(b"/ckb", 1, vec![sock(99, 88, 77, 66, 4000)]);
    match proto.received(1, &data, false, &public) {
        ReceivedOutcome::Checked { duplicate, identity, listens, .. } => {
            assert_eq!(duplicate, MisbehaveResult::Continue);
            assert!(matches!(identity, VerifyOutcome::OpenAllProtocols { .. }));
            assert!(matches!(listens, ListensOutcome::Accepted { .. }));
        }
        _ => panic!("a valid payload must reach the checks"),
    }
    let again = proto.received(1, &data, false, &public);
    match &again {
        ReceivedOutcome::Checked { duplicate, .. } => {
            assert_eq!(*duplicate, MisbehaveResult::Disconnect);
        }
        _ => panic!("a valid payload must reach the checks"),
    }
    assert_eq!(again.disconnect_requests(), 1);
}

#[test]
fn eleven_addresses_disconnect_ten_continue() {
    let mut proto = protocol();
    let public = Vec::new();
    proto.connected(outbound_session(1), &"2".to_string(), 0, Vec::new());
    proto.connected(outbound_session(2), &"2".to_string(), 0, Vec::new());
    let eleven: Vec<NetAddress> = (0..11).map(|i| sock(8, 8, 8, i as u8, 8115)).collect();
    let data = remote_payload(b"/ckb", 1, eleven);
    let out = proto.received(1, &data, false, &public);
    match &out {
        ReceivedOutcome::Checked { listens, .. } => match listens {
            ListensOutcome::TooMany { count } => assert_eq!(*count, 11),
            _ => panic!("eleven addresses must be flagged"),
        },
        _ => panic!("a valid payload must reach the checks"),
    }
    assert_eq!(out.disconnect_requests(), 1);
    let ten: Vec<NetAddress> = (0..10).map(|i| sock(8, 8, 8, i as u8, 8115)).collect();
    let data = remote_payload(b"/ckb", 1, ten);
    let out = proto.received(2, &data, false, &public);
    match &out {
        ReceivedOutcome::Checked { listens, .. } => match listens {
            ListensOutcome::Accepted { addrs } => assert_eq!(addrs.len(), 10),
            _ => panic!("ten addresses must be accepted"),
        },
        _ => panic!("a valid payload must reach the checks"),
    }
    assert_eq!(out.disconnect_requests(), 0);
}

#[test]
fn undecodable_data_is_invalid_data() {
    let mut proto = protocol();
    proto.connected(outbound_session(1), &"2".to_string(), 0, Vec::new());
    let out = proto.received(1, &[1, 2, 3], false, &Vec::new());
    match &out {
        ReceivedOutcome::InvalidData { verdict } => {
            assert_eq!(*verdict, MisbehaveResult::Disconnect)
        }
        _ => panic!("garbage must be classified as invalid data"),
    }
    assert_eq!(out.disconnect_requests(), 1);
    // the session still awaits its first valid payload
    assert_eq!(proto.notify(9000), vec![1]);
}

#[test]
fn later_checks_still_run_after_a_duplicate() {
    let mut proto = protocol();
    proto.connected(outbound_session(1), &"2".to_string(), 0, Vec::new());
    let valid = remote_payload(b"/ckb", 1, Vec::new());
    proto.received(1, &valid, false, &Vec::new());
    let eleven: Vec<NetAddress> = (0..11).map(|i| sock(8, 8, 8, i as u8, 8115)).collect();
    let second = remote_payload(b"/ckb", 1, eleven);
    let out = proto.received(1, &second, false, &Vec::new());
    match &out {
        ReceivedOutcome::Checked { duplicate, listens, .. } => {
            assert_eq!(*duplicate, MisbehaveResult::Disconnect);
            assert!(matches!(listens, ListensOutcome::TooMany { count: 11 }));
        }
        _ => panic!("a valid payload must reach the checks"),
    }
    // both offending checks request their own disconnect
    assert_eq!(out.disconnect_requests(), 2);
}

#[test]
fn timeout_sweep_flags_only_overdue_sessions() {
    let mut proto = protocol();
    proto.connected(outbound_session(1), &"2".to_string(), 0, Vec::new());
    // 7.9 s after connecting: within the 8 s timeout
    assert!(proto.notify(7900).is_empty());
    // one sweep tick past the timeout
    assert_eq!(proto.notify(9000), vec![1]);
    // a session that delivered its payload is never flagged
    let data = remote_payload(b"/ckb", 1, Vec::new());
    proto.received(1, &data, false, &Vec::new());
    assert!(proto.notify(9000).is_empty());
}

#[test]
fn matching_flags_open_all_and_missing_bit_disconnects_without_ban() {
    let mut proto = protocol();
    proto.connected(outbound_session(1), &"2".to_string(), 0, Vec::new());
    proto.connected(outbound_session(2), &"2".to_string(), 0, Vec::new());
    // session A: flags fully cover the local requirement
    let a = proto.received(1, &remote_payload(b"/ckb", 1, Vec::new()), false, &Vec::new());
    match &a {
        ReceivedOutcome::Checked { identity, .. } => {
            assert!(matches!(identity, VerifyOutcome::OpenAllProtocols { .. }));
            assert!(identity.ban_request(1).is_none());
        }
        _ => panic!("a valid payload must reach the checks"),
    }
    assert_eq!(a.disconnect_requests(), 0);
    // session B: the full-node bit is missing
    let b = proto.received(2, &remote_payload(b"/ckb", 2, Vec::new()), false, &Vec::new());
    match &b {
        ReceivedOutcome::Checked { identity, .. } => {
            assert!(matches!(identity, VerifyOutcome::FlagsMismatch));
            assert!(identity.ban_request(2).is_none());
        }
        _ => panic!("a valid payload must reach the checks"),
    }
    assert_eq!(b.disconnect_requests(), 1);
}

#[test]
fn different_network_is_banned() {
    let mut proto = protocol();
    proto.connected(outbound_session(1), &"2".to_string(), 0, Vec::new());
    let out = proto.received(1, &remote_payload(b"/other", 1, Vec::new()), false, &Vec::new());
    match &out {
        ReceivedOutcome::Checked { identity, .. } => {
            assert!(matches!(identity, VerifyOutcome::BanDifferentNetwork));
            let ban = identity.ban_request(1).expect("a different network is banned");
            assert_eq!(ban.session, 1);
            assert_eq!(ban.duration_ms, 300_000);
            assert_eq!(ban.reason, "different network");
        }
        _ => panic!("a valid payload must reach the checks"),
    }
    assert_eq!(out.disconnect_requests(), 1);
}

#[test]
fn zero_flags_disconnect_without_ban() {
    let mut proto = protocol();
    proto.connected(outbound_session(1), &"2".to_string(), 0, Vec::new());
    let out = proto.received(1, &remote_payload(b"/ckb", 0, Vec::new()), false, &Vec::new());
    match &out {
        ReceivedOutcome::Checked { identity, .. } => {
            assert!(matches!(identity, VerifyOutcome::InvalidFlags));
            assert!(identity.ban_request(1).is_none());
        }
        _ => panic!("a valid payload must reach the checks"),
    }
    assert_eq!(out.disconnect_requests(), 1);
}

#[test]
fn outbound_feeler_opens_only_the_feeler_protocol() {
    let mut proto = protocol();
    proto.connected(outbound_session(1), &"2".to_string(), 0, Vec::new());
    let out = proto.received(1, &remote_payload(b"/ckb", 1, Vec::new()), true, &Vec::new());
    match &out {
        ReceivedOutcome::Checked { identity, .. } => {
            assert!(matches!(identity, VerifyOutcome::OpenFeeler))
        }
        _ => panic!("a valid payload must reach the checks"),
    }
}

#[test]
fn inbound_sessions_are_not_flag_gated() {
    let mut proto = protocol();
    proto.connected(inbound_session(1), &"2".to_string(), 0, Vec::new());
    // flags miss the local requirement, but the peer already connected to us
    let out = proto.received(1, &remote_payload(b"/ckb", 2, Vec::new()), false, &Vec::new());
    match &out {
        ReceivedOutcome::Checked { identity, .. } => match identity {
            VerifyOutcome::InboundAccept { version } => {
                assert_eq!(version, &b"0.199.0".to_vec())
            }
            _ => panic!("inbound peers just have their version recorded"),
        },
        _ => panic!("a valid payload must reach the checks"),
    }
    assert_eq!(out.disconnect_requests(), 0);
}

#[test]
fn observed_address_of_inbound_sessions_is_ignored() {
    let mut proto = protocol();
    proto.connected(inbound_session(1), &"2".to_string(), 0, Vec::new());
    let public = vec![sock(8, 8, 8, 8, 8115)];
    let out = proto.received(1, &remote_payload(b"/ckb", 2, Vec::new()), false, &public);
    match &out {
        ReceivedOutcome::Checked { observed, .. } => {
            assert!(matches!(observed, ObservedOutcome::Skipped))
        }
        _ => panic!("a valid payload must reach the checks"),
    }
}

#[test]
fn unreachable_observed_address_is_dropped() {
    let mut proto = protocol();
    proto.connected(outbound_session(1), &"2".to_string(), 0, Vec::new());
    let data = IdentifyPayload {
        name: b"/ckb".to_vec(),
        flags: 1,
        client_version: b"v".to_vec(),
        listen_addrs: Vec::new(),
        observed_addr: sock(192, 168, 0, 9, 4000),
    }
    .encode();
    let out = proto.received(1, &data, false, &vec![sock(8, 8, 8, 8, 8115)]);
    match &out {
        ReceivedOutcome::Checked { observed, .. } => {
            assert!(matches!(observed, ObservedOutcome::Skipped))
        }
        _ => panic!("a valid payload must reach the checks"),
    }
}

#[test]
fn reachable_observed_address_yields_one_candidate_per_listen_port() {
    let mut proto = protocol();
    proto.connected(outbound_session(1), &"2".to_string(), 0, Vec::new());
    let public = vec![
        sock(8, 8, 8, 8, 8115),
        NetAddress::Opaque { data: b"/dns4/x".to_vec() },
        sock(8, 8, 4, 4, 9000),
    ];
    let out = proto.received(1, &remote_payload(b"/ckb", 1, Vec::new()), false, &public);
    match &out {
        ReceivedOutcome::Checked { observed, .. } => match observed {
            ObservedOutcome::Candidates { addrs } => {
                // one per socket listen port, plus the raw observed address
                assert_eq!(addrs.len(), 3);
                let ports: Vec<u16> = addrs
                    .iter()
                    .map(|a| match a {
                        NetAddress::Socket { port, .. } => *port,
                        _ => panic!("candidates are sockets"),
                    })
                    .collect();
                assert_eq!(ports, vec![8115, 9000, 4000]);
                for a in addrs {
                    match a {
                        NetAddress::Socket { a, b, c, d, peer, .. } => {
                            assert_eq!((*a, *b, *c, *d), (99, 88, 77, 66));
                            assert_eq!(peer.as_ref().unwrap(), &b"QmSelf".to_vec());
                        }
                        _ => panic!("candidates are sockets"),
                    }
                }
            }
            _ => panic!("a reachable observed address yields candidates"),
        },
        _ => panic!("a valid payload must reach the checks"),
    }
}

#[test]
fn disconnect_removes_the_session_record() {
    let mut proto = protocol();
    proto.connected(outbound_session(4), &"2".to_string(), 0, Vec::new());
    assert!(proto.has_session(4));
    let readd = proto.disconnected(4, false);
    assert!(readd.is_some());
    assert!(!proto.has_session(4));
    // a banned outbound address is not stored again
    proto.connected(outbound_session(5), &"2".to_string(), 0, Vec::new());
    assert!(proto.disconnected(5, true).is_none());
    // an inbound session never stores its address on close
    proto.connected(inbound_session(6), &"2".to_string(), 0, Vec::new());
    assert!(proto.disconnected(6, false).is_none());
}

#[test]
fn accepted_listens_feed_registry_and_store_alike() {
    let cb = callback();
    let addrs = vec![sock(8, 8, 8, 8, 8115), sock(1, 1, 1, 1, 80)];
    let rec = cb.add_remote_listen_addrs(3, addrs);
    assert_eq!(rec.session, 3);
    assert_eq!(rec.record.len(), 2);
    assert_eq!(rec.persist.len(), 2);
    assert!(matches!(rec.record[0], NetAddress::Socket { a: 8, .. }));
    assert!(matches!(rec.persist[1], NetAddress::Socket { a: 1, .. }));
}

#[test]
fn the_default_policy_always_disconnects() {
    let cb = callback();
    assert_eq!(cb.misbehave(Misbehavior::DuplicateReceived), MisbehaveResult::Disconnect);
    assert_eq!(cb.misbehave(Misbehavior::Timeout), MisbehaveResult::Disconnect);
    assert_eq!(cb.misbehave(Misbehavior::InvalidData), MisbehaveResult::Disconnect);
    assert_eq!(cb.misbehave(Misbehavior::TooManyAddresses(11)), MisbehaveResult::Disconnect);
    assert!(MisbehaveResult::Disconnect.is_disconnect());
    assert!(!MisbehaveResult::Continue.is_disconnect());
}

#[test]
fn init_registers_the_one_second_sweep() {
    let proto = protocol();
    let req = proto.init();
    assert_eq!(req.interval_ms, 1000);
    assert_eq!(req.token, 100);
}

#[test]
fn permissive_mode_accepts_private_listen_addresses() {
    let mut proto = protocol().global_ip_only(false);
    proto.connected(outbound_session(1), &"2".to_string(), 0, Vec::new());
    let data = remote_payload(b"/ckb", 1, vec![sock(192, 168, 0, 1, 8115)]);
    let out = proto.received(1, &data, false, &Vec::new());
    match &out {
        ReceivedOutcome::Checked { listens, .. } => match listens {
            ListensOutcome::Accepted { addrs } => assert_eq!(addrs.len(), 1),
            _ => panic!("one address is under the cap"),
        },
        _ => panic!("a valid payload must reach the checks"),
    }
}
