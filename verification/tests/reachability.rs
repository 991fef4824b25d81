use ckb_network::address::{
    addr_reachable, filter_reachable, ip4_reachable, socket_port, with_peer, with_port,
    NetAddress,
};

fn sock(a: u8, b: u8, c: u8, d: u8, port: u16) -> NetAddress {
    NetAddress::Socket { a, b, c, d, port, peer: None }
}

#[test]
fn loopback_and_private_ranges_are_not_reachable() {
    assert!(!ip4_reachable(127, 0, 0, 1));
    assert!(!ip4_reachable(10, 1, 2, 3));
    assert!(!ip4_reachable(172, 16, 0, 1));
    assert!(!ip4_reachable(172, 31, 255, 255));
    assert!(!ip4_reachable(192, 168, 1, 1));
    assert!(!ip4_reachable(169, 254, 0, 1));
    assert!(!ip4_reachable(0, 0, 0, 0));
    assert!(!ip4_reachable(255, 255, 255, 255));
}

#[test]
fn public_hosts_are_reachable() {
    assert!(ip4_reachable(8, 8, 8, 8));
    assert!(ip4_reachable(1, 1, 1, 1));
    assert!(ip4_reachable(172, 32, 0, 1));
    assert!(ip4_reachable(172, 15, 0, 1));
}

#[test]
fn global_mode_filters_private_keeps_public() {
    let addrs = vec![
        sock(127, 0, 0, 1, 8115),
        sock(8, 8, 8, 8, 8115),
        sock(192, 168, 0, 2, 8115),
        NetAddress::Opaque { data: b"/dns4/x".to_vec() },
        sock(1, 2, 3, 4, 80),
    ];
    let kept = filter_reachable(&addrs, true);
    assert_eq!(kept.len(), 2);
    assert!(matches!(kept[0], NetAddress::Socket { a: 8, .. }));
    assert!(matches!(kept[1], NetAddress::Socket { a: 1, .. }));
}

#[test]
fn permissive_mode_keeps_private_sockets_but_never_opaque() {
    let addrs = vec![
        sock(127, 0, 0, 1, 8115),
        NetAddress::Opaque { data: b"/dns4/x".to_vec() },
        sock(8, 8, 8, 8, 8115),
    ];
    let kept = filter_reachable(&addrs, false);
    assert_eq!(kept.len(), 2);
    assert!(matches!(kept[0], NetAddress::Socket { a: 127, .. }));
}

#[test]
fn port_and_peer_helpers() {
    let s = sock(9, 9, 9, 9, 443);
    assert_eq!(socket_port(&s), Some(443));
    assert_eq!(socket_port(&NetAddress::Opaque { data: Vec::new() }), None);
    let with = with_port(&s, 8115);
    assert_eq!(socket_port(&with), Some(8115));
    let peered = with_peer(s, &b"QmSelf".to_vec());
    match &peered {
        NetAddress::Socket { peer, .. } => assert_eq!(peer.as_ref().unwrap(), &b"QmSelf".to_vec()),
        _ => panic!("socket expected"),
    }
    // an existing suffix is kept
    let peered2 = with_peer(peered, &b"QmOther".to_vec());
    match &peered2 {
        NetAddress::Socket { peer, .. } => assert_eq!(peer.as_ref().unwrap(), &b"QmSelf".to_vec()),
        _ => panic!("socket expected"),
    }
    assert!(addr_reachable(&sock(8, 8, 8, 8, 1)));
    assert!(!addr_reachable(&sock(10, 0, 0, 1, 1)));
    assert!(!addr_reachable(&NetAddress::Opaque { data: Vec::new() }));
}
