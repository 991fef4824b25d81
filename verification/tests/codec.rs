use ckb_network::address::NetAddress;
use ckb_network::wire::{addr_wf, IdentifyPayload};

fn sample_payload() -> IdentifyPayload {
    IdentifyPayload {
        name: b"/ckb".to_vec(),
        flags: 1,
        client_version: b"0.200.0".to_vec(),
        listen_addrs: vec![
            NetAddress::Socket { a: 8, b: 8, c: 8, d: 8, port: 8115, peer: None },
            NetAddress::Socket {
                a: 1,
                b: 2,
                c: 3,
                d: 4,
                port: 80,
                peer: Some(b"QmPeer".to_vec()),
            },
            NetAddress::Opaque { data: b"/dns4/node.example/tcp/8115".to_vec() },
        ],
        observed_addr: NetAddress::Socket { a: 5, b: 6, c: 7, d: 8, port: 9000, peer: None },
    }
}

#[test]
fn round_trip_keeps_every_field() {
    let p = sample_payload();
    let bytes = p.encode();
    let q = IdentifyPayload::decode(&bytes).expect("the encoding must decode");
    assert_eq!(q.name, b"/ckb".to_vec());
    assert_eq!(q.flags, 1);
    assert_eq!(q.client_version, b"0.200.0".to_vec());
    assert_eq!(q.listen_addrs.len(), 3);
    match &q.listen_addrs[1] {
        NetAddress::Socket { a, b, c, d, port, peer } => {
            assert_eq!((*a, *b, *c, *d, *port), (1, 2, 3, 4, 80));
            assert_eq!(peer.as_ref().unwrap(), &b"QmPeer".to_vec());
        }
        _ => panic!("second listen address must be a socket"),
    }
    match &q.listen_addrs[2] {
        NetAddress::Opaque { data } => {
            assert_eq!(data, &b"/dns4/node.example/tcp/8115".to_vec())
        }
        _ => panic!("third listen address must be opaque"),
    }
    match &q.observed_addr {
        NetAddress::Socket { a, port, .. } => {
            assert_eq!(*a, 5);
            assert_eq!(*port, 9000);
        }
        _ => panic!("observed address must be a socket"),
    }
}

#[test]
fn round_trip_of_empty_lists() {
    let p = IdentifyPayload {
        name: Vec::new(),
        flags: 0,
        client_version: Vec::new(),
        listen_addrs: Vec::new(),
        observed_addr: NetAddress::Opaque { data: Vec::new() },
    };
    let bytes = p.encode();
    let q = IdentifyPayload::decode(&bytes).expect("the encoding must decode");
    assert!(q.name.is_empty());
    assert_eq!(q.flags, 0);
    assert!(q.listen_addrs.is_empty());
}

#[test]
fn malformed_buffers_fail_cleanly() {
    assert!(IdentifyPayload::decode(&[]).is_none());
    assert!(IdentifyPayload::decode(&[0]).is_none());
    assert!(IdentifyPayload::decode(&[255, 255, 1, 2, 3]).is_none());
    let p = sample_payload();
    let bytes = p.encode();
    // every strict prefix is rejected
    assert!(IdentifyPayload::decode(&bytes[..bytes.len() - 1]).is_none());
    assert!(IdentifyPayload::decode(&bytes[..5]).is_none());
    // trailing garbage is rejected
    let mut long = bytes.clone();
    long.push(0);
    assert!(IdentifyPayload::decode(&long).is_none());
    // an unknown address tag is rejected
    let mut bad = bytes.clone();
    let tag_pos = 2 + 4 + 8 + 2 + 7 + 2; // name, flags, version, count, first addr tag
    bad[tag_pos] = 9;
    assert!(IdentifyPayload::decode(&bad).is_none());
}

#[test]
fn addr_wf_checks_the_length_prefix() {
    assert!(addr_wf(&NetAddress::Socket { a: 1, b: 2, c: 3, d: 4, port: 1, peer: None }));
    assert!(addr_wf(&NetAddress::Opaque { data: vec![0; 65535] }));
    assert!(!addr_wf(&NetAddress::Opaque { data: vec![0; 65536] }));
    assert!(!addr_wf(&NetAddress::Socket {
        a: 1,
        b: 2,
        c: 3,
        d: 4,
        port: 1,
        peer: Some(vec![0; 70000]),
    }));
}
