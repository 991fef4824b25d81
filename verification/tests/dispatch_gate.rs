use ckb_network::dispatch::{CKBProtocol, DispatchAdapter, VersionMapUpdate};
use ckb_network::flags::Flags;
use ckb_network::identify::Identify;
use ckb_network::support::{BlockingPolicy, SupportProtocols};

#[test]
fn identify_verification_rejects_other_networks() {
    let local = Identify::new("/ckb".to_string(), Flags(1), "0.200.0".to_string());
    // a different network name never matches, whatever the rest holds
    assert!(local.verify(&b"/ckb-testnet".to_vec(), 1, &b"v".to_vec()).is_none());
    assert!(local.verify(&b"".to_vec(), u64::MAX, &b"v".to_vec()).is_none());
    // a zero flags value never matches
    assert!(local.verify(&b"/ckb".to_vec(), 0, &b"v".to_vec()).is_none());
    // otherwise the flags and version are returned
    let (flags, version) = local.verify(&b"/ckb".to_vec(), 3, &b"0.1.0".to_vec()).unwrap();
    assert_eq!(flags, Flags(3));
    assert_eq!(version, b"0.1.0".to_vec());
}

#[test]
fn protocol_from_the_support_table() {
    let p = CKBProtocol::new_with_support_protocol(SupportProtocols::Identify);
    assert_eq!(p.id(), 2);
    assert_eq!(p.protocol_name(), "/ckb/identify");
    assert_eq!(p.max_frame_length(), 2048);
    assert!(p.match_version(&"2".to_string()));
    assert!(!p.match_version(&"1".to_string()));
}

#[test]
fn protocol_from_parts_prefixes_and_sorts() {
    let flag = BlockingPolicy {
        connected: false,
        disconnected: false,
        received: false,
        notify: false,
    };
    let versions = vec!["1".to_string(), "3".to_string(), "2".to_string()];
    let p = CKBProtocol::new("sync".to_string(), 100, versions, 2 * 1024 * 1024, flag);
    assert_eq!(p.id(), 100);
    assert_eq!(p.protocol_name(), "/ckb/sync");
    assert_eq!(p.supported_versions, vec!["3".to_string(), "2".to_string(), "1".to_string()]);
    assert!(p.match_version(&"3".to_string()));
    assert!(!p.match_version(&"4".to_string()));
}

#[test]
fn version_sort_keeps_duplicates() {
    let flag = BlockingPolicy {
        connected: false,
        disconnected: false,
        received: false,
        notify: false,
    };
    let versions = vec![
        "2".to_string(),
        "10".to_string(),
        "2".to_string(),
        "3".to_string(),
    ];
    let p = CKBProtocol::new("x".to_string(), 1, versions, 1024, flag);
    // byte-wise descending order, every duplicate kept
    assert_eq!(
        p.supported_versions,
        vec!["3".to_string(), "2".to_string(), "2".to_string(), "10".to_string()]
    );
}

#[test]
fn registry_bookkeeping_is_unconditional() {
    let adapter = DispatchAdapter { proto_id: 2 };
    // even while the process is shutting down, the version map stays consistent
    let plan = adapter.on_connected(false, 11, &"2".to_string());
    match plan.registry {
        Some(VersionMapUpdate::Insert { session, version }) => {
            assert_eq!(session, 11);
            assert_eq!(version, "2");
        }
        _ => panic!("connect always records the version"),
    }
    assert!(!plan.forward);
    let plan = adapter.on_disconnected(false, 11);
    assert!(matches!(plan.registry, Some(VersionMapUpdate::Remove { session: 11 })));
    assert!(!plan.forward);
}

#[test]
fn handler_forwarding_is_gated_on_the_active_state() {
    let adapter = DispatchAdapter { proto_id: 2 };
    assert!(adapter.on_connected(true, 1, &"2".to_string()).forward);
    assert!(adapter.on_received(true).forward);
    assert!(!adapter.on_received(false).forward);
    assert!(adapter.on_notify(true).forward);
    assert!(!adapter.on_notify(false).forward);
    // startup and polling are never gated
    assert!(adapter.on_init().forward);
    assert!(adapter.on_init().registry.is_none());
    assert!(adapter.on_poll().forward);
    assert!(adapter.on_poll().registry.is_none());
}
