use ckb_network::flags::{Flag, Flags};
use ckb_network::support::SupportProtocols;

#[test]
fn contains_is_bitwise_cover() {
    let a = Flags(0b1011);
    assert!(a.contains(Flags(0b0001)));
    assert!(a.contains(Flags(0b1010)));
    assert!(a.contains(Flags(0b1011)));
    assert!(!a.contains(Flags(0b0100)));
    assert!(!a.contains(Flags(0b1111)));
}

#[test]
fn contains_is_reflexive() {
    for v in [0u64, 1, 2, 0xff, u64::MAX] {
        assert!(Flags(v).contains(Flags(v)));
    }
}

#[test]
fn contains_is_transitive_on_samples() {
    let a = Flags(0b111);
    let b = Flags(0b101);
    let c = Flags(0b001);
    assert!(a.contains(b));
    assert!(b.contains(c));
    assert!(a.contains(c));
}

#[test]
fn full_node_flag_is_bit_one() {
    assert_eq!(Flag::FullNode.bits(), 0x1);
    let f: Flags = Flag::FullNode.into();
    assert_eq!(f, Flags(1));
    let g: Flags = 5u64.into();
    assert_eq!(g, Flags(5));
}

#[test]
fn protocol_ids_match_the_table() {
    assert_eq!(SupportProtocols::Ping.protocol_id(), 0);
    assert_eq!(SupportProtocols::Discovery.protocol_id(), 1);
    assert_eq!(SupportProtocols::Identify.protocol_id(), 2);
    assert_eq!(SupportProtocols::Feeler.protocol_id(), 3);
    assert_eq!(SupportProtocols::DisconnectMessage.protocol_id(), 4);
    assert_eq!(SupportProtocols::Sync.protocol_id(), 100);
    assert_eq!(SupportProtocols::RelayV2.protocol_id(), 101);
    assert_eq!(SupportProtocols::Time.protocol_id(), 102);
    assert_eq!(SupportProtocols::Alert.protocol_id(), 110);
}

#[test]
fn protocol_names_match_the_table() {
    assert_eq!(SupportProtocols::Ping.name(), "/ckb/ping");
    assert_eq!(SupportProtocols::Discovery.name(), "/ckb/discovery");
    assert_eq!(SupportProtocols::Identify.name(), "/ckb/identify");
    assert_eq!(SupportProtocols::Feeler.name(), "/ckb/flr");
    assert_eq!(SupportProtocols::DisconnectMessage.name(), "/ckb/disconnectmsg");
    assert_eq!(SupportProtocols::Sync.name(), "/ckb/syn");
    assert_eq!(SupportProtocols::RelayV2.name(), "/ckb/relay");
    assert_eq!(SupportProtocols::Time.name(), "/ckb/tim");
    assert_eq!(SupportProtocols::Alert.name(), "/ckb/alt");
}

#[test]
fn frame_lengths_match_the_table() {
    assert_eq!(SupportProtocols::Ping.max_frame_length(), 1024);
    assert_eq!(SupportProtocols::Discovery.max_frame_length(), 512 * 1024);
    assert_eq!(SupportProtocols::Identify.max_frame_length(), 2 * 1024);
    assert_eq!(SupportProtocols::Feeler.max_frame_length(), 1024);
    assert_eq!(SupportProtocols::DisconnectMessage.max_frame_length(), 1024);
    assert_eq!(SupportProtocols::Sync.max_frame_length(), 2 * 1024 * 1024);
    assert_eq!(SupportProtocols::RelayV2.max_frame_length(), 4 * 1024 * 1024);
    assert_eq!(SupportProtocols::Time.max_frame_length(), 1024);
    assert_eq!(SupportProtocols::Alert.max_frame_length(), 128 * 1024);
}

#[test]
fn versions_are_version_two() {
    let v = SupportProtocols::Identify.support_versions();
    assert_eq!(v.len(), 1);
    assert_eq!(v[0], "2");
}

#[test]
fn only_bulk_protocols_block_on_receive() {
    let sync = SupportProtocols::Sync.flag();
    assert!(sync.received);
    assert!(!sync.connected && !sync.disconnected && !sync.notify);
    let relay = SupportProtocols::RelayV2.flag();
    assert!(relay.received);
    let ping = SupportProtocols::Ping.flag();
    assert!(!ping.received && !ping.connected && !ping.disconnected && !ping.notify);
    let identify = SupportProtocols::Identify.flag();
    assert!(!identify.received);
}
