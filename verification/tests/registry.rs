use bytes::Bytes;
use rtp::address::IpAddress;
use rtp::address::SocketAddress;
use rtp::session_management::peer_manager::Fragment;
use rtp::session_management::peer_manager::PeerManager;
use rtp::session_management::peer_manager::PlayoutBufferNode;

fn local() -> SocketAddress {
    SocketAddress::v4(0x7f00_0001, 5004)
}

fn remote(port: u16) -> SocketAddress {
    SocketAddress::v4(0xc0a8_0001, port)
}

fn node(timestamp: u32) -> PlayoutBufferNode {
    PlayoutBufferNode { rtp_timestamp: timestamp, playout_time: 0, coded_data: Vec::new() }
}

#[test]
fn socket_address_constructors() {
    let a = SocketAddress::v4(0x0102_0304, 80);
    assert_eq!(a.ip, IpAddress::V4(0x0102_0304));
    assert_eq!(a.port, 80);
    let b = SocketAddress::v6(1, 443);
    assert_eq!(b.ip, IpAddress::V6(1));
    assert_ne!(a, b);
}

#[test]
fn new_registry_has_no_peers() {
    let manager = PeerManager::new(local(), 42);
    assert_eq!(manager.local_addr, local());
    assert_eq!(manager.local_ssrc, 42);
    assert_eq!(manager.get_peers().len(), 0);
    assert_eq!(manager.get_context(1), None);
}

#[test]
fn add_peer_is_true_once() {
    let mut manager = PeerManager::new(local(), 42);
    assert!(manager.add_peer(7, remote(1), 100));
    assert!(!manager.add_peer(7, remote(2), 200));
    assert_eq!(manager.get_context(7), Some(100));
    assert_eq!(manager.get_peers(), vec![remote(1)]);
}

#[test]
fn local_source_is_never_a_peer() {
    let mut manager = PeerManager::new(local(), 42);
    assert!(!manager.add_peer(42, remote(1), 100));
    assert_eq!(manager.get_context(42), None);
    assert_eq!(manager.get_peers().len(), 0);
}

#[test]
fn get_peers_lists_every_address_once() {
    let mut manager = PeerManager::new(local(), 0);
    for ssrc in 1u32..=20 {
        assert!(manager.add_peer(ssrc, remote(ssrc as u16), ssrc as usize));
    }
    let mut ports: Vec<u16> = manager.get_peers().iter().map(|a| a.port).collect();
    ports.sort();
    let expected: Vec<u16> = (1u16..=20).collect();
    assert_eq!(ports, expected);
}

#[test]
fn two_peers_may_share_an_address() {
    let mut manager = PeerManager::new(local(), 0);
    assert!(manager.add_peer(1, remote(9), 0));
    assert!(manager.add_peer(2, remote(9), 0));
    assert_eq!(manager.get_peers(), vec![remote(9), remote(9)]);
}

#[test]
fn min_window_is_kept_per_peer() {
    let mut manager = PeerManager::new(local(), 0);
    manager.add_peer(1, remote(1), 0);
    manager.add_peer(2, remote(2), 0);
    assert_eq!(manager.peer_get_min_window(1, 50), Some(50));
    assert_eq!(manager.peer_get_min_window(2, 70), Some(70));
    assert_eq!(manager.peer_get_min_window(1, 60), Some(50));
    assert_eq!(manager.peer_get_min_window(2, 65), Some(65));
}

#[test]
fn unknown_source_gets_no_offset() {
    let mut manager = PeerManager::new(local(), 0);
    manager.add_peer(1, remote(1), 0);
    assert_eq!(manager.peer_get_min_window(9, 5), None);
}

#[test]
fn playout_nodes_go_to_the_peer_and_come_back() {
    let mut manager = PeerManager::new(local(), 0);
    manager.add_peer(1, remote(1), 0);
    manager.add_playout_node_to_peer(1, node(10), Fragment::new(2, Bytes::copy_from_slice(&[2])));
    manager.add_playout_node_to_peer(1, node(10), Fragment::new(1, Bytes::copy_from_slice(&[1])));
    manager.add_playout_node_to_peer(1, node(20), Fragment::new(3, Bytes::copy_from_slice(&[3])));
    manager.add_playout_node_to_peer(5, node(30), Fragment::new(4, Bytes::copy_from_slice(&[4])));
    assert!(manager.pop_node(5).is_none());
    let newest = manager.pop_node(1).unwrap();
    assert_eq!(newest.rtp_timestamp, 20);
    let older = manager.pop_node(1).unwrap();
    assert_eq!(older.rtp_timestamp, 10);
    let data: Vec<u8> = older.coded_data.iter().map(|f| f.data[0]).collect();
    assert_eq!(data, vec![1, 2]);
    assert!(manager.pop_node(1).is_none());
    assert_eq!(manager.get_context(1), Some(0));
}

#[test]
fn fragments_through_the_registry_are_ordered() {
    let mut manager = PeerManager::new(local(), 0);
    manager.add_peer(1, remote(1), 0);
    for sequence in [5u16, 7, 6] {
        manager.add_playout_node_to_peer(
            1,
            node(10),
            Fragment::new(sequence, Bytes::copy_from_slice(&[sequence as u8])),
        );
    }
    let frame = manager.pop_node(1).unwrap();
    let extended: Vec<u64> = frame.coded_data.iter().map(|f| f.extended_sequence_num).collect();
    assert_eq!(extended, vec![5, 6, 7]);
}
