use bytes::Bytes;
use rtp::address::SocketAddress;
use rtp::session_management::peer_manager::Fragment;
use rtp::session_management::peer_manager::Peer;
use rtp::session_management::peer_manager::PlayoutBufferNode;

fn peer() -> Peer {
    Peer::new(77, SocketAddress::v4(0x0a00_0002, 6000), 0xC0FFEE)
}

fn starter(timestamp: u32) -> PlayoutBufferNode {
    PlayoutBufferNode { rtp_timestamp: timestamp, playout_time: timestamp + 1, coded_data: Vec::new() }
}

fn fragment(sequence: u16) -> Fragment {
    Fragment::new(sequence, Bytes::copy_from_slice(&sequence.to_be_bytes()))
}

fn extended_of(peer: &Peer, node: usize) -> Vec<u64> {
    peer.playout_buffer()[node].coded_data.iter().map(|f| f.extended_sequence_num).collect()
}

fn timestamps_of(peer: &Peer) -> Vec<u32> {
    peer.playout_buffer().iter().map(|n| n.rtp_timestamp).collect()
}

#[test]
fn new_peer_is_empty() {
    let peer = peer();
    assert_eq!(peer.remote_ssrc(), 77);
    assert_eq!(peer.rtp_addr(), SocketAddress::v4(0x0a00_0002, 6000));
    assert_eq!(peer.consumer_context(), 0xC0FFEE);
    assert_eq!(peer.max_sequence_number(), None);
    assert_eq!(peer.wrap_around_count(), 0);
    assert_eq!(peer.min_window(), u32::MAX);
    assert_eq!(peer.playout_buffer().len(), 0);
}

#[test]
fn new_fragment_is_not_placed_yet() {
    let f = Fragment::new(9, Bytes::copy_from_slice(&[1, 2, 3]));
    assert_eq!(f.sequence_num, 9);
    assert_eq!(f.extended_sequence_num, 0);
    assert_eq!(&f.data[..], &[1u8, 2, 3][..]);
}

#[test]
fn jitter_min_window() {
    let mut peer = peer();
    assert_eq!(peer.set_and_get_min_window(10), 10);
    assert_eq!(peer.set_and_get_min_window(4), 4);
    assert_eq!(peer.set_and_get_min_window(7), 4);
    assert_eq!(peer.set_and_get_min_window(3), 3);
    assert_eq!(peer.min_window(), 3);
    assert_eq!(peer.set_and_get_min_window(9), 3);
    assert_eq!(peer.min_window(), 3);
    assert_eq!(peer.set_and_get_min_window(2), 2);
    assert_eq!(peer.min_window(), 2);
}

#[test]
fn window_forgets_what_is_older_than_fifty_offsets() {
    let mut peer = peer();
    assert_eq!(peer.set_and_get_min_window(1), 1);
    for _ in 0..49 {
        assert_eq!(peer.set_and_get_min_window(100), 1);
    }
    assert_eq!(peer.set_and_get_min_window(100), 100);
    assert_eq!(peer.set_and_get_min_window(60), 60);
}

#[test]
fn window_minimum_is_wrap_aware() {
    let mut peer = peer();
    assert_eq!(peer.set_and_get_min_window(5), 5);
    assert_eq!(peer.set_and_get_min_window(u32::MAX - 2), u32::MAX - 2);
    assert_eq!(peer.set_and_get_min_window(1), u32::MAX - 2);
}

#[test]
fn window_minimum_of_offsets_half_a_circle_apart() {
    let mut peer = peer();
    assert_eq!(peer.set_and_get_min_window(0), 0);
    assert_eq!(peer.set_and_get_min_window(0x8000_0000), 0);
    assert_eq!(peer.set_and_get_min_window(0x7FFF_FFFF), 0);
    assert_eq!(peer.set_and_get_min_window(0x8000_0001), 0);
}

#[test]
fn sequence_wraparound_on_receive() {
    let mut peer = peer();
    for sequence in [65534u16, 65535, 0, 1, 2] {
        peer.insert(starter(1000), fragment(sequence));
    }
    assert_eq!(peer.playout_buffer().len(), 1);
    assert_eq!(extended_of(&peer, 0), vec![65534, 65535, 65536, 65537, 65538]);
    assert_eq!(peer.wrap_around_count(), 1);
    assert_eq!(peer.max_sequence_number(), Some(2));
}

#[test]
fn sequence_two_right_after_the_last_before_the_wrap() {
    let mut peer = peer();
    assert_eq!(peer.extend_sequence(65535), 65535);
    assert_eq!(peer.extend_sequence(2), 65538);
}

#[test]
fn forward_step_of_just_under_the_dropout_limit_counts() {
    let mut peer = peer();
    assert_eq!(peer.extend_sequence(100), 100);
    assert_eq!(peer.extend_sequence(3099), 3099);
    assert_eq!(peer.max_sequence_number(), Some(3099));
}

#[test]
fn large_jump_leaves_the_highest_number_alone() {
    let mut peer = peer();
    assert_eq!(peer.extend_sequence(100), 100);
    assert_eq!(peer.extend_sequence(3100), 3100);
    assert_eq!(peer.max_sequence_number(), Some(100));
    assert_eq!(peer.extend_sequence(100 + 65435), 65535);
    assert_eq!(peer.max_sequence_number(), Some(100));
    assert_eq!(peer.wrap_around_count(), 0);
}

#[test]
fn late_packet_changes_nothing_and_is_placed_in_the_current_round() {
    let mut peer = peer();
    assert_eq!(peer.extend_sequence(65535), 65535);
    assert_eq!(peer.extend_sequence(1), 65537);
    assert_eq!(peer.extend_sequence(65534), 65534 + 65536);
    assert_eq!(peer.max_sequence_number(), Some(1));
    assert_eq!(peer.wrap_around_count(), 1);
}

#[test]
fn repeated_number_is_no_wrap() {
    let mut peer = peer();
    assert_eq!(peer.extend_sequence(5), 5);
    assert_eq!(peer.extend_sequence(5), 5);
    assert_eq!(peer.wrap_around_count(), 0);
}

#[test]
fn fragments_are_ordered_whatever_the_arrival_order() {
    let mut peer = peer();
    for sequence in [10u16, 14, 11, 13, 12, 9] {
        peer.insert(starter(500), fragment(sequence));
    }
    assert_eq!(extended_of(&peer, 0), vec![9, 10, 11, 12, 13, 14]);
    let wire: Vec<u16> =
        peer.playout_buffer()[0].coded_data.iter().map(|f| f.sequence_num).collect();
    assert_eq!(wire, vec![9, 10, 11, 12, 13, 14]);
}

#[test]
fn out_of_order_fragments_within_reach_are_sorted() {
    let mut peer = peer();
    for sequence in [20u16, 22, 21, 25, 23, 24] {
        peer.insert(starter(500), fragment(sequence));
    }
    assert_eq!(extended_of(&peer, 0), vec![20, 21, 22, 23, 24, 25]);
    let data: Vec<Vec<u8>> =
        peer.playout_buffer()[0].coded_data.iter().map(|f| f.data.to_vec()).collect();
    assert_eq!(data[1], vec![0u8, 21]);
    assert_eq!(data[5], vec![0u8, 25]);
}

#[test]
fn duplicate_fragment_stands_before_its_twin() {
    let mut peer = peer();
    peer.insert(starter(1), Fragment::new(7, Bytes::copy_from_slice(&[1])));
    peer.insert(starter(1), Fragment::new(7, Bytes::copy_from_slice(&[2])));
    let data: Vec<u8> = peer.playout_buffer()[0].coded_data.iter().map(|f| f.data[0]).collect();
    assert_eq!(data, vec![2, 1]);
}

#[test]
fn nodes_are_ordered_by_timestamp() {
    let mut peer = peer();
    let mut sequence: u16 = 0;
    for timestamp in [3000u32, 9000, 6000, 0, 6000, 12000] {
        peer.insert(starter(timestamp), fragment(sequence));
        sequence += 1;
    }
    assert_eq!(timestamps_of(&peer), vec![0, 3000, 6000, 9000, 12000]);
    assert_eq!(extended_of(&peer, 2), vec![2, 4]);
}

#[test]
fn new_node_takes_the_playout_time_of_its_starter_and_only_the_fragment() {
    let mut peer = peer();
    let mut node = starter(40);
    node.coded_data.push(fragment(99));
    peer.insert(node, fragment(1));
    assert_eq!(peer.playout_buffer()[0].playout_time, 41);
    assert_eq!(extended_of(&peer, 0), vec![1]);
    let mut other = starter(40);
    other.playout_time = 1000;
    peer.insert(other, fragment(2));
    assert_eq!(peer.playout_buffer()[0].playout_time, 41);
}

#[test]
fn pop_takes_the_node_with_the_highest_timestamp() {
    let mut peer = peer();
    peer.insert(starter(200), fragment(1));
    peer.insert(starter(100), fragment(2));
    peer.insert(starter(300), fragment(3));
    let node = peer.pop().unwrap();
    assert_eq!(node.rtp_timestamp, 300);
    assert_eq!(node.coded_data.len(), 1);
    assert_eq!(timestamps_of(&peer), vec![100, 200]);
    assert_eq!(peer.pop().unwrap().rtp_timestamp, 200);
    assert_eq!(peer.pop().unwrap().rtp_timestamp, 100);
    assert!(peer.pop().is_none());
}
