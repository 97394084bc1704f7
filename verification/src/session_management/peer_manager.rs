//! What is kept for each remote peer: the window of arrival offsets, the
//! unwrapping of sequence numbers and the playout buffer.

use crate::address::SocketAddress;
use crate::buffer::bytes_seq;
use crate::session_management::tables::address_table;
use crate::session_management::tables::address_table_entries;
use crate::session_management::tables::address_table_insert;
use crate::session_management::tables::new_address_table;
use crate::session_management::tables::new_peer_table;
use crate::session_management::tables::peer_table;
use crate::session_management::tables::peer_table_contains;
use crate::session_management::tables::peer_table_context;
use crate::session_management::tables::peer_table_insert;
use crate::session_management::tables::peer_table_remove;
use bytes::Bytes;
use dashmap::DashMap;
use std::collections::VecDeque;
use vstd::prelude::*;

verus! {

/// The number of arrival offsets that a peer's window keeps.
pub const WINDOW_SIZE: usize = 50;

/// The largest step forward of a sequence number that counts as the
/// stream going on.
pub const MAX_DROPOUT: u16 = 3000;

/// The payload of one received packet with its place in the stream.
pub struct Fragment {
    pub extended_sequence_num: u64,
    pub sequence_num: u16,
    pub data: Bytes,
}

/// A fragment as a value: its payload as a sequence of octets.
pub struct FragmentView {
    pub extended_sequence_num: u64,
    pub sequence_num: u16,
    pub data: Seq<u8>,
}

impl View for Fragment {
    type V = FragmentView;

    open spec fn view(&self) -> FragmentView {
        FragmentView {
            extended_sequence_num: self.extended_sequence_num,
            sequence_num: self.sequence_num,
            data: bytes_seq(self.data),
        }
    }
}

/// The fragments of a list as values.
pub open spec fn fragment_views(fragments: Seq<Fragment>) -> Seq<FragmentView> {
    Seq::new(fragments.len(), |i: int| fragments[i]@)
}

impl Fragment {
    /// A fragment as it comes off the wire, not yet placed in the stream.
    pub fn new(sequence_num: u16, data: Bytes) -> (fragment: Fragment)
        ensures
            fragment == (Fragment { extended_sequence_num: 0, sequence_num, data }),
            fragment@ == (FragmentView {
                extended_sequence_num: 0,
                sequence_num,
                data: bytes_seq(data),
            }),
    {
        Fragment { sequence_num, data, extended_sequence_num: 0 }
    }
}

/// The fragments received so far of the frame with one timestamp.
pub struct PlayoutBufferNode {
    pub rtp_timestamp: u32,
    pub playout_time: u32,
    pub coded_data: Vec<Fragment>,
}

/// A playout node as a value: its fragments as a sequence.
pub struct NodeView {
    pub rtp_timestamp: u32,
    pub playout_time: u32,
    pub coded_data: Seq<FragmentView>,
}

impl View for PlayoutBufferNode {
    type V = NodeView;

    open spec fn view(&self) -> NodeView {
        NodeView {
            rtp_timestamp: self.rtp_timestamp,
            playout_time: self.playout_time,
            coded_data: fragment_views(self.coded_data@),
        }
    }
}

/// The nodes of a buffer as values.
pub open spec fn node_views(nodes: Seq<PlayoutBufferNode>) -> Seq<NodeView> {
    Seq::new(nodes.len(), |i: int| nodes[i]@)
}

/// Whether `v` comes before `m` on the circle of 32-bit values: the
/// difference `v - m`, wrapping, has its top bit set.
pub open spec fn wrap_less(v: u32, m: u32) -> bool {
    v.wrapping_sub(m) >= 0x8000_0000
}

/// The least offset of a window under the wrap-aware comparison: starting
/// from the first offset, each later one takes over where it comes before
/// the least so far. An empty window has none, which `u32::MAX` stands for.
pub open spec fn wrap_min(window: Seq<u32>) -> u32
    decreases window.len(),
{
    if window.len() == 0 {
        u32::MAX
    } else if window.len() == 1 {
        window[0]
    } else {
        let least = wrap_min(window.drop_last());
        if wrap_less(window.last(), least) {
            window.last()
        } else {
            least
        }
    }
}

/// The window after one more offset has come in: the new offset in front,
/// and no more than the 50 newest kept.
pub open spec fn window_with(window: Seq<u32>, difference: u32) -> Seq<u32> {
    let grown = seq![difference] + window;
    if grown.len() > 50 {
        grown.take(50)
    } else {
        grown
    }
}

/// While all offsets of a window lie within half the circle of each other,
/// the wrap-aware minimum is the smallest of them.
pub proof fn lemma_wrap_min_is_least(window: Seq<u32>)
    requires
        window.len() > 0,
        forall|i: int, j: int|
            0 <= i < window.len() && 0 <= j < window.len() ==> window[i] - window[j] < 0x8000_0000,
    ensures
        exists|i: int| 0 <= i < window.len() && window[i] == wrap_min(window),
        forall|i: int| 0 <= i < window.len() ==> wrap_min(window) <= window[i],
    decreases window.len(),
{
    if window.len() == 1 {
        assert(window[0] == wrap_min(window));
    } else {
        let front = window.drop_last();
        lemma_wrap_min_is_least(front);
        let k = choose|i: int| 0 <= i < front.len() && front[i] == wrap_min(front);
        assert(window[k] == front[k]);
        let least = wrap_min(front);
        let last = window.last();
        assert(wrap_less(last, least) == (last < least));
        if wrap_less(last, least) {
            assert(window[window.len() - 1] == wrap_min(window));
            assert forall|i: int| 0 <= i < window.len() implies wrap_min(window) <= window[i] by {
                if i < front.len() {
                    assert(front[i] == window[i]);
                }
            }
        } else {
            assert(window[k] == wrap_min(window));
            assert forall|i: int| 0 <= i < window.len() implies wrap_min(window) <= window[i] by {
                if i < front.len() {
                    assert(front[i] == window[i]);
                }
            }
        }
    }
}

/// The timestamps of the nodes of a buffer, in order.
pub open spec fn timestamps(buffer: Seq<NodeView>) -> Seq<int> {
    Seq::new(buffer.len(), |i: int| buffer[i].rtp_timestamp as int)
}

/// The extended sequence numbers of a list of fragments, in order.
pub open spec fn sequence_numbers(coded_data: Seq<FragmentView>) -> Seq<int> {
    Seq::new(coded_data.len(), |i: int| coded_data[i].extended_sequence_num as int)
}

/// No key is followed by a smaller one.
pub open spec fn ascending(keys: Seq<int>) -> bool {
    forall|i: int, j: int| 0 <= i <= j < keys.len() ==> keys[i] <= keys[j]
}

/// Every key is followed by larger ones only.
pub open spec fn strictly_ascending(keys: Seq<int>) -> bool {
    forall|i: int, j: int| 0 <= i < j < keys.len() ==> keys[i] < keys[j]
}

/// How many of the keys are smaller than `key`. Among ascending keys this
/// is the first place at which `key` can stand and leave them ascending.
pub open spec fn count_below(keys: Seq<int>, key: int) -> int
    decreases keys.len(),
{
    if keys.len() == 0 {
        0
    } else {
        count_below(keys.drop_last(), key) + (if keys.last() < key {
            1int
        } else {
            0
        })
    }
}

/// There are no more smaller keys than keys.
pub proof fn lemma_count_below_bounds(keys: Seq<int>, key: int)
    ensures
        0 <= count_below(keys, key) <= keys.len(),
    decreases keys.len(),
{
    if keys.len() > 0 {
        lemma_count_below_bounds(keys.drop_last(), key);
    }
}

/// A buffer that has taken a fragment in holds a node.
pub proof fn lemma_buffer_with_nonempty(
    buffer: Seq<NodeView>,
    rtp_timestamp: u32,
    playout_time: u32,
    fragment: FragmentView,
)
    ensures
        buffer_with(buffer, rtp_timestamp, playout_time, fragment).len() > 0,
{
    lemma_count_below_bounds(timestamps(buffer), rtp_timestamp as int);
}

/// A place that has only smaller keys before it and none after it is the
/// number of smaller keys.
pub proof fn lemma_count_below(keys: Seq<int>, key: int, at: int)
    requires
        0 <= at <= keys.len(),
        forall|j: int| 0 <= j < at ==> keys[j] < key,
        forall|j: int| at <= j < keys.len() ==> keys[j] >= key,
    ensures
        count_below(keys, key) == at,
    decreases keys.len(),
{
    if keys.len() > 0 {
        let front = keys.drop_last();
        if at == keys.len() {
            lemma_count_below(front, key, at - 1);
        } else {
            lemma_count_below(front, key, at);
        }
    }
}

/// The number of smaller keys splits ascending keys into the smaller ones
/// and the rest.
pub proof fn lemma_count_below_splits(keys: Seq<int>, key: int)
    requires
        ascending(keys),
    ensures
        0 <= count_below(keys, key) <= keys.len(),
        forall|j: int| 0 <= j < count_below(keys, key) ==> keys[j] < key,
        forall|j: int| count_below(keys, key) <= j < keys.len() ==> keys[j] >= key,
    decreases keys.len(),
{
    if keys.len() > 0 {
        let front = keys.drop_last();
        assert(ascending(front));
        lemma_count_below_splits(front, key);
        let at = count_below(keys, key);
        if keys.last() < key {
            assert forall|j: int| 0 <= j < front.len() implies front[j] < key by {
                assert(keys[j] <= keys[keys.len() - 1]);
            }
            lemma_count_below(front, key, front.len() as int);
            assert forall|j: int| 0 <= j < at implies keys[j] < key by {
                assert(keys[j] <= keys[keys.len() - 1]);
            }
        } else {
            assert forall|j: int| 0 <= j < at implies keys[j] < key by {
                assert(keys[j] == front[j]);
            }
            assert forall|j: int| at <= j < keys.len() implies keys[j] >= key by {
                if j < front.len() {
                    assert(keys[j] == front[j]);
                }
            }
        }
    }
}

/// The fragments of a node with one more, put where it keeps the extended
/// sequence numbers ascending: behind the fragments with a smaller number.
pub open spec fn coded_data_with(coded_data: Seq<FragmentView>, fragment: FragmentView) -> Seq<
    FragmentView,
> {
    coded_data.insert(
        count_below(sequence_numbers(coded_data), fragment.extended_sequence_num as int),
        fragment,
    )
}

/// The buffer with one more fragment. Where a node with the timestamp is
/// there, the fragment joins it. Else a node that holds just the fragment
/// comes in, with the timestamp and playout time given, where it keeps the
/// timestamps ascending.
pub open spec fn buffer_with(
    buffer: Seq<NodeView>,
    rtp_timestamp: u32,
    playout_time: u32,
    fragment: FragmentView,
) -> Seq<NodeView> {
    let at = count_below(timestamps(buffer), rtp_timestamp as int);
    if at < buffer.len() && buffer[at].rtp_timestamp == rtp_timestamp {
        buffer.update(
            at,
            NodeView { coded_data: coded_data_with(buffer[at].coded_data, fragment), ..buffer[at] },
        )
    } else {
        buffer.insert(at, NodeView { rtp_timestamp, playout_time, coded_data: seq![fragment] })
    }
}

/// A buffer in order: the timestamps of its nodes go strictly up, and in
/// each node the extended sequence numbers go up.
pub open spec fn buffer_ordered(buffer: Seq<NodeView>) -> bool {
    &&& strictly_ascending(timestamps(buffer))
    &&& forall|i: int|
        0 <= i < buffer.len() ==> ascending(sequence_numbers(#[trigger] buffer[i].coded_data))
}

/// One more fragment leaves ascending fragments ascending.
pub proof fn lemma_coded_data_with_ascending(coded_data: Seq<FragmentView>, fragment: FragmentView)
    requires
        ascending(sequence_numbers(coded_data)),
    ensures
        ascending(sequence_numbers(coded_data_with(coded_data, fragment))),
        coded_data_with(coded_data, fragment).len() == coded_data.len() + 1,
{
    let keys = sequence_numbers(coded_data);
    let key = fragment.extended_sequence_num as int;
    let at = count_below(keys, key);
    lemma_count_below_splits(keys, key);
    let after = sequence_numbers(coded_data_with(coded_data, fragment));
    assert forall|i: int, j: int| 0 <= i <= j < after.len() implies after[i] <= after[j] by {
        let a = if i < at { keys[i] } else if i == at { key } else { keys[i - 1] };
        let b = if j < at { keys[j] } else if j == at { key } else { keys[j - 1] };
        assert(after[i] == a);
        assert(after[j] == b);
    }
}

/// Whatever the order in which fragments come in, the buffer stays in
/// order: nodes by timestamp, and the fragments of each node by extended
/// sequence number.
pub proof fn lemma_buffer_with_ordered(
    buffer: Seq<NodeView>,
    rtp_timestamp: u32,
    playout_time: u32,
    fragment: FragmentView,
)
    requires
        buffer_ordered(buffer),
    ensures
        buffer_ordered(buffer_with(buffer, rtp_timestamp, playout_time, fragment)),
{
    let keys = timestamps(buffer);
    let key = rtp_timestamp as int;
    let at = count_below(keys, key);
    assert(ascending(keys)) by {
        assert forall|i: int, j: int| 0 <= i <= j < keys.len() implies keys[i] <= keys[j] by {
            if i < j {
                assert(keys[i] < keys[j]);
            }
        }
    }
    lemma_count_below_splits(keys, key);
    let after = buffer_with(buffer, rtp_timestamp, playout_time, fragment);
    let after_keys = timestamps(after);
    if at < buffer.len() && buffer[at].rtp_timestamp == rtp_timestamp {
        lemma_coded_data_with_ascending(buffer[at].coded_data, fragment);
        assert(after_keys =~= keys);
        assert forall|i: int| 0 <= i < after.len() implies ascending(
            sequence_numbers(#[trigger] after[i].coded_data),
        ) by {
            if i != at {
                assert(after[i] == buffer[i]);
            }
        }
    } else {
        assert forall|i: int, j: int| 0 <= i < j < after_keys.len() implies after_keys[i]
            < after_keys[j] by {
            let a = if i < at { keys[i] } else if i == at { key } else { keys[i - 1] };
            let b = if j < at { keys[j] } else if j == at { key } else { keys[j - 1] };
            assert(after_keys[i] == a);
            assert(after_keys[j] == b);
            if at < keys.len() {
                assert(keys[at] >= key);
            }
        }
        assert forall|i: int| 0 <= i < after.len() implies ascending(
            sequence_numbers(#[trigger] after[i].coded_data),
        ) by {
            if i < at {
                assert(after[i] == buffer[i]);
            } else if i > at {
                assert(after[i] == buffer[i - 1]);
            } else {
                assert(sequence_numbers(after[i].coded_data).len() == 1);
            }
        }
    }
}

/// The receive state of a peer as a value.
pub struct PeerView {
    pub remote_ssrc: u32,
    pub rtp_addr: SocketAddress,
    pub consumer_context: usize,
    pub max_sequence_number: Option<u16>,
    pub wrap_around_count: u32,
    pub window: Seq<u32>,
    pub min_window: u32,
    pub playout_buffer: Seq<NodeView>,
}

/// The receive state of one remote peer.
pub struct Peer {
    remote_ssrc: u32,
    rtp_addr: SocketAddress,
    consumer_context: usize,
    max_sequence_number: Option<u16>,
    wrap_around_count: u32,
    window: VecDeque<u32>,
    min_window: u32,
    playout_buffer: Vec<PlayoutBufferNode>,
}

impl View for Peer {
    type V = PeerView;

    closed spec fn view(&self) -> PeerView {
        PeerView {
            remote_ssrc: self.remote_ssrc,
            rtp_addr: self.rtp_addr,
            consumer_context: self.consumer_context,
            max_sequence_number: self.max_sequence_number,
            wrap_around_count: self.wrap_around_count,
            window: self.window@,
            min_window: self.min_window,
            playout_buffer: node_views(self.playout_buffer@),
        }
    }
}

impl PeerView {
    /// The state of a peer of which nothing has been received yet.
    pub open spec fn fresh(remote_ssrc: u32, rtp_addr: SocketAddress, consumer_context: usize) -> PeerView {
        PeerView {
            remote_ssrc,
            rtp_addr,
            consumer_context,
            max_sequence_number: None,
            wrap_around_count: 0,
            window: Seq::empty(),
            min_window: u32::MAX,
            playout_buffer: Seq::empty(),
        }
    }

    /// A state that the operations keep up: the window holds no more than
    /// 50 offsets and the playout buffer is in order.
    pub open spec fn wf(self) -> bool {
        &&& self.window.len() <= 50
        &&& buffer_ordered(self.playout_buffer)
    }

    /// The state after the arrival offset `difference` has been taken in.
    pub open spec fn with_offset(self, difference: u32) -> PeerView {
        PeerView {
            window: window_with(self.window, difference),
            min_window: wrap_min(window_with(self.window, difference)),
            ..self
        }
    }

    /// The state after a packet with the sequence number `seq` has been
    /// seen. The first packet sets the highest number seen. After that a
    /// number less than 3000 ahead of the highest, counting modulo 2^16,
    /// becomes the highest, and where it is the smaller of the two the
    /// numbers have wrapped around once more. Any other number, a large
    /// jump or a late packet, changes nothing.
    pub open spec fn with_sequence(self, seq: u16) -> PeerView {
        match self.max_sequence_number {
            None => PeerView { max_sequence_number: Some(seq), ..self },
            Some(max) => if seq.wrapping_sub(max) < 3000 {
                PeerView {
                    max_sequence_number: Some(seq),
                    wrap_around_count: if seq < max {
                        self.wrap_around_count.wrapping_add(1)
                    } else {
                        self.wrap_around_count
                    },
                    ..self
                }
            } else {
                self
            },
        }
    }

    /// The place in the stream of a packet with the sequence number `seq`
    /// that arrives now: 2^16 for every wrap counted, the one that this
    /// packet brings included, plus `seq`.
    pub open spec fn extended(self, seq: u16) -> u64 {
        (seq + 0x1_0000 * self.with_sequence(seq).wrap_around_count) as u64
    }

    /// The state after a fragment has been taken in: its sequence number is
    /// extended and the fragment stands in the node with the timestamp of
    /// `node`, which is made from `node`'s timestamp and playout time where
    /// the buffer has none.
    pub open spec fn with_fragment(self, node: NodeView, fragment: FragmentView) -> PeerView {
        PeerView {
            playout_buffer: buffer_with(
                self.playout_buffer,
                node.rtp_timestamp,
                node.playout_time,
                FragmentView {
                    extended_sequence_num: self.extended(fragment.sequence_num),
                    ..fragment
                },
            ),
            ..self.with_sequence(fragment.sequence_num)
        }
    }
}

/// A state that is kept up stays so when a fragment is taken in, whatever
/// the order in which fragments arrive.
pub proof fn lemma_with_fragment_wf(peer: PeerView, node: NodeView, fragment: FragmentView)
    requires
        peer.wf(),
    ensures
        peer.with_fragment(node, fragment).wf(),
{
    lemma_buffer_with_ordered(
        peer.playout_buffer,
        node.rtp_timestamp,
        node.playout_time,
        FragmentView { extended_sequence_num: peer.extended(fragment.sequence_num), ..fragment },
    );
}

/// A state that is kept up stays so when an arrival offset is taken in, and
/// the offset in use is then the wrap-aware minimum of the window, which
/// holds the newest offset first and 50 offsets at most.
pub proof fn lemma_with_offset_wf(peer: PeerView, difference: u32)
    requires
        peer.wf(),
    ensures
        peer.with_offset(difference).wf(),
        peer.with_offset(difference).min_window == wrap_min(peer.with_offset(difference).window),
        peer.with_offset(difference).window[0] == difference,
        peer.with_offset(difference).window.len() == (if peer.window.len() < 50 {
            peer.window.len() + 1
        } else {
            50
        }),
        forall|i: int|
            1 <= i < peer.with_offset(difference).window.len() ==> peer.with_offset(
                difference,
            ).window[i] == peer.window[i - 1],
{
}

/// When the sequence numbers wrap, the packet that brings the wrap is
/// placed 2^16 beyond where its number alone would put it: a number that is
/// smaller than the highest seen yet less than 3000 ahead of it modulo 2^16
/// counts one more wrap.
pub proof fn lemma_wraparound_extends(peer: PeerView, max: u16, seq: u16)
    requires
        peer.max_sequence_number == Some(max),
        seq < max,
        (seq + 0x1_0000 - max) < 3000,
        peer.wrap_around_count < u32::MAX,
    ensures
        peer.extended(seq) == seq + 0x1_0000 * (peer.wrap_around_count + 1),
        peer.with_sequence(seq).max_sequence_number == Some(seq),
{
}

/// The first place in a buffer whose node has a timestamp of at least
/// `rtp_timestamp`, found by halving.
fn find_node(buffer: &Vec<PlayoutBufferNode>, rtp_timestamp: u32) -> (at: usize)
    requires
        strictly_ascending(timestamps(node_views(buffer@))),
    ensures
        at == count_below(timestamps(node_views(buffer@)), rtp_timestamp as int),
        at <= buffer@.len(),
{
    let ghost keys = timestamps(node_views(buffer@));
    let mut low: usize = 0;
    let mut high: usize = buffer.len();
    while low < high
        invariant
            0 <= low <= high <= buffer@.len(),
            keys == timestamps(node_views(buffer@)),
            strictly_ascending(keys),
            forall|j: int| 0 <= j < low ==> keys[j] < rtp_timestamp,
            forall|j: int| high <= j < keys.len() ==> keys[j] >= rtp_timestamp,
        decreases high - low,
    {
        let mid = low + (high - low) / 2;
        assert(keys[mid as int] == buffer@[mid as int].rtp_timestamp);
        if buffer[mid].rtp_timestamp < rtp_timestamp {
            assert forall|j: int| 0 <= j < mid + 1 implies keys[j] < rtp_timestamp by {
                if j < mid {
                    assert(keys[j] < keys[mid as int]);
                }
            }
            low = mid + 1;
        } else {
            assert forall|j: int| mid <= j < keys.len() implies keys[j] >= rtp_timestamp by {
                if j > mid {
                    assert(keys[mid as int] < keys[j]);
                }
            }
            high = mid;
        }
    }
    proof {
        lemma_count_below(keys, rtp_timestamp as int, low as int);
    }
    low
}

/// The first place among fragments whose extended sequence number is at
/// least `extended`, found by halving.
fn find_fragment(coded_data: &Vec<Fragment>, extended: u64) -> (at: usize)
    requires
        ascending(sequence_numbers(fragment_views(coded_data@))),
    ensures
        at == count_below(sequence_numbers(fragment_views(coded_data@)), extended as int),
        at <= coded_data@.len(),
{
    let ghost keys = sequence_numbers(fragment_views(coded_data@));
    let mut low: usize = 0;
    let mut high: usize = coded_data.len();
    while low < high
        invariant
            0 <= low <= high <= coded_data@.len(),
            keys == sequence_numbers(fragment_views(coded_data@)),
            ascending(keys),
            forall|j: int| 0 <= j < low ==> keys[j] < extended,
            forall|j: int| high <= j < keys.len() ==> keys[j] >= extended,
        decreases high - low,
    {
        let mid = low + (high - low) / 2;
        assert(keys[mid as int] == coded_data@[mid as int].extended_sequence_num);
        if coded_data[mid].extended_sequence_num < extended {
            assert forall|j: int| 0 <= j < mid + 1 implies keys[j] < extended by {
                assert(keys[j] <= keys[mid as int]);
            }
            low = mid + 1;
        } else {
            assert forall|j: int| mid <= j < keys.len() implies keys[j] >= extended by {
                assert(keys[mid as int] <= keys[j]);
            }
            high = mid;
        }
    }
    proof {
        lemma_count_below(keys, extended as int, low as int);
    }
    low
}

impl Peer {
    /// A peer of which nothing has been received yet.
    pub fn new(remote_ssrc: u32, rtp_addr: SocketAddress, consumer_context: usize) -> (peer: Peer)
        ensures
            peer@ == PeerView::fresh(remote_ssrc, rtp_addr, consumer_context),
    {
        let peer = Peer {
            remote_ssrc,
            rtp_addr,
            consumer_context,
            wrap_around_count: 0,
            max_sequence_number: None,
            window: VecDeque::new(),
            min_window: u32::MAX,
            playout_buffer: Vec::new(),
        };
        assert(peer@.playout_buffer =~= Seq::<NodeView>::empty());
        peer
    }

    /// Takes in the arrival offset of one more packet and returns the
    /// offset to play out with: the wrap-aware minimum of the window, which
    /// holds the offsets of the 50 packets received last.
    pub fn set_and_get_min_window(&mut self, difference: u32) -> (min: u32)
        requires
            old(self)@.wf(),
        ensures
            final(self)@ == old(self)@.with_offset(difference),
            final(self)@.wf(),
            min == wrap_min(window_with(old(self)@.window, difference)),
    {
        self.window.push_front(difference);
        if self.window.len() > WINDOW_SIZE {
            self.window.pop_back();
        }
        assert(self.window@ =~= window_with(old(self)@.window, difference));
        let mut min: u32 = self.window[0];
        let mut k: usize = 1;
        assert(self.window@.take(1).len() == 1);
        while k < self.window.len()
            invariant
                1 <= k <= self.window@.len(),
                min == wrap_min(self.window@.take(k as int)),
            decreases self.window@.len() - k,
        {
            let val = self.window[k];
            assert(self.window@.take(k + 1).drop_last() =~= self.window@.take(k as int));
            assert((val.wrapping_sub(min) & 0x80000000 != 0) == wrap_less(val, min)) by {
                let d = val.wrapping_sub(min);
                assert((d & 0x80000000 != 0) == (d >= 0x8000_0000)) by (bit_vector);
            }
            if val.wrapping_sub(min) & 0x80000000 != 0 {
                min = val;
            }
            k = k + 1;
        }
        assert(self.window@.take(k as int) =~= self.window@);
        self.min_window = min;
        self.min_window
    }

    /// Notes the sequence number of a packet that has arrived and returns
    /// the packet's place in the stream.
    pub fn extend_sequence(&mut self, sequence_num: u16) -> (extended: u64)
        ensures
            final(self)@ == old(self)@.with_sequence(sequence_num),
            extended == old(self)@.extended(sequence_num),
    {
        match self.max_sequence_number {
            Some(max_sequence_number) => {
                let delta = sequence_num.wrapping_sub(max_sequence_number);
                if delta < MAX_DROPOUT {
                    if sequence_num < max_sequence_number {
                        self.wrap_around_count = self.wrap_around_count.wrapping_add(1);
                    }
                    self.max_sequence_number = Some(sequence_num);
                }
            },
            None => {
                self.max_sequence_number = Some(sequence_num);
            },
        }
        sequence_num as u64 + 65536 * (self.wrap_around_count as u64)
    }

    /// Takes a fragment into the playout buffer. The fragment's sequence
    /// number is extended first. It then joins the node that has the
    /// timestamp of `starter_node`, behind the fragments that come before it
    /// in the stream; where the buffer has no such node, `starter_node`
    /// comes in with just this fragment, at its place by timestamp.
    pub fn insert(&mut self, starter_node: PlayoutBufferNode, fragment: Fragment)
        requires
            old(self)@.wf(),
        ensures
            final(self)@ == old(self)@.with_fragment(starter_node@, fragment@),
            final(self)@.wf(),
    {
        let mut fragment = fragment;
        let mut starter_node = starter_node;
        let ghost before = self@;
        fragment.extended_sequence_num = self.extend_sequence(fragment.sequence_num);
        let ghost buffer = node_views(self.playout_buffer@);
        let timestamp = starter_node.rtp_timestamp;
        let index = find_node(&self.playout_buffer, timestamp);
        proof {
            lemma_buffer_with_ordered(buffer, timestamp, starter_node.playout_time, fragment@);
        }
        if index < self.playout_buffer.len() && self.playout_buffer[index].rtp_timestamp
            == timestamp {
            assert(buffer[index as int] == self.playout_buffer@[index as int]@);
            let mut node = self.playout_buffer.remove(index);
            let at = find_fragment(&node.coded_data, fragment.extended_sequence_num);
            let ghost placed = fragment@;
            let ghost coded = fragment_views(node.coded_data@);
            node.coded_data.insert(at, fragment);
            assert(fragment_views(node.coded_data@) =~= coded_data_with(coded, placed));
            self.playout_buffer.insert(index, node);
            assert(node_views(self.playout_buffer@) =~= buffer_with(
                buffer,
                timestamp,
                starter_node.playout_time,
                placed,
            ));
        } else {
            let ghost placed = fragment@;
            let mut coded_data: Vec<Fragment> = Vec::new();
            coded_data.push(fragment);
            starter_node.coded_data = coded_data;
            assert(starter_node@.coded_data =~= seq![placed]);
            self.playout_buffer.insert(index, starter_node);
            assert(node_views(self.playout_buffer@) =~= buffer_with(
                buffer,
                timestamp,
                starter_node.playout_time,
                placed,
            ));
        }
    }

    /// Takes the node that stands last in the buffer, which is the one with
    /// the highest timestamp, out of it.
    pub fn pop(&mut self) -> (node: Option<PlayoutBufferNode>)
        requires
            old(self)@.wf(),
        ensures
            final(self)@.wf(),
            match node {
                Some(n) => old(self)@.playout_buffer.len() > 0 && n@ == old(
                    self,
                )@.playout_buffer.last() && final(self)@ == (PeerView {
                    playout_buffer: old(self)@.playout_buffer.drop_last(),
                    ..old(self)@
                }),
                None => old(self)@.playout_buffer.len() == 0 && final(self)@ == old(self)@,
            },
    {
        let ghost buffer = node_views(self.playout_buffer@);
        let node = self.playout_buffer.pop();
        proof {
            if node.is_some() {
                let after = node_views(self.playout_buffer@);
                assert(after =~= buffer.drop_last());
                assert(timestamps(after) =~= timestamps(buffer).drop_last());
                assert forall|i: int| 0 <= i < after.len() implies ascending(
                    sequence_numbers(#[trigger] after[i].coded_data),
                ) by {
                    assert(after[i] == buffer[i]);
                }
            }
        }
        node
    }

    /// The source identifier of the peer.
    pub fn remote_ssrc(&self) -> (ssrc: u32)
        ensures
            ssrc == self@.remote_ssrc,
    {
        self.remote_ssrc
    }

    /// The address that the peer receives RTP on.
    pub fn rtp_addr(&self) -> (addr: SocketAddress)
        ensures
            addr == self@.rtp_addr,
    {
        self.rtp_addr
    }

    /// The handle that the consumer gave for this peer.
    pub fn consumer_context(&self) -> (context: usize)
        ensures
            context == self@.consumer_context,
    {
        self.consumer_context
    }

    /// The offset in use: the least of the window when an offset was taken
    /// in last.
    pub fn min_window(&self) -> (min: u32)
        ensures
            min == self@.min_window,
    {
        self.min_window
    }

    /// The highest sequence number seen, if any packet has been seen.
    pub fn max_sequence_number(&self) -> (max: Option<u16>)
        ensures
            max == self@.max_sequence_number,
    {
        self.max_sequence_number
    }

    /// How many times the sequence numbers have wrapped around.
    pub fn wrap_around_count(&self) -> (count: u32)
        ensures
            count == self@.wrap_around_count,
    {
        self.wrap_around_count
    }

    /// The playout buffer, oldest frame first.
    pub fn playout_buffer(&self) -> (buffer: &Vec<PlayoutBufferNode>)
        ensures
            node_views(buffer@) == self@.playout_buffer,
    {
        &self.playout_buffer
    }
}

/// The registry as a value: the state of each peer and the RTP address of
/// each peer, both under the peer's source identifier, and who we are.
pub struct RegistryView {
    pub peers: Map<u32, PeerView>,
    pub addresses: Map<u32, SocketAddress>,
    pub local_addr: SocketAddress,
    pub local_ssrc: u32,
}

impl RegistryView {
    /// A registry that the operations keep up. It holds finitely many
    /// peers, each under its own source identifier and in a state that is
    /// kept up; the addresses are those of the peers; and the local source
    /// is not among the peers.
    pub open spec fn wf(self) -> bool {
        &&& self.peers.dom().finite()
        &&& self.addresses.dom() == self.peers.dom()
        &&& !self.peers.dom().contains(self.local_ssrc)
        &&& forall|ssrc: u32| #[trigger]
            self.peers.dom().contains(ssrc) ==> self.peers[ssrc].wf() && self.peers[ssrc].remote_ssrc
                == ssrc && self.addresses[ssrc] == self.peers[ssrc].rtp_addr
    }

    /// The registry with the state of the peer `ssrc` replaced.
    pub open spec fn with_peer(self, ssrc: u32, peer: PeerView) -> RegistryView {
        RegistryView { peers: self.peers.insert(ssrc, peer), ..self }
    }
}

/// Whether `addrs` lists the addresses of a table, the one under each
/// source identifier once, in some order.
pub open spec fn lists_addresses(addrs: Seq<SocketAddress>, table: Map<u32, SocketAddress>) -> bool {
    exists|keys: Seq<u32>|
        {
            &&& keys.no_duplicates()
            &&& keys.len() == addrs.len()
            &&& forall|ssrc: u32| #[trigger] keys.contains(ssrc) <==> table.dom().contains(ssrc)
            &&& forall|i: int| 0 <= i < keys.len() ==> addrs[i] == table[#[trigger] keys[i]]
        }
}

/// The registry of remote peers, each under its source identifier, and of
/// the addresses to send to.
pub struct PeerManager {
    peers: DashMap<u32, Peer>,
    peer_addresses: DashMap<u32, SocketAddress>,
    pub local_addr: SocketAddress,
    pub local_ssrc: u32,
}

impl View for PeerManager {
    type V = RegistryView;

    closed spec fn view(&self) -> RegistryView {
        RegistryView {
            peers: peer_table(self.peers).map_values(|peer: Peer| peer@),
            addresses: address_table(self.peer_addresses),
            local_addr: self.local_addr,
            local_ssrc: self.local_ssrc,
        }
    }
}

impl PeerManager {
    /// A registry without peers.
    pub fn new(local_addr: SocketAddress, local_ssrc: u32) -> (manager: PeerManager)
        ensures
            manager@.wf(),
            manager@ == (RegistryView {
                peers: Map::empty(),
                addresses: Map::empty(),
                local_addr,
                local_ssrc,
            }),
    {
        let manager = PeerManager {
            peers: new_peer_table(),
            peer_addresses: new_address_table(),
            local_addr,
            local_ssrc,
        };
        assert(manager@.peers =~= Map::<u32, PeerView>::empty());
        manager
    }

    /// The handle that the consumer gave for the peer `ssrc`, if the peer is
    /// registered.
    pub fn get_context(&self, ssrc: u32) -> (context: Option<usize>)
        ensures
            context == (if self@.peers.dom().contains(ssrc) {
                Some(self@.peers[ssrc].consumer_context)
            } else {
                None
            }),
    {
        peer_table_context(&self.peers, ssrc)
    }

    /// Registers a peer. A source that is registered already stays as it is,
    /// and the local source is never registered. The result says whether
    /// the peer is new.
    pub fn add_peer(&mut self, ssrc: u32, addr: SocketAddress, consumer_context: usize) -> (added:
        bool)
        requires
            old(self)@.wf(),
        ensures
            final(self)@.wf(),
            added == (ssrc != old(self)@.local_ssrc && !old(self)@.peers.dom().contains(ssrc)),
            added ==> final(self)@ == (RegistryView {
                peers: old(self)@.peers.insert(ssrc, PeerView::fresh(ssrc, addr, consumer_context)),
                addresses: old(self)@.addresses.insert(ssrc, addr),
                ..old(self)@
            }),
            !added ==> final(self)@ == old(self)@,
    {
        if ssrc != self.local_ssrc && !peer_table_contains(&self.peers, ssrc) {
            let ghost before = self@;
            peer_table_insert(&mut self.peers, ssrc, Peer::new(ssrc, addr, consumer_context));
            address_table_insert(&mut self.peer_addresses, ssrc, addr);
            proof {
                assert(self@.peers =~= before.peers.insert(
                    ssrc,
                    PeerView::fresh(ssrc, addr, consumer_context),
                ));
                assert(buffer_ordered(Seq::<NodeView>::empty()));
            }
            true
        } else {
            false
        }
    }

    /// Takes the arrival offset of a packet into the window of the peer
    /// `ssrc` and returns the offset to play out with. A source that is not
    /// registered gets none, and nothing changes.
    pub fn peer_get_min_window(&mut self, ssrc: u32, difference: u32) -> (offset: Option<u32>)
        requires
            old(self)@.wf(),
        ensures
            final(self)@.wf(),
            old(self)@.peers.dom().contains(ssrc) ==> offset == Some(
                wrap_min(window_with(old(self)@.peers[ssrc].window, difference)),
            ) && final(self)@ == old(self)@.with_peer(
                ssrc,
                old(self)@.peers[ssrc].with_offset(difference),
            ),
            !old(self)@.peers.dom().contains(ssrc) ==> offset.is_none() && final(self)@ == old(
                self,
            )@,
    {
        let ghost before = self@;
        match peer_table_remove(&mut self.peers, ssrc) {
            Some(found_peer) => {
                let mut found_peer = found_peer;
                assert(found_peer@ == before.peers[ssrc]);
                let offset = found_peer.set_and_get_min_window(difference);
                peer_table_insert(&mut self.peers, ssrc, found_peer);
                assert(self@.peers =~= before.peers.insert(
                    ssrc,
                    before.peers[ssrc].with_offset(difference),
                ));
                Some(offset)
            },
            None => {
                assert(self@.peers =~= before.peers);
                None
            },
        }
    }

    /// Takes a fragment into the playout buffer of the peer `ssrc`, as
    /// [`Peer::insert`] does. For a source that is not registered nothing
    /// changes.
    pub fn add_playout_node_to_peer(
        &mut self,
        ssrc: u32,
        playout_buffer_node: PlayoutBufferNode,
        fragment: Fragment,
    )
        requires
            old(self)@.wf(),
        ensures
            final(self)@.wf(),
            old(self)@.peers.dom().contains(ssrc) ==> final(self)@ == old(self)@.with_peer(
                ssrc,
                old(self)@.peers[ssrc].with_fragment(playout_buffer_node@, fragment@),
            ),
            !old(self)@.peers.dom().contains(ssrc) ==> final(self)@ == old(self)@,
    {
        let ghost before = self@;
        match peer_table_remove(&mut self.peers, ssrc) {
            Some(peer) => {
                let mut peer = peer;
                assert(peer@ == before.peers[ssrc]);
                peer.insert(playout_buffer_node, fragment);
                peer_table_insert(&mut self.peers, ssrc, peer);
                assert(self@.peers =~= before.peers.insert(
                    ssrc,
                    before.peers[ssrc].with_fragment(playout_buffer_node@, fragment@),
                ));
            },
            None => {
                assert(self@.peers =~= before.peers);
            },
        }
    }

    /// The RTP addresses of all registered peers, for the sender to go
    /// through.
    pub fn get_peers(&self) -> (addrs: Vec<SocketAddress>)
        ensures
            lists_addresses(addrs@, self@.addresses),
    {
        let entries = address_table_entries(&self.peer_addresses);
        let ghost table = address_table(self.peer_addresses);
        let mut addrs: Vec<SocketAddress> = Vec::new();
        let mut k: usize = 0;
        while k < entries.len()
            invariant
                k <= entries@.len(),
                addrs@.len() == k,
                forall|i: int| 0 <= i < k ==> addrs@[i] == (#[trigger] entries@[i]).1,
            decreases entries@.len() - k,
        {
            addrs.push(entries[k].1);
            k = k + 1;
        }
        proof {
            let keys = Seq::new(entries@.len(), |i: int| entries@[i].0);
            assert forall|i: int| 0 <= i < keys.len() implies table.contains_pair(
                #[trigger] keys[i],
                entries@[i].1,
            ) by {
                assert(entries@.contains(entries@[i]));
            }
            assert forall|i: int, j: int| 0 <= i < keys.len() && 0 <= j < keys.len() && i
                != j implies keys[i] != keys[j] by {
                if keys[i] == keys[j] {
                    assert(entries@[i] == entries@[j]);
                }
            }
            assert forall|ssrc: u32| #[trigger] keys.contains(ssrc) <==> table.dom().contains(
                ssrc,
            ) by {
                if table.dom().contains(ssrc) {
                    assert(table.contains_pair(ssrc, table[ssrc]));
                    assert(entries@.contains((ssrc, table[ssrc])));
                    let i = choose|i: int|
                        0 <= i < entries@.len() && entries@[i] == (ssrc, table[ssrc]);
                    assert(keys[i] == ssrc);
                }
            }
            assert forall|i: int| 0 <= i < keys.len() implies addrs@[i] == table[#[trigger] keys[i]] by {
                assert(addrs@[i] == entries@[i].1);
            }
        }
        addrs
    }

    /// Takes the newest frame out of the playout buffer of the peer `ssrc`,
    /// as [`Peer::pop`] does. A source that is not registered has none.
    pub fn pop_node(&mut self, ssrc: u32) -> (node: Option<PlayoutBufferNode>)
        requires
            old(self)@.wf(),
        ensures
            final(self)@.wf(),
            match node {
                Some(n) => old(self)@.peers.dom().contains(ssrc) && old(
                    self,
                )@.peers[ssrc].playout_buffer.len() > 0 && n@ == old(
                    self,
                )@.peers[ssrc].playout_buffer.last() && final(self)@ == old(self)@.with_peer(
                    ssrc,
                    PeerView {
                        playout_buffer: old(self)@.peers[ssrc].playout_buffer.drop_last(),
                        ..old(self)@.peers[ssrc]
                    },
                ),
                None => final(self)@ == old(self)@ && (old(self)@.peers.dom().contains(ssrc)
                    ==> old(self)@.peers[ssrc].playout_buffer.len() == 0),
            },
    {
        let ghost before = self@;
        match peer_table_remove(&mut self.peers, ssrc) {
            Some(peer) => {
                let mut peer = peer;
                assert(peer@ == before.peers[ssrc]);
                let node = peer.pop();
                peer_table_insert(&mut self.peers, ssrc, peer);
                assert(self@.peers =~= before.peers.insert(ssrc, peer@));
                assert(before.peers.insert(ssrc, before.peers[ssrc]) =~= before.peers);
                node
            },
            None => {
                assert(self@.peers =~= before.peers);
                None
            },
        }
    }
}

} // verus!
