//! The estimator of clock skew between a sender and this receiver, and the
//! playout time of a packet.

use crate::buffer::freeze;
use crate::buffer::new_buffer;
use crate::buffer::put_slice;
use crate::error::RtpError;
use crate::packets::rtp::RTPHeader;
use crate::session_management::peer_manager::Fragment;
use crate::session_management::peer_manager::FragmentView;
use crate::session_management::peer_manager::NodeView;
use crate::session_management::peer_manager::PeerManager;
use crate::session_management::peer_manager::PlayoutBufferNode;
use crate::session_management::peer_manager::window_with;
use crate::session_management::peer_manager::wrap_min;
use crate::session_management::peer_manager::RegistryView;
use vstd::arithmetic::div_mod::lemma_mul_mod_noop_left;
use vstd::prelude::*;

verus! {

/// The skew threshold that a receiver starts with, in ticks of the media
/// clock.
pub const DEFAULT_SKEW_THRESHOLD: i32 = 3000;

/// The state of the skew estimator as a value.
pub struct DelayState {
    pub active_delay: u32,
    pub delay_estimate: u32,
    pub first_time: bool,
    pub skew_threshold: i32,
}

impl DelayState {
    /// The smoothed delay after one more arrival offset: 31 parts of the
    /// estimate so far and one part of the new offset.
    pub open spec fn smoothed(self, difference: u32) -> u32 {
        ((31 * self.delay_estimate + difference) / 32) as u32
    }

    /// How far the delay in use is ahead of the estimate `estimate`: their
    /// difference on the circle of 32-bit values, read as a signed number.
    pub open spec fn divergence(self, estimate: u32) -> int {
        let d = self.active_delay.wrapping_sub(estimate);
        if d >= 0x8000_0000 {
            d - 0x1_0000_0000
        } else {
            d as int
        }
    }

    /// The adjustment that one more arrival offset calls for. The first
    /// offset calls for none. After that, a delay in use that is ahead of the
    /// smoothed estimate by more than the threshold calls for the threshold,
    /// one that is behind by more than the threshold for its negative, and
    /// anything between for nothing.
    pub open spec fn adjustment(self, difference: u32) -> int {
        if self.first_time {
            0
        } else if self.divergence(self.smoothed(difference)) > self.skew_threshold {
            self.skew_threshold as int
        } else if self.divergence(self.smoothed(difference)) < -self.skew_threshold {
            -self.skew_threshold
        } else {
            0
        }
    }

    /// The state after one more arrival offset. The first offset becomes
    /// both the estimate and the delay in use. After that the estimate is
    /// smoothed, and the delay in use follows it whenever the two are more
    /// than the threshold apart.
    pub open spec fn adjusted(self, difference: u32) -> DelayState {
        if self.first_time {
            DelayState {
                active_delay: difference,
                delay_estimate: difference,
                first_time: false,
                ..self
            }
        } else if self.divergence(self.smoothed(difference)) > self.skew_threshold
            || self.divergence(self.smoothed(difference)) < -self.skew_threshold {
            DelayState {
                active_delay: self.smoothed(difference),
                delay_estimate: self.smoothed(difference),
                ..self
            }
        } else {
            DelayState { delay_estimate: self.smoothed(difference), ..self }
        }
    }
}

/// The time of a packet's arrival in ticks of the media clock: the wall
/// clock in milliseconds times the ticks per millisecond, modulo 2^32.
pub open spec fn arrival_ticks(arrival_millis: u128, media_clock_rate: u32) -> u32 {
    ((arrival_millis * (media_clock_rate / 1000)) % 0x1_0000_0000) as u32
}

/// The arrival offset of a packet: its arrival time in ticks minus its
/// timestamp, modulo 2^32.
pub open spec fn arrival_difference(
    arrival_millis: u128,
    media_clock_rate: u32,
    rtp_timestamp: u32,
) -> u32 {
    arrival_ticks(arrival_millis, media_clock_rate).wrapping_sub(rtp_timestamp)
}

/// Why a packet is refused: it is too short for a header, or else its
/// source is not registered.
pub open spec fn refusal(registry: RegistryView, packet: Seq<u8>) -> RtpError {
    if packet.len() < 12 {
        RtpError::MalformedHeader
    } else {
        RtpError::UnknownPeer
    }
}

/// The playout time of a packet: its timestamp plus the offset in use,
/// modulo 2^32.
pub open spec fn base_playout_time(rtp_timestamp: u32, offset: u32) -> u32 {
    rtp_timestamp.wrapping_add(offset)
}

/// The registry after a packet of a registered peer has been received with
/// the arrival offset `difference`: the offset has gone into the peer's
/// window, and the payload stands in the peer's playout buffer under the
/// packet's timestamp, a new node getting the playout time that the window
/// gives.
pub open spec fn received(
    registry: RegistryView,
    header: RTPHeader,
    payload: Seq<u8>,
    difference: u32,
) -> RegistryView {
    let peer = registry.peers[header.ssrc].with_offset(difference);
    registry.with_peer(
        header.ssrc,
        peer.with_fragment(
            NodeView {
                rtp_timestamp: header.timestamp,
                playout_time: base_playout_time(header.timestamp, peer.min_window),
                coded_data: Seq::empty(),
            },
            FragmentView {
                extended_sequence_num: 0,
                sequence_num: header.sequence_number,
                data: payload,
            },
        ),
    )
}

/// Computes the arrival time in ticks.
fn ticks_at(arrival_millis: u128, media_clock_rate: u32) -> (ticks: u32)
    ensures
        ticks == arrival_ticks(arrival_millis, media_clock_rate),
{
    let low: u128 = arrival_millis % 0x1_0000_0000;
    let per_milli: u128 = (media_clock_rate / 1000) as u128;
    assert(low * per_milli < 0x1_0000_0000 * 0x1_0000_0000) by (nonlinear_arith)
        requires
            0 <= low < 0x1_0000_0000,
            0 <= per_milli < 0x1_0000_0000,
    ;
    let product: u128 = low * per_milli;
    proof {
        lemma_mul_mod_noop_left(arrival_millis as int, per_milli as int, 0x1_0000_0000);
    }
    (product % 0x1_0000_0000) as u32
}

/// The skew estimator of one receiving task.
pub struct DelayCalculator {
    active_delay: u32,
    delay_estimate: u32,
    first_time: bool,
    skew_threshold: i32,
}

impl View for DelayCalculator {
    type V = DelayState;

    closed spec fn view(&self) -> DelayState {
        DelayState {
            active_delay: self.active_delay,
            delay_estimate: self.delay_estimate,
            first_time: self.first_time,
            skew_threshold: self.skew_threshold,
        }
    }
}

impl Default for DelayCalculator {
    /// An estimator that has seen nothing yet, with the threshold of 3000
    /// ticks.
    fn default() -> (calculator: DelayCalculator)
        ensures
            calculator@ == (DelayState {
                active_delay: 0,
                delay_estimate: 0,
                first_time: true,
                skew_threshold: 3000,
            }),
    {
        DelayCalculator::new(DEFAULT_SKEW_THRESHOLD)
    }
}

impl DelayCalculator {
    #[verifier::type_invariant]
    spec fn negatable(self) -> bool {
        self.skew_threshold > i32::MIN
    }

    /// An estimator that has seen nothing yet. The threshold must have a
    /// negative, which the least 32-bit value has not.
    pub fn new(skew_threshold: i32) -> (calculator: DelayCalculator)
        requires
            skew_threshold > i32::MIN,
        ensures
            calculator@ == (DelayState {
                active_delay: 0,
                delay_estimate: 0,
                first_time: true,
                skew_threshold,
            }),
    {
        DelayCalculator { active_delay: 0, delay_estimate: 0, first_time: true, skew_threshold }
    }

    /// Takes in one more arrival offset and returns the adjustment of the
    /// playout delay that it calls for, in ticks of the media clock.
    pub fn adjust_skew(&mut self, difference: u32) -> (adjustment: i32)
        ensures
            final(self)@ == old(self)@.adjusted(difference),
            adjustment == old(self)@.adjustment(difference),
    {
        proof {
            use_type_invariant(&*self);
        }
        if self.first_time {
            self.first_time = false;
            self.delay_estimate = difference;
            self.active_delay = difference;
            return 0;
        }
        let estimate: u32 = ((31 * (self.delay_estimate as u64) + difference as u64) / 32) as u32;
        self.delay_estimate = estimate;
        let d: u32 = self.active_delay.wrapping_sub(estimate);
        let divergence: i64 = if d >= 0x8000_0000 {
            d as i64 - 0x1_0000_0000
        } else {
            d as i64
        };
        if divergence > self.skew_threshold as i64 {
            self.active_delay = self.delay_estimate;
            return self.skew_threshold;
        } else if divergence < -(self.skew_threshold as i64) {
            self.active_delay = self.delay_estimate;
            return -self.skew_threshold;
        }
        0
    }

    /// Takes in one received packet: reads its header, works out its
    /// arrival offset, takes the offset into the window of the peer that
    /// sent it, puts the payload into that peer's playout buffer and feeds
    /// the skew estimator. The result is the header and the playout time
    /// that the peer's window gives the packet. A packet too short for a
    /// header and a packet of a source that is not registered are refused and
    /// change nothing.
    pub fn receive(
        &mut self,
        peer_manager: &mut PeerManager,
        arrival_millis: u128,
        media_clock_rate: u32,
        buffer: &[u8],
    ) -> (res: Result<(RTPHeader, u32), RtpError>)
        requires
            old(peer_manager)@.wf(),
        ensures
            final(peer_manager)@.wf(),
            match res {
                Ok(taken) => {
                    let header = RTPHeader::parse(buffer@);
                    let difference = arrival_difference(
                        arrival_millis,
                        media_clock_rate,
                        header.timestamp,
                    );
                    &&& buffer@.len() >= 12
                    &&& old(peer_manager)@.peers.dom().contains(header.ssrc)
                    &&& final(peer_manager)@ == received(
                        old(peer_manager)@,
                        header,
                        buffer@.skip(12),
                        difference,
                    )
                    &&& final(self)@ == old(self)@.adjusted(difference)
                    &&& taken.0 == header
                    &&& taken.1 == base_playout_time(
                        header.timestamp,
                        wrap_min(
                            window_with(old(peer_manager)@.peers[header.ssrc].window, difference),
                        ),
                    )
                },
                Err(e) => {
                    &&& final(peer_manager)@ == old(peer_manager)@
                    &&& final(self)@ == old(self)@
                    &&& e == refusal(old(peer_manager)@, buffer@)
                    &&& buffer@.len() >= 12 ==> !old(peer_manager)@.peers.dom().contains(
                        RTPHeader::parse(buffer@).ssrc,
                    )
                },
            },
    {
        let ghost registry = peer_manager@;
        let mut data = new_buffer();
        put_slice(&mut data, buffer);
        let header = match RTPHeader::deserialize(&mut data) {
            Ok(header) => header,
            Err(e) => {
                return Err(e);
            },
        };
        let arrival_time = ticks_at(arrival_millis, media_clock_rate);
        let difference = arrival_time.wrapping_sub(header.timestamp);
        let offset = match peer_manager.peer_get_min_window(header.ssrc, difference) {
            Some(offset) => offset,
            None => {
                return Err(RtpError::UnknownPeer);
            },
        };
        let base_playout_time = header.timestamp.wrapping_add(offset);
        let node = PlayoutBufferNode {
            rtp_timestamp: header.timestamp,
            playout_time: base_playout_time,
            coded_data: Vec::new(),
        };
        let fragment = Fragment::new(header.sequence_number, freeze(data));
        assert(node@.coded_data =~= Seq::<FragmentView>::empty());
        peer_manager.add_playout_node_to_peer(header.ssrc, node, fragment);
        proof {
            let peer = registry.peers[header.ssrc].with_offset(difference);
            assert(registry.with_peer(header.ssrc, peer).peers.insert(
                header.ssrc,
                peer.with_fragment(node@, fragment@),
            ) =~= registry.peers.insert(header.ssrc, peer.with_fragment(node@, fragment@)));
        }
        let _ = self.adjust_skew(difference);
        Ok((header, base_playout_time))
    }

    /// Takes in one received packet as [`DelayCalculator::receive`] does.
    /// The result is the playout time of the frame where the packet ends
    /// one, which its marker says, and nothing where it does not.
    pub fn calculate_playout_time(
        &mut self,
        peer_manager: &mut PeerManager,
        arrival_millis: u128,
        media_clock_rate: u32,
        buffer: &[u8],
    ) -> (res: Result<Option<u32>, RtpError>)
        requires
            old(peer_manager)@.wf(),
        ensures
            final(peer_manager)@.wf(),
            match res {
                Ok(playout_time) => {
                    let header = RTPHeader::parse(buffer@);
                    let difference = arrival_difference(
                        arrival_millis,
                        media_clock_rate,
                        header.timestamp,
                    );
                    &&& buffer@.len() >= 12
                    &&& old(peer_manager)@.peers.dom().contains(header.ssrc)
                    &&& final(peer_manager)@ == received(
                        old(peer_manager)@,
                        header,
                        buffer@.skip(12),
                        difference,
                    )
                    &&& final(self)@ == old(self)@.adjusted(difference)
                    &&& playout_time == (if header.marker {
                        Some(
                            base_playout_time(
                                header.timestamp,
                                wrap_min(
                                    window_with(
                                        old(peer_manager)@.peers[header.ssrc].window,
                                        difference,
                                    ),
                                ),
                            ),
                        )
                    } else {
                        None
                    })
                },
                Err(e) => {
                    &&& final(peer_manager)@ == old(peer_manager)@
                    &&& final(self)@ == old(self)@
                    &&& e == refusal(old(peer_manager)@, buffer@)
                    &&& buffer@.len() >= 12 ==> !old(peer_manager)@.peers.dom().contains(
                        RTPHeader::parse(buffer@).ssrc,
                    )
                },
            },
    {
        match self.receive(peer_manager, arrival_millis, media_clock_rate, buffer) {
            Ok((header, playout_time)) => {
                if header.marker {
                    Ok(Some(playout_time))
                } else {
                    Ok(None)
                }
            },
            Err(e) => Err(e),
        }
    }
}

} // verus!
