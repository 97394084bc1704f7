//! Signaling: what a peer announces of itself, and the record that carries
//! the announcement.
//!
//! A record is a run of lines, each ended by a line feed, the last by the
//! end of the record; a carriage return before a line feed is not part of
//! the line. The lines are, in order: the kind of media, the announcer's
//! signaling address, its RTP address, its source identifier as four octets
//! in big-endian order, and for video its picture parameter set, its
//! sequence parameter set and the signaling addresses of the peers it knows,
//! one to a line.

use crate::address::SocketAddress;
use crate::buffer::as_slice;
use crate::buffer::be32;
use crate::buffer::bytes_mut_seq;
use crate::buffer::bytes_seq;
use crate::buffer::from_be32;
use crate::buffer::lemma_be32_roundtrip;
use crate::buffer::new_buffer;
use crate::buffer::put_slice;
use crate::buffer::put_u32;
use crate::buffer::put_u8;
use crate::error::RtpError;
use crate::interop::StreamType;
use crate::session_management::peer_manager::PeerManager;
use crate::session_management::peer_manager::PeerView;
use crate::session_management::peer_manager::RegistryView;
use crate::session_management::tables::address_set;
use crate::session_management::tables::address_set_insert;
use crate::session_management::tables::address_set_members;
use crate::session_management::tables::new_address_set;
use bytes::Bytes;
use bytes::BytesMut;
use dashmap::DashSet;
use vstd::prelude::*;

verus! {

/// The largest record that is read in one piece.
pub const BUFFER_SIZE: usize = 1500;

/// The line feed that ends a line.
pub const LINE_FEED: u8 = 0x0A;

/// The carriage return that may stand before a line feed.
pub const CARRIAGE_RETURN: u8 = 0x0D;

/// The codec parameters of an H.264 stream.
pub struct H264Args {
    pub sps: Bytes,
    pub pps: Bytes,
}

/// What is known for signaling: the signaling addresses of the peers and
/// the local codec parameters.
pub struct PeerSpecifications {
    peer_signaling_addresses: DashSet<SocketAddress>,
    self_h264_args: H264Args,
}

/// The signaling knowledge as a value.
pub struct SpecificationsView {
    pub peers: Set<SocketAddress>,
    pub sps: Seq<u8>,
    pub pps: Seq<u8>,
}

impl View for PeerSpecifications {
    type V = SpecificationsView;

    closed spec fn view(&self) -> SpecificationsView {
        SpecificationsView {
            peers: address_set(self.peer_signaling_addresses),
            sps: bytes_seq(self.self_h264_args.sps),
            pps: bytes_seq(self.self_h264_args.pps),
        }
    }
}

impl PeerSpecifications {
    /// The knowledge of a peer that knows no other yet.
    pub fn new(h264_args: H264Args) -> (specifications: PeerSpecifications)
        ensures
            specifications@ == (SpecificationsView {
                peers: Set::empty(),
                sps: bytes_seq(h264_args.sps),
                pps: bytes_seq(h264_args.pps),
            }),
    {
        PeerSpecifications {
            peer_signaling_addresses: new_address_set(),
            self_h264_args: h264_args,
        }
    }

    /// The signaling addresses of the peers that are known, each once, in
    /// no particular order.
    pub fn get_peers(&self) -> (peers: Vec<SocketAddress>)
        ensures
            peers@.no_duplicates(),
            forall|addr: SocketAddress| peers@.contains(addr) <==> self@.peers.contains(addr),
    {
        address_set_members(&self.peer_signaling_addresses)
    }

    /// Notes the signaling address of a peer.
    pub fn add_peer(&mut self, addr: SocketAddress)
        ensures
            final(self)@ == (SpecificationsView {
                peers: old(self)@.peers.insert(addr),
                ..old(self)@
            }),
    {
        let _ = address_set_insert(&mut self.peer_signaling_addresses, addr);
    }

    /// Replaces the local codec parameters. The peers stay.
    pub fn set_h264_args(&mut self, h264_args: H264Args)
        ensures
            final(self)@ == (SpecificationsView {
                peers: old(self)@.peers,
                sps: bytes_seq(h264_args.sps),
                pps: bytes_seq(h264_args.pps),
            }),
    {
        self.self_h264_args = h264_args;
    }

    /// The local codec parameters.
    pub fn h264_args(&self) -> (h264_args: &H264Args)
        ensures
            bytes_seq(h264_args.sps) == self@.sps,
            bytes_seq(h264_args.pps) == self@.pps,
    {
        &self.self_h264_args
    }
}

/// The two octets that end a line in a record that is written.
pub open spec fn line_end() -> Seq<u8> {
    seq![0x0Du8, 0x0Au8]
}

/// The given lines, each with a line end in front of it.
pub open spec fn trailing_lines(lines: Seq<Seq<u8>>) -> Seq<u8>
    decreases lines.len(),
{
    if lines.len() == 0 {
        Seq::empty()
    } else {
        trailing_lines(lines.drop_last()) + line_end() + lines.last()
    }
}

/// What every record starts with: the kind of media, the two addresses and
/// the source identifier, each followed by a line end.
pub open spec fn record_head(
    media_type: StreamType,
    signaling_addr: Seq<u8>,
    rtp_addr: Seq<u8>,
    ssrc: u32,
) -> Seq<u8> {
    media_type.tag() + line_end() + signaling_addr + line_end() + rtp_addr + line_end() + be32(ssrc)
        + line_end()
}

/// A record on the wire. For video the head is followed by the picture
/// parameter set, a line end, the sequence parameter set and the peers'
/// addresses, each behind a line end. For audio the head is all.
pub open spec fn record_wire(
    media_type: StreamType,
    signaling_addr: Seq<u8>,
    rtp_addr: Seq<u8>,
    ssrc: u32,
    pps: Seq<u8>,
    sps: Seq<u8>,
    peers: Seq<Seq<u8>>,
) -> Seq<u8> {
    match media_type {
        StreamType::Video => record_head(media_type, signaling_addr, rtp_addr, ssrc) + pps
            + line_end() + sps + trailing_lines(peers),
        StreamType::Audio => record_head(media_type, signaling_addr, rtp_addr, ssrc),
    }
}

/// The contents of each vector of a list.
pub open spec fn vec_seqs(v: Seq<Vec<u8>>) -> Seq<Seq<u8>> {
    Seq::new(v.len(), |i: int| v[i]@)
}

/// Appends a line end.
fn put_line_end(response: &mut BytesMut)
    ensures
        bytes_mut_seq(*final(response)) == bytes_mut_seq(*old(response)) + line_end(),
{
    put_u8(response, CARRIAGE_RETURN);
    put_u8(response, LINE_FEED);
    assert(bytes_mut_seq(*response) =~= bytes_mut_seq(*old(response)) + line_end());
}

/// Writes the record that announces the local peer: the kind of media
/// named by `media_type`, the local addresses as text, the local source
/// identifier, and for video the local codec parameters and the signaling
/// addresses of the known peers as text. A word that names no kind of media
/// is refused as a bad field; then codec parameters that have not been
/// announced yet are refused as missing.
pub fn write_response(
    media_type: &[u8],
    signaling_addr: &[u8],
    rtp_addr: &[u8],
    ssrc: u32,
    h264_args: Option<&H264Args>,
    peers: &Vec<Vec<u8>>,
) -> (res: Result<BytesMut, RtpError>)
    ensures
        match res {
            Ok(response) => {
                &&& StreamType::named(media_type@) matches Some(kind)
                &&& h264_args matches Some(args)
                &&& bytes_mut_seq(response) == record_wire(
                    kind,
                    signaling_addr@,
                    rtp_addr@,
                    ssrc,
                    bytes_seq(args.pps),
                    bytes_seq(args.sps),
                    vec_seqs(peers@),
                )
            },
            Err(e) => {
                &&& e == (if StreamType::named(media_type@).is_none() {
                    RtpError::AddressParse
                } else {
                    RtpError::MissingSpecs
                })
                &&& StreamType::named(media_type@).is_some() ==> h264_args.is_none()
            },
        },
{
    let stream_type = match StreamType::from_tag(media_type) {
        Some(stream_type) => stream_type,
        None => {
            return Err(RtpError::AddressParse);
        },
    };
    let mut response = new_buffer();
    put_slice(&mut response, media_type);
    put_line_end(&mut response);
    put_slice(&mut response, signaling_addr);
    put_line_end(&mut response);
    put_slice(&mut response, rtp_addr);
    put_line_end(&mut response);
    put_u32(&mut response, ssrc);
    put_line_end(&mut response);
    assert(bytes_mut_seq(response) =~= record_head(stream_type, signaling_addr@, rtp_addr@, ssrc));
    let h264_args = match h264_args {
        Some(h264_args) => h264_args,
        None => {
            return Err(RtpError::MissingSpecs);
        },
    };
    match stream_type {
        StreamType::Video => {
            put_slice(&mut response, as_slice(&h264_args.pps));
            put_line_end(&mut response);
            put_slice(&mut response, as_slice(&h264_args.sps));
            let ghost body = bytes_mut_seq(response);
            let ghost all = vec_seqs(peers@);
            let mut k: usize = 0;
            assert(all.take(0) =~= Seq::<Seq<u8>>::empty());
            assert(body + trailing_lines(all.take(0)) =~= body);
            while k < peers.len()
                invariant
                    k <= peers@.len(),
                    all == vec_seqs(peers@),
                    bytes_mut_seq(response) == body + trailing_lines(all.take(k as int)),
                decreases peers@.len() - k,
            {
                put_line_end(&mut response);
                put_slice(&mut response, peers[k].as_slice());
                proof {
                    let next = all.take(k + 1);
                    assert(next.drop_last() =~= all.take(k as int));
                    assert(next.last() == peers@[k as int]@);
                    assert(bytes_mut_seq(response) =~= body + trailing_lines(next));
                }
                k = k + 1;
            }
            assert(all.take(k as int) =~= all);
            assert(bytes_mut_seq(response) =~= record_wire(
                stream_type,
                signaling_addr@,
                rtp_addr@,
                ssrc,
                bytes_seq(h264_args.pps),
                bytes_seq(h264_args.sps),
                all,
            ));
        },
        StreamType::Audio => {},
    }
    Ok(response)
}

/// Where the first line feed of `s` stands, or the length of `s` where it
/// holds none.
pub open spec fn first_line_feed(s: Seq<u8>) -> int
    decreases s.len(),
{
    if s.len() == 0 || s[0] == 0x0A {
        0
    } else {
        1 + first_line_feed(s.skip(1))
    }
}

/// A line without the carriage return that it may end in.
pub open spec fn strip_return(line: Seq<u8>) -> Seq<u8> {
    if line.len() > 0 && line.last() == 0x0D {
        line.drop_last()
    } else {
        line
    }
}

/// The lines of a record: what stands between line feeds, before the first
/// and after the last, each without the carriage return that it may end in.
pub open spec fn record_lines(s: Seq<u8>) -> Seq<Seq<u8>>
    decreases s.len(),
{
    let at = first_line_feed(s);
    if 0 <= at < s.len() {
        seq![strip_return(s.take(at))] + record_lines(s.skip(at + 1))
    } else {
        seq![strip_return(s)]
    }
}

/// The first line feed stands where a line feed stands with none before it.
proof fn lemma_first_line_feed(s: Seq<u8>, at: int)
    requires
        0 <= at <= s.len(),
        forall|j: int| 0 <= j < at ==> s[j] != 0x0A,
        at < s.len() ==> s[at] == 0x0A,
    ensures
        first_line_feed(s) == at,
    decreases s.len(),
{
    if at > 0 {
        assert forall|j: int| 0 <= j < at - 1 implies s.skip(1)[j] != 0x0A by {
            assert(s.skip(1)[j] == s[j + 1]);
        }
        lemma_first_line_feed(s.skip(1), at - 1);
    }
}

/// The contents of each slice of a list.
pub open spec fn line_seqs(v: Seq<&[u8]>) -> Seq<Seq<u8>> {
    Seq::new(v.len(), |i: int| v[i]@)
}

/// A line without the carriage return that it may end in.
fn strip_suffix_return(line: &[u8]) -> (stripped: &[u8])
    ensures
        stripped@ == strip_return(line@),
{
    let n = line.len();
    if n > 0 && line[n - 1] == CARRIAGE_RETURN {
        let stripped = &line[0..n - 1];
        assert(stripped@ =~= line@.drop_last());
        stripped
    } else {
        line
    }
}

/// Splits a record into its lines.
pub fn split_lines(data: &[u8]) -> (lines: Vec<&[u8]>)
    ensures
        line_seqs(lines@) == record_lines(data@),
        lines@.len() >= 1,
{
    let mut lines: Vec<&[u8]> = Vec::new();
    let mut start: usize = 0;
    let mut k: usize = 0;
    assert(data@.skip(0) =~= data@);
    while k < data.len()
        invariant
            start <= k <= data@.len(),
            forall|j: int| start <= j < k ==> data@[j] != 0x0A,
            line_seqs(lines@) + record_lines(data@.skip(start as int)) == record_lines(data@),
        decreases data@.len() - k,
    {
        if data[k] == LINE_FEED {
            let line = strip_suffix_return(&data[start..k]);
            let ghost rest = data@.skip(start as int);
            let ghost before = line_seqs(lines@);
            lines.push(line);
            proof {
                assert forall|j: int| 0 <= j < k - start implies rest[j] != 0x0A by {
                    assert(rest[j] == data@[start + j]);
                }
                lemma_first_line_feed(rest, k - start);
                assert(rest.take(k - start) =~= data@.subrange(start as int, k as int));
                assert(rest.skip(k - start + 1) =~= data@.skip(k + 1));
                assert(line_seqs(lines@) =~= before + seq![line@]);
            }
            start = k + 1;
        }
        k = k + 1;
    }
    let line = strip_suffix_return(&data[start..data.len()]);
    let ghost rest = data@.skip(start as int);
    let ghost before = line_seqs(lines@);
    lines.push(line);
    proof {
        assert forall|j: int| 0 <= j < rest.len() implies rest[j] != 0x0A by {
            assert(rest[j] == data@[start + j]);
        }
        lemma_first_line_feed(rest, rest.len() as int);
        assert(data@.subrange(start as int, data@.len() as int) =~= rest);
        assert(line_seqs(lines@) =~= before + seq![line@]);
    }
    lines
}

/// What a peer announces of itself in a record.
pub struct SignalingRecord<'a> {
    /// The kind of media that the peer sends.
    pub media_type: StreamType,
    /// The address at which the peer takes signaling, as text.
    pub signaling_address: &'a [u8],
    /// The address at which the peer takes RTP, as text.
    pub rtp_address: &'a [u8],
    /// The peer's source identifier.
    pub ssrc: u32,
    /// The peer's picture parameter set.
    pub pps: &'a [u8],
    /// The peer's sequence parameter set.
    pub sps: &'a [u8],
    /// The signaling addresses of the peers that the peer knows, as text.
    pub peer_signaling_addresses: Vec<&'a [u8]>,
}

/// A record as a value.
pub struct RecordView {
    pub media_type: StreamType,
    pub signaling_address: Seq<u8>,
    pub rtp_address: Seq<u8>,
    pub ssrc: u32,
    pub pps: Seq<u8>,
    pub sps: Seq<u8>,
    pub peer_signaling_addresses: Seq<Seq<u8>>,
}

impl<'a> View for SignalingRecord<'a> {
    type V = RecordView;

    open spec fn view(&self) -> RecordView {
        RecordView {
            media_type: self.media_type,
            signaling_address: self.signaling_address@,
            rtp_address: self.rtp_address@,
            ssrc: self.ssrc,
            pps: self.pps@,
            sps: self.sps@,
            peer_signaling_addresses: line_seqs(self.peer_signaling_addresses@),
        }
    }
}

/// Whether the lines of a request make a record: the expected kind of
/// media is named, there are the six lines of a record at least, and the
/// line of the source identifier has its four octets.
pub open spec fn request_complete(request: Seq<Seq<u8>>, media_type: Seq<u8>) -> bool {
    &&& StreamType::named(media_type).is_some()
    &&& request.len() >= 6
    &&& request[3].len() >= 4
}

/// The record that the lines of a complete request spell.
pub open spec fn request_record(request: Seq<Seq<u8>>, media_type: Seq<u8>) -> RecordView {
    RecordView {
        media_type: StreamType::named(media_type).unwrap(),
        signaling_address: request[1],
        rtp_address: request[2],
        ssrc: from_be32(request[3]),
        pps: request[4],
        sps: request[5],
        peer_signaling_addresses: request.skip(6),
    }
}

/// Reads the announcement of a peer from the lines of a request whose kind
/// of media is `media_type`. A request that is not complete is refused as a
/// bad field.
pub fn handle_request<'a>(request: &Vec<&'a [u8]>, media_type: &[u8]) -> (res: Result<
    SignalingRecord<'a>,
    RtpError,
>)
    ensures
        match res {
            Ok(record) => request_complete(line_seqs(request@), media_type@) && record@
                == request_record(line_seqs(request@), media_type@),
            Err(e) => !request_complete(line_seqs(request@), media_type@) && e
                == RtpError::AddressParse,
        },
{
    let ghost lines = line_seqs(request@);
    let stream_type = match StreamType::from_tag(media_type) {
        Some(stream_type) => stream_type,
        None => {
            return Err(RtpError::AddressParse);
        },
    };
    if request.len() < 6 {
        return Err(RtpError::AddressParse);
    }
    let id = request[3];
    assert(id@ == lines[3]);
    if id.len() < 4 {
        return Err(RtpError::AddressParse);
    }
    let ssrc: u32 = (id[0] as u32) * 0x100_0000 + (id[1] as u32) * 0x1_0000 + (id[2] as u32) * 0x100
        + (id[3] as u32);
    let mut peer_signaling_addresses: Vec<&'a [u8]> = Vec::new();
    let mut k: usize = 6;
    while k < request.len()
        invariant
            6 <= k <= request@.len(),
            peer_signaling_addresses@.len() == k - 6,
            forall|i: int|
                0 <= i < k - 6 ==> #[trigger] peer_signaling_addresses@[i] == request@[i + 6],
        decreases request@.len() - k,
    {
        peer_signaling_addresses.push(request[k]);
        k = k + 1;
    }
    let record = SignalingRecord {
        media_type: stream_type,
        signaling_address: request[1],
        rtp_address: request[2],
        ssrc,
        pps: request[4],
        sps: request[5],
        peer_signaling_addresses,
    };
    assert(record@.peer_signaling_addresses =~= lines.skip(6));
    assert(record@.signaling_address == lines[1]);
    assert(record@.rtp_address == lines[2]);
    assert(record@.pps == lines[4]);
    assert(record@.sps == lines[5]);
    Ok(record)
}

/// Takes a peer that has announced itself into the registry and notes its
/// signaling address. A source that is registered already, and the local
/// source, leave the registry as it is; the signaling address is noted
/// either way. The result says whether the peer is new to the registry.
pub fn register_peer(
    peer_manager: &mut PeerManager,
    specifications: &mut PeerSpecifications,
    ssrc: u32,
    media_addr: SocketAddress,
    signaling_addr: SocketAddress,
    consumer_context: usize,
) -> (added: bool)
    requires
        old(peer_manager)@.wf(),
    ensures
        final(peer_manager)@.wf(),
        added == (ssrc != old(peer_manager)@.local_ssrc && !old(peer_manager)@.peers.dom().contains(
            ssrc,
        )),
        added ==> final(peer_manager)@ == (RegistryView {
            peers: old(peer_manager)@.peers.insert(
                ssrc,
                PeerView::fresh(ssrc, media_addr, consumer_context),
            ),
            addresses: old(peer_manager)@.addresses.insert(ssrc, media_addr),
            ..old(peer_manager)@
        }),
        !added ==> final(peer_manager)@ == old(peer_manager)@,
        final(specifications)@ == (SpecificationsView {
            peers: old(specifications)@.peers.insert(signaling_addr),
            ..old(specifications)@
        }),
{
    let added = peer_manager.add_peer(ssrc, media_addr, consumer_context);
    specifications.add_peer(signaling_addr);
    added
}

/// A run of octets that holds no line feed.
pub open spec fn line_feed_free(s: Seq<u8>) -> bool {
    forall|i: int| 0 <= i < s.len() ==> s[i] != 0x0A
}

/// A run of octets that does not end in a carriage return.
pub open spec fn return_free_end(s: Seq<u8>) -> bool {
    s.len() == 0 || s.last() != 0x0D
}

/// A line without a line feed, written with a line end behind it, is read
/// as the first line of what is written.
proof fn lemma_lines_prepend(line: Seq<u8>, rest: Seq<u8>)
    requires
        line_feed_free(line),
    ensures
        record_lines(line + line_end() + rest) == seq![line] + record_lines(rest),
{
    let s = line + line_end() + rest;
    let at: int = line.len() as int + 1;
    assert forall|j: int| 0 <= j < at implies s[j] != 0x0A by {
        if j < line.len() {
            assert(s[j] == line[j]);
        }
    }
    assert(s[at] == line_end()[1]);
    lemma_first_line_feed(s, at);
    assert(s.take(at) =~= line.push(0x0Du8));
    assert(line.push(0x0Du8).drop_last() =~= line);
    assert(s.skip(at + 1) =~= rest);
}

/// A line without a line feed that ends in no carriage return is read as
/// the only line of itself.
proof fn lemma_lines_single(line: Seq<u8>)
    requires
        line_feed_free(line),
        return_free_end(line),
    ensures
        record_lines(line) == seq![line],
{
    lemma_first_line_feed(line, line.len() as int);
}

/// Trailing lines start with a line end and their first line.
proof fn lemma_trailing_front(lines: Seq<Seq<u8>>)
    requires
        lines.len() > 0,
    ensures
        trailing_lines(lines) == line_end() + lines[0] + trailing_lines(lines.skip(1)),
    decreases lines.len(),
{
    if lines.len() == 1 {
        assert(lines.drop_last() =~= Seq::<Seq<u8>>::empty());
        assert(lines.skip(1) =~= Seq::<Seq<u8>>::empty());
        assert(trailing_lines(lines) =~= line_end() + lines[0] + trailing_lines(lines.skip(1)));
    } else {
        lemma_trailing_front(lines.drop_last());
        assert(lines.drop_last().skip(1) =~= lines.skip(1).drop_last());
        assert(lines.skip(1).last() == lines.last());
        assert(trailing_lines(lines) =~= line_end() + lines[0] + trailing_lines(lines.skip(1)));
    }
}

/// A line and the lines that trail it are read back as they were written.
proof fn lemma_lines_trailing(first: Seq<u8>, lines: Seq<Seq<u8>>)
    requires
        line_feed_free(first),
        forall|i: int| 0 <= i < lines.len() ==> line_feed_free(#[trigger] lines[i]),
        return_free_end(
            if lines.len() == 0 {
                first
            } else {
                lines.last()
            },
        ),
    ensures
        record_lines(first + trailing_lines(lines)) == seq![first] + lines,
    decreases lines.len(),
{
    if lines.len() == 0 {
        assert(first + trailing_lines(lines) =~= first);
        lemma_lines_single(first);
        assert(seq![first] + lines =~= seq![first]);
    } else {
        let tail = lines.skip(1);
        lemma_trailing_front(lines);
        let rest = lines[0] + trailing_lines(tail);
        assert(first + trailing_lines(lines) =~= first + line_end() + rest);
        lemma_lines_prepend(first, rest);
        assert forall|i: int| 0 <= i < tail.len() implies line_feed_free(#[trigger] tail[i]) by {
            assert(tail[i] == lines[i + 1]);
        }
        if tail.len() > 0 {
            assert(tail.last() == lines.last());
        }
        lemma_lines_trailing(lines[0], tail);
        assert(seq![first] + (seq![lines[0]] + tail) =~= seq![first] + lines);
    }
}

/// A video record that is written is read back field by field, as long as
/// no field holds a line feed and the last line does not end in a carriage
/// return. The source identifier counts as a field: its four octets must
/// hold no line feed either.
pub proof fn lemma_record_roundtrip(
    signaling_addr: Seq<u8>,
    rtp_addr: Seq<u8>,
    ssrc: u32,
    pps: Seq<u8>,
    sps: Seq<u8>,
    peers: Seq<Seq<u8>>,
)
    requires
        line_feed_free(signaling_addr),
        line_feed_free(rtp_addr),
        line_feed_free(be32(ssrc)),
        line_feed_free(pps),
        line_feed_free(sps),
        forall|i: int| 0 <= i < peers.len() ==> line_feed_free(#[trigger] peers[i]),
        return_free_end(
            if peers.len() == 0 {
                sps
            } else {
                peers.last()
            },
        ),
    ensures
        request_complete(
            record_lines(
                record_wire(StreamType::Video, signaling_addr, rtp_addr, ssrc, pps, sps, peers),
            ),
            StreamType::Video.tag(),
        ),
        request_record(
            record_lines(
                record_wire(StreamType::Video, signaling_addr, rtp_addr, ssrc, pps, sps, peers),
            ),
            StreamType::Video.tag(),
        ) == (RecordView {
            media_type: StreamType::Video,
            signaling_address: signaling_addr,
            rtp_address: rtp_addr,
            ssrc,
            pps,
            sps,
            peer_signaling_addresses: peers,
        }),
{
    let tag = StreamType::Video.tag();
    let wire = record_wire(StreamType::Video, signaling_addr, rtp_addr, ssrc, pps, sps, peers);
    let r5 = sps + trailing_lines(peers);
    let r4 = pps + line_end() + r5;
    let r3 = be32(ssrc) + line_end() + r4;
    let r2 = rtp_addr + line_end() + r3;
    let r1 = signaling_addr + line_end() + r2;
    assert(wire =~= tag + line_end() + r1);
    assert(line_feed_free(tag));
    lemma_lines_prepend(tag, r1);
    lemma_lines_prepend(signaling_addr, r2);
    lemma_lines_prepend(rtp_addr, r3);
    lemma_lines_prepend(be32(ssrc), r4);
    lemma_lines_prepend(pps, r5);
    lemma_lines_trailing(sps, peers);
    let lines = record_lines(wire);
    assert(lines =~= seq![tag, signaling_addr, rtp_addr, be32(ssrc), pps, sps] + peers);
    lemma_be32_roundtrip(ssrc);
    assert(lines.skip(6) =~= peers);
}

} // verus!
