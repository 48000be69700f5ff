//! The header of a video datagram.
//!
//! A datagram is a 12-byte RTP header, four reserved bytes, a 16-byte packet header and the
//! payload of one shard. The first shard of a frame starts with an 8-byte frame header.
use vstd::prelude::*;

use crate::bytes::{be16_at, le16_at, le32_at, read_be16, read_le16, read_le32};

verus! {

pub const RTP_HEADER_LEN: usize = 12;

pub const RESERVED_LEN: usize = 4;

/// Where the packet header starts.
pub const NV_OFFSET: usize = RTP_HEADER_LEN + RESERVED_LEN;

pub const FLAG_PIC_DATA: u8 = 0x01;

pub const FLAG_EOF: u8 = 0x02;

pub const FLAG_SOF: u8 = 0x04;

pub const NV_HEADER_LEN: usize = 16;

/// Where the payload of the shard starts.
pub const PAYLOAD_OFFSET: usize = NV_OFFSET + NV_HEADER_LEN;

/// The length of the frame header that starts the first shard of a frame.
pub const SHORT_FRAME_HEADER_LEN: usize = 8;

/// The fields of a packet header that reassembly needs.
#[derive(Debug, Clone, Copy, PartialEq, Eq, Structural)]
pub struct VideoHeader {
    /// RTP sequence number.
    pub rtp_seq: u16,
    /// Frame counter.
    pub frame_index: u32,
    /// Index of the packet in the stream.
    pub stream_packet_index: u32,
    /// Picture data, end of frame and start of frame flags.
    pub flags: u8,
    /// Index of the shard in its block, data shards first.
    pub shard_index: u16,
    /// Number of data shards in the block.
    pub data_shards: u16,
    /// Parity overhead in percent of the data shards.
    pub fec_percentage: u8,
}

/// The header that a datagram of at least [`PAYLOAD_OFFSET`] bytes carries.
pub open spec fn header_of(pkt: Seq<u8>) -> VideoHeader {
    let fec_info = le32_at(pkt, NV_OFFSET + 12);
    VideoHeader {
        rtp_seq: be16_at(pkt, 2),
        frame_index: le32_at(pkt, NV_OFFSET + 4),
        stream_packet_index: le32_at(pkt, NV_OFFSET as int),
        flags: pkt[NV_OFFSET + 8],
        shard_index: (fec_info / 0x1000 % 0x400) as u16,
        data_shards: (fec_info / 0x40_0000) as u16,
        fec_percentage: (fec_info / 0x10 % 0x100) as u8,
    }
}

impl VideoHeader {
    /// Whether the packet starts a frame.
    pub fn is_sof(&self) -> (r: bool)
        ensures
            r == (self.flags & FLAG_SOF != 0),
    {
        self.flags & FLAG_SOF != 0
    }

    /// Whether the packet ends a frame.
    pub fn is_eof(&self) -> (r: bool)
        ensures
            r == (self.flags & FLAG_EOF != 0),
    {
        self.flags & FLAG_EOF != 0
    }
}

/// Parse the header of a received datagram; `None` if it is too short.
pub fn parse_header(pkt: &[u8]) -> (r: Option<VideoHeader>)
    ensures
        r == if pkt@.len() < PAYLOAD_OFFSET {
            None
        } else {
            Some(header_of(pkt@))
        },
{
    if pkt.len() < PAYLOAD_OFFSET {
        return None;
    }
    let fec_info: u32 = read_le32(pkt, NV_OFFSET + 12);
    assert((fec_info >> 12) & 0x3ff == fec_info / 0x1000 % 0x400 && (fec_info >> 22) & 0x3ff
        == fec_info / 0x40_0000 && (fec_info >> 4) & 0xff == fec_info / 0x10 % 0x100)
        by (bit_vector);
    Some(
        VideoHeader {
            rtp_seq: read_be16(pkt, 2),
            frame_index: read_le32(pkt, NV_OFFSET + 4),
            stream_packet_index: read_le32(pkt, NV_OFFSET),
            flags: pkt[NV_OFFSET + 8],
            shard_index: ((fec_info >> 12) & 0x3ff) as u16,
            data_shards: ((fec_info >> 22) & 0x3ff) as u16,
            fec_percentage: ((fec_info >> 4) & 0xff) as u8,
        },
    )
}

/// The frame type in the frame header that follows the packet header of a first packet: 2 is a
/// keyframe.
pub fn sof_frame_type(pkt: &[u8]) -> (r: Option<u8>)
    ensures
        r == if pkt@.len() > PAYLOAD_OFFSET + 3 {
            Some(pkt@[PAYLOAD_OFFSET + 3])
        } else {
            None
        },
{
    if pkt.len() > PAYLOAD_OFFSET + 3 {
        Some(pkt[PAYLOAD_OFFSET + 3])
    } else {
        None
    }
}

/// The latency of the host, in tenths of a millisecond, that the frame header tells in a packet that
/// starts a frame.
pub open spec fn told_latency(pkt: Seq<u8>) -> Option<u16> {
    if pkt.len() >= PAYLOAD_OFFSET + 3 && pkt[NV_OFFSET + 8] & FLAG_SOF != 0 {
        Some(le16_at(pkt, PAYLOAD_OFFSET + 1))
    } else {
        None
    }
}

/// The latency of the host that a packet tells; `None` if it starts no frame.
pub fn sof_host_latency(pkt: &[u8]) -> (r: Option<u16>)
    ensures
        r == told_latency(pkt@),
{
    if pkt.len() >= PAYLOAD_OFFSET + 3 && pkt[NV_OFFSET + 8] & FLAG_SOF != 0 {
        Some(read_le16(pkt, PAYLOAD_OFFSET + 1))
    } else {
        None
    }
}

/// Where the coded data starts: after the packet header, and after the frame header in a packet
/// that starts a frame.
pub fn payload_offset(h: &VideoHeader) -> (r: usize)
    ensures
        r == if h.flags & FLAG_SOF != 0 {
            PAYLOAD_OFFSET + SHORT_FRAME_HEADER_LEN
        } else {
            PAYLOAD_OFFSET as int
        },
{
    if h.is_sof() {
        PAYLOAD_OFFSET + SHORT_FRAME_HEADER_LEN
    } else {
        PAYLOAD_OFFSET
    }
}

/// Where a start of a frame tells the latency of the host: in the second and third byte of the
/// frame header, the lower one first.
pub proof fn law_told_latency(pkt: Seq<u8>)
    ensures
        pkt.len() >= 35 && pkt[24] / 4 % 2 == 1 ==> told_latency(pkt) == Some(
            (pkt[33] + 256 * pkt[34]) as u16,
        ),
        pkt.len() < 35 || pkt[24] / 4 % 2 == 0 ==> told_latency(pkt) is None,
        PAYLOAD_OFFSET == 32,
        SHORT_FRAME_HEADER_LEN == 8,
        FLAG_PIC_DATA == 1 && FLAG_EOF == 2 && FLAG_SOF == 4,
{
    if pkt.len() > 24 {
        let f = pkt[24];
        assert((f & 4 != 0) == (f / 4 % 2 == 1)) by (bit_vector);
    }
}

} // verus!
