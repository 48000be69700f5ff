//! The header of an audio datagram.
use vstd::prelude::*;
use vstd::slice::slice_subrange;

use crate::bytes::{be16_at, be32_at, big, law_numbers, read_be16, read_be32};

verus! {

/// Length of the header; the payload follows it.
pub const RTP_HEADER_LEN: usize = 12;

/// The type of a packet with coded audio.
pub const PACKET_TYPE_DATA: u8 = 97;

/// The type of a packet with parity.
pub const PACKET_TYPE_FEC: u8 = 127;

/// The header of an audio datagram.
#[derive(Debug, Clone, Copy, PartialEq, Eq, Structural)]
pub struct AudioHeader {
    pub packet_type: u8,
    pub sequence: u16,
    pub timestamp: u32,
}

/// The header of a datagram of at least [`RTP_HEADER_LEN`] bytes.
pub open spec fn audio_header(pkt: Seq<u8>) -> AudioHeader {
    AudioHeader {
        packet_type: pkt[1],
        sequence: be16_at(pkt, 2),
        timestamp: be32_at(pkt, 4),
    }
}

impl AudioHeader {
    /// Whether the packet carries coded audio.
    pub fn is_data(&self) -> (r: bool)
        ensures
            r == (self.packet_type == PACKET_TYPE_DATA),
    {
        self.packet_type == PACKET_TYPE_DATA
    }

    /// Whether the packet carries parity.
    pub fn is_fec(&self) -> (r: bool)
        ensures
            r == (self.packet_type == PACKET_TYPE_FEC),
    {
        self.packet_type == PACKET_TYPE_FEC
    }
}

/// Parse the header of a datagram; `None` if it is too short.
pub fn parse(pkt: &[u8]) -> (r: Option<AudioHeader>)
    ensures
        r == if pkt@.len() < RTP_HEADER_LEN {
            None
        } else {
            Some(audio_header(pkt@))
        },
{
    if pkt.len() < RTP_HEADER_LEN {
        return None;
    }
    Some(
        AudioHeader {
            packet_type: pkt[1],
            sequence: read_be16(pkt, 2),
            timestamp: read_be32(pkt, 4),
        },
    )
}

/// The coded audio of a datagram; `None` if it carries none.
pub fn opus_payload<'a>(pkt: &'a [u8]) -> (r: Option<&'a [u8]>)
    ensures
        r is Some <==> pkt@.len() > RTP_HEADER_LEN && pkt@[1] == PACKET_TYPE_DATA,
        r matches Some(p) ==> p@ == pkt@.skip(RTP_HEADER_LEN as int),
{
    let h = match parse(pkt) {
        Some(h) => h,
        None => {
            return None;
        },
    };
    if !h.is_data() || pkt.len() <= RTP_HEADER_LEN {
        return None;
    }
    let payload = slice_subrange(pkt, RTP_HEADER_LEN, pkt.len());
    assert(payload@ =~= pkt@.skip(RTP_HEADER_LEN as int));
    Some(payload)
}

/// The header of an audio datagram is read as it was written, and the types are those of hosts.
pub proof fn law_audio_header(pkt: Seq<u8>)
    requires
        pkt.len() >= 12,
    ensures
        audio_header(pkt).packet_type == pkt[1],
        audio_header(pkt).sequence == big(pkt.subrange(2, 4)),
        audio_header(pkt).timestamp == big(pkt.subrange(4, 8)),
        RTP_HEADER_LEN == 12,
        PACKET_TYPE_DATA == 97,
        PACKET_TYPE_FEC == 127,
{
    law_numbers(pkt, 2, 0, 0);
    law_numbers(pkt, 4, 0, 0);
}

} // verus!
