//! Builders of packets and captures.
use vstd::prelude::*;

use crate::bytes::{
    be16_at, be16_bytes, be32_at, be32_bytes, law_read_of_write, le16_bytes, le32_bytes, push_be16,
    push_be32, push_le16, push_le32, push_slice,
};
use crate::slicer::l2l4::{
    ethernet_payload, frame_contents, ip_contents, ipv4_contents, ipv4_text, transport, L4View,
    Proto, DLT_EN10MB,
};

verus! {

/// Six bytes of zeros twice: the addresses of an Ethernet frame.
pub open spec fn no_addresses() -> Seq<u8> {
    Seq::new(12, |i: int| 0u8)
}

/// An Ethernet frame.
pub open spec fn eth_frame(ethertype: u16, payload: Seq<u8>) -> Seq<u8> {
    no_addresses() + be16_bytes(ethertype) + payload
}

/// Wrap a packet in an Ethernet frame.
pub fn eth(ethertype: u16, payload: &[u8]) -> (r: Vec<u8>)
    ensures
        r@ == eth_frame(ethertype, payload@),
{
    let mut v: Vec<u8> = Vec::new();
    while v.len() < 12
        invariant
            v.len() <= 12,
            forall|i: int| 0 <= i < v.len() ==> #[trigger] v@[i] == 0,
        decreases 12 - v.len(),
    {
        v.push(0);
    }
    assert(v@ =~= no_addresses());
    push_be16(&mut v, ethertype);
    push_slice(&mut v, payload);
    v
}

/// An IPv4 packet with a header of twenty bytes and no checksum.
pub open spec fn ipv4_packet(proto: u8, src: Seq<u8>, dst: Seq<u8>, l4: Seq<u8>) -> Seq<u8> {
    seq![0x45u8, 0u8] + be16_bytes((20 + l4.len()) as u16) + seq![
        0u8,
        0u8,
        0u8,
        0u8,
        64u8,
        proto,
        0u8,
        0u8,
    ] + src + dst + l4
}

/// Build an IPv4 packet.
pub fn ipv4(proto: u8, src: [u8; 4], dst: [u8; 4], l4: &[u8]) -> (r: Vec<u8>)
    requires
        20 + l4.len() <= usize::MAX,
    ensures
        r@ == ipv4_packet(proto, src@, dst@, l4@),
{
    let mut v: Vec<u8> = Vec::new();
    v.push(0x45);
    v.push(0);
    assert(v@ =~= seq![0x45u8, 0u8]);
    push_be16(&mut v, (20 + l4.len()) as u16);
    let rest: [u8; 8] = [0, 0, 0, 0, 64, proto, 0, 0];
    assert(rest@ =~= seq![0u8, 0u8, 0u8, 0u8, 64u8, proto, 0u8, 0u8]);
    push_slice(&mut v, &rest);
    push_slice(&mut v, &src);
    push_slice(&mut v, &dst);
    push_slice(&mut v, l4);
    v
}

/// A UDP datagram without a checksum.
pub open spec fn udp_datagram(src_port: u16, dst_port: u16, payload: Seq<u8>) -> Seq<u8> {
    be16_bytes(src_port) + be16_bytes(dst_port) + be16_bytes((8 + payload.len()) as u16) + seq![
        0u8,
        0u8,
    ] + payload
}

/// Build a UDP datagram.
pub fn udp(src_port: u16, dst_port: u16, payload: &[u8]) -> (r: Vec<u8>)
    requires
        8 + payload.len() <= usize::MAX,
    ensures
        r@ == udp_datagram(src_port, dst_port, payload@),
{
    let mut v: Vec<u8> = Vec::new();
    push_be16(&mut v, src_port);
    assert(v@ =~= be16_bytes(src_port));
    push_be16(&mut v, dst_port);
    push_be16(&mut v, (8 + payload.len()) as u16);
    let rest: [u8; 2] = [0, 0];
    assert(rest@ =~= seq![0u8, 0u8]);
    push_slice(&mut v, &rest);
    push_slice(&mut v, payload);
    v
}

/// A TCP segment with a header of twenty bytes.
pub open spec fn tcp_segment(src_port: u16, dst_port: u16, seq: u32, payload: Seq<u8>) -> Seq<u8> {
    be16_bytes(src_port) + be16_bytes(dst_port) + be32_bytes(seq) + seq![
        0u8,
        0u8,
        0u8,
        0u8,
        0x50u8,
        0x18u8,
        0u8,
        0u8,
        0u8,
        0u8,
        0u8,
        0u8,
    ] + payload
}

/// Build a TCP segment.
pub fn tcp(src_port: u16, dst_port: u16, seq: u32, payload: &[u8]) -> (r: Vec<u8>)
    ensures
        r@ == tcp_segment(src_port, dst_port, seq, payload@),
{
    let mut v: Vec<u8> = Vec::new();
    push_be16(&mut v, src_port);
    assert(v@ =~= be16_bytes(src_port));
    push_be16(&mut v, dst_port);
    push_be32(&mut v, seq);
    let rest: [u8; 12] = [0, 0, 0, 0, 0x50, 0x18, 0, 0, 0, 0, 0, 0];
    assert(rest@ =~= seq![
        0u8,
        0u8,
        0u8,
        0u8,
        0x50u8,
        0x18u8,
        0u8,
        0u8,
        0u8,
        0u8,
        0u8,
        0u8,
    ]);
    push_slice(&mut v, &rest);
    push_slice(&mut v, payload);
    v
}

/// The header of a capture file in little-endian order.
pub open spec fn pcap_header(datalink: u32) -> Seq<u8> {
    le32_bytes(0xa1b2_c3d4) + le16_bytes(2) + le16_bytes(4) + le32_bytes(0) + le32_bytes(0)
        + le32_bytes(65535) + le32_bytes(datalink)
}

/// One record of a capture file.
pub open spec fn pcap_record(frame: Seq<u8>) -> Seq<u8> {
    le32_bytes(0) + le32_bytes(0) + le32_bytes(frame.len() as u32) + le32_bytes(
        frame.len() as u32,
    ) + frame
}

/// The records of the first `n` frames.
pub open spec fn pcap_records(frames: Seq<Seq<u8>>, n: nat) -> Seq<u8>
    decreases n,
{
    if n == 0 {
        Seq::empty()
    } else {
        pcap_records(frames, (n - 1) as nat) + pcap_record(frames[n - 1])
    }
}

/// A capture file.
pub open spec fn pcap_file(datalink: u32, frames: Seq<Seq<u8>>) -> Seq<u8> {
    pcap_header(datalink) + pcap_records(frames, frames.len())
}

/// Build a capture file of the given frames.
pub fn pcap(datalink: u32, frames: &[Vec<u8>]) -> (r: Vec<u8>)
    ensures
        r@ == pcap_file(datalink, frames@.map_values(|f: Vec<u8>| f@)),
{
    let ghost all = frames@.map_values(|f: Vec<u8>| f@);
    let mut v: Vec<u8> = Vec::new();
    push_le32(&mut v, 0xa1b2_c3d4);
    assert(v@ =~= le32_bytes(0xa1b2_c3d4));
    push_le16(&mut v, 2);
    push_le16(&mut v, 4);
    push_le32(&mut v, 0);
    push_le32(&mut v, 0);
    push_le32(&mut v, 65535);
    push_le32(&mut v, datalink);
    let ghost header = v@;
    assert(header + pcap_records(all, 0) =~= header);
    let mut i: usize = 0;
    while i < frames.len()
        invariant
            i <= frames.len(),
            all == frames@.map_values(|f: Vec<u8>| f@),
            v@ == header + pcap_records(all, i as nat),
        decreases frames.len() - i,
    {
        let f = &frames[i];
        assert(f@ == all[i as int]);
        let ghost before = v@;
        push_le32(&mut v, 0);
        push_le32(&mut v, 0);
        push_le32(&mut v, f.len() as u32);
        push_le32(&mut v, f.len() as u32);
        push_slice(&mut v, f);
        assert(v@ =~= before + pcap_record(f@));
        i += 1;
        assert(v@ =~= header + pcap_records(all, i as nat));
    }
    v
}

/// Parsing gives back the ports, the addresses and the payload of a datagram that was built.
pub proof fn law_udp_frame_parses(
    src: Seq<u8>,
    dst: Seq<u8>,
    src_port: u16,
    dst_port: u16,
    payload: Seq<u8>,
)
    requires
        src.len() == 4,
        dst.len() == 4,
    ensures
        frame_contents(
            DLT_EN10MB,
            eth_frame(0x0800, ipv4_packet(17, src, dst, udp_datagram(src_port, dst_port, payload))),
        ) == Some(
            L4View {
                proto: Proto::Udp,
                src_ip: ipv4_text(src),
                dst_ip: ipv4_text(dst),
                src_port,
                dst_port,
                seq: 0,
                payload,
            },
        ),
{
    let l4 = udp_datagram(src_port, dst_port, payload);
    lemma_ipv4_frame(17, src, dst, l4);
    assert(l4.skip(8) =~= payload);
    assert(l4[0] == be16_bytes(src_port)[0] && l4[1] == be16_bytes(src_port)[1]);
    assert(l4[2] == be16_bytes(dst_port)[0] && l4[3] == be16_bytes(dst_port)[1]);
}

/// Parsing gives back the ports, the sequence number and the payload of a segment that was
/// built.
pub proof fn law_tcp_frame_parses(
    src: Seq<u8>,
    dst: Seq<u8>,
    src_port: u16,
    dst_port: u16,
    seq: u32,
    payload: Seq<u8>,
)
    requires
        src.len() == 4,
        dst.len() == 4,
    ensures
        frame_contents(
            DLT_EN10MB,
            eth_frame(
                0x0800,
                ipv4_packet(6, src, dst, tcp_segment(src_port, dst_port, seq, payload)),
            ),
        ) == Some(
            L4View {
                proto: Proto::Tcp,
                src_ip: ipv4_text(src),
                dst_ip: ipv4_text(dst),
                src_port,
                dst_port,
                seq,
                payload,
            },
        ),
{
    let l4 = tcp_segment(src_port, dst_port, seq, payload);
    lemma_tcp_fields(src_port, dst_port, seq, payload);
    lemma_ipv4_frame(6, src, dst, l4);
}

/// Where the fields of a segment are.
#[verifier::spinoff_prover]
#[verifier::rlimit(30)]
proof fn lemma_tcp_fields(src_port: u16, dst_port: u16, seq: u32, payload: Seq<u8>)
    ensures
        ({
            let l4 = tcp_segment(src_port, dst_port, seq, payload);
            &&& l4.len() == 20 + payload.len()
            &&& l4[12] == 0x50
            &&& be16_at(l4, 0) == src_port
            &&& be16_at(l4, 2) == dst_port
            &&& be32_at(l4, 4) == seq
            &&& l4.skip(20) == payload
        }),
{
    let l4 = tcp_segment(src_port, dst_port, seq, payload);
    let (a, b, c) = (be16_bytes(src_port), be16_bytes(dst_port), be32_bytes(seq));
    let fixed = seq![0u8, 0u8, 0u8, 0u8, 0x50u8, 0x18u8, 0u8, 0u8, 0u8, 0u8, 0u8, 0u8];
    let tail = fixed + payload;
    assert(l4 =~= a + b + c + tail);
    assert(l4[12] == tail[4]);
    assert(l4.skip(20) =~= payload);
    law_read_of_write(Seq::empty(), b + c + tail, src_port, 0);
    assert(l4 =~= Seq::<u8>::empty() + a + (b + c + tail));
    law_read_of_write(a, c + tail, dst_port, 0);
    assert(l4 =~= a + b + (c + tail));
    law_read_of_write(a + b, tail, 0, seq);
    assert(l4 =~= (a + b) + c + tail);
}

proof fn lemma_ipv4_frame(proto: u8, src: Seq<u8>, dst: Seq<u8>, l4: Seq<u8>)
    requires
        src.len() == 4,
        dst.len() == 4,
    ensures
        frame_contents(DLT_EN10MB, eth_frame(0x0800, ipv4_packet(proto, src, dst, l4)))
            == transport(proto, ipv4_text(src), ipv4_text(dst), l4),
{
    let ip = ipv4_packet(proto, src, dst, l4);
    let f = eth_frame(0x0800, ip);
    assert(f[12] == be16_bytes(0x0800)[0] && f[13] == be16_bytes(0x0800)[1]);
    assert(be16_at(f, 12) == 0x0800);
    assert(f.skip(14) =~= ip);
    assert(ethernet_payload(f) == Some(ip));
    assert(ip[0] == 0x45 && ip[6] == 0 && ip[7] == 0 && ip[9] == proto);
    assert(be16_at(ip, 6) == 0);
    assert(ip.subrange(12, 16) =~= src);
    assert(ip.subrange(16, 20) =~= dst);
    assert(ip.skip(20) =~= l4);
    assert(ipv4_contents(ip) == transport(proto, ipv4_text(src), ipv4_text(dst), l4));
    assert(ip_contents(ip) == ipv4_contents(ip));
}

} // verus!
