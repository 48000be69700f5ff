//! Packets as they stand on a link: what taking a frame apart gives back of them.
//!
//! The fields of a header are byte strings here, and numbers are read from them place by place.
use vstd::prelude::*;
use vstd::string::*;

use crate::bytes::{be16_at, big, lemma_big2, lemma_big4};
use crate::slicer::l2l4::{
    frame_contents, hex_group, ip_contents, ipv4_text, ipv6_groups, network_packet, transport, Proto,
};
use crate::text::{
    decimal, is_digit, law_parsed_decimal, lemma_decimal, lemma_split_first, parsed, split,
};

verus! {

/// The fields of a TCP segment.
pub struct TcpFields {
    pub src_port: Seq<u8>,
    pub dst_port: Seq<u8>,
    pub seq: Seq<u8>,
    pub ack: Seq<u8>,
    /// The length of the header in words of four bytes, in the upper half of a byte.
    pub offset: u8,
    /// Flags, window, checksum and urgent pointer.
    pub rest: Seq<u8>,
    pub options: Seq<u8>,
    pub payload: Seq<u8>,
}

impl TcpFields {
    /// The fields have their lengths, and the offset tells that of the options.
    pub open spec fn valid(self) -> bool {
        &&& self.src_port.len() == 2
        &&& self.dst_port.len() == 2
        &&& self.seq.len() == 4
        &&& self.ack.len() == 4
        &&& self.rest.len() == 7
        &&& self.offset >= 80
        &&& self.options.len() == 4 * (self.offset / 16 - 5)
    }

    /// The segment.
    pub open spec fn bytes(self) -> Seq<u8> {
        self.src_port + self.dst_port + self.seq + self.ack + seq![self.offset] + self.rest
            + self.options + self.payload
    }
}

/// A TCP segment with options of any length is taken apart: its ports, its sequence number, and
/// as its payload all that follows the options.
pub proof fn law_tcp_segment(t: TcpFields, src: Seq<char>, dst: Seq<char>)
    requires
        t.valid(),
    ensures
        transport(6, src, dst, t.bytes()) matches Some(p) && {
            &&& p.proto == Proto::Tcp
            &&& p.src_ip == src
            &&& p.dst_ip == dst
            &&& p.src_port == big(t.src_port)
            &&& p.dst_port == big(t.dst_port)
            &&& p.seq == big(t.seq)
            &&& p.payload == t.payload
        },
{
    let b = t.bytes();
    lemma_big2(t.src_port);
    lemma_big2(t.dst_port);
    lemma_big4(t.seq);
    assert(b[0] == t.src_port[0] && b[1] == t.src_port[1]);
    assert(b[2] == t.dst_port[0] && b[3] == t.dst_port[1]);
    assert(b[4] == t.seq[0] && b[5] == t.seq[1] && b[6] == t.seq[2] && b[7] == t.seq[3]);
    assert(b[12] == t.offset);
    let n = 20 + t.options.len();
    assert(b.len() == n + t.payload.len());
    assert(b.skip(n as int) =~= t.payload);
    assert((t.offset / 16) as nat * 4 == n);
}

/// The fields of a UDP datagram.
pub struct UdpFields {
    pub src_port: Seq<u8>,
    pub dst_port: Seq<u8>,
    /// Length and checksum.
    pub rest: Seq<u8>,
    pub payload: Seq<u8>,
}

impl UdpFields {
    /// The fields have their lengths.
    pub open spec fn valid(self) -> bool {
        self.src_port.len() == 2 && self.dst_port.len() == 2 && self.rest.len() == 4
    }

    /// The datagram.
    pub open spec fn bytes(self) -> Seq<u8> {
        self.src_port + self.dst_port + self.rest + self.payload
    }
}

/// A UDP datagram is taken apart: its ports and its payload.
pub proof fn law_udp_datagram(u: UdpFields, src: Seq<char>, dst: Seq<char>)
    requires
        u.valid(),
    ensures
        transport(17, src, dst, u.bytes()) matches Some(p) && {
            &&& p.proto == Proto::Udp
            &&& p.src_ip == src
            &&& p.dst_ip == dst
            &&& p.src_port == big(u.src_port)
            &&& p.dst_port == big(u.dst_port)
            &&& p.seq == 0
            &&& p.payload == u.payload
        },
{
    let b = u.bytes();
    lemma_big2(u.src_port);
    lemma_big2(u.dst_port);
    assert(b[0] == u.src_port[0] && b[1] == u.src_port[1]);
    assert(b[2] == u.dst_port[0] && b[3] == u.dst_port[1]);
    assert(b.skip(8) =~= u.payload);
}

/// Other protocols, and headers that are cut off, carry nothing.
pub proof fn law_other_transport(proto: u8, src: Seq<char>, dst: Seq<char>, l4: Seq<u8>)
    ensures
        proto != 6 && proto != 17 ==> transport(proto, src, dst, l4) is None,
        proto == 6 && l4.len() < 20 ==> transport(proto, src, dst, l4) is None,
        proto == 6 && l4.len() >= 20 && (l4[12] < 80 || l4[12] / 16 * 4 > l4.len()) ==> transport(
            proto,
            src,
            dst,
            l4,
        ) is None,
        proto == 17 && l4.len() < 8 ==> transport(proto, src, dst, l4) is None,
{
}

/// The fields of an IPv4 packet.
pub struct Ipv4Fields {
    /// Version and length of the header in words of four bytes.
    pub version: u8,
    /// Service, length and identification.
    pub service: Seq<u8>,
    /// Flags and fragment offset.
    pub fragment: Seq<u8>,
    pub ttl: u8,
    pub proto: u8,
    pub checksum: Seq<u8>,
    pub src: Seq<u8>,
    pub dst: Seq<u8>,
    pub options: Seq<u8>,
    pub body: Seq<u8>,
}

impl Ipv4Fields {
    /// The fields have their lengths, and the first byte tells that of the options.
    pub open spec fn valid(self) -> bool {
        &&& 69 <= self.version < 80
        &&& self.service.len() == 5
        &&& self.fragment.len() == 2
        &&& self.checksum.len() == 2
        &&& self.src.len() == 4
        &&& self.dst.len() == 4
        &&& self.options.len() == 4 * (self.version - 69)
    }

    /// Whether the packet is a fragment: more of them follow, or it starts behind others.
    pub open spec fn is_fragment(self) -> bool {
        big(self.fragment) % 0x4000 != 0
    }

    /// The packet.
    pub open spec fn bytes(self) -> Seq<u8> {
        seq![self.version] + self.service + self.fragment + seq![self.ttl, self.proto]
            + self.checksum + self.src + self.dst + self.options + self.body
    }
}

/// An IPv4 packet with options of any length is taken apart, unless it is a fragment: what its
/// body holds goes between its addresses.
pub proof fn law_ipv4_packet(p: Ipv4Fields)
    requires
        p.valid(),
    ensures
        ip_contents(p.bytes()) == if p.is_fragment() {
            None
        } else {
            transport(p.proto, ipv4_text(p.src), ipv4_text(p.dst), p.body)
        },
{
    let b = p.bytes();
    lemma_big2(p.fragment);
    assert(b[0] == p.version);
    assert(b[6] == p.fragment[0] && b[7] == p.fragment[1]);
    assert(b[9] == p.proto);
    assert(b.subrange(12, 16) =~= p.src);
    assert(b.subrange(16, 20) =~= p.dst);
    let n = 20 + p.options.len();
    assert(b.len() == n + p.body.len());
    assert(b.skip(n as int) =~= p.body);
    assert((p.version % 16) as nat * 4 == n);
}

/// The fields of an IPv6 packet.
pub struct Ipv6Fields {
    /// Version, traffic class and flow label.
    pub version: Seq<u8>,
    pub length: Seq<u8>,
    pub next: u8,
    pub hops: u8,
    pub src: Seq<u8>,
    pub dst: Seq<u8>,
    pub body: Seq<u8>,
}

impl Ipv6Fields {
    /// The fields have their lengths.
    pub open spec fn valid(self) -> bool {
        &&& self.version.len() == 4
        &&& 96 <= self.version[0] < 112
        &&& self.length.len() == 2
        &&& self.src.len() == 16
        &&& self.dst.len() == 16
    }

    /// The packet.
    pub open spec fn bytes(self) -> Seq<u8> {
        self.version + self.length + seq![self.next, self.hops] + self.src + self.dst + self.body
    }
}

/// An IPv6 packet is taken apart: what its body holds goes between its addresses.
pub proof fn law_ipv6_packet(p: Ipv6Fields)
    requires
        p.valid(),
    ensures
        ip_contents(p.bytes()) == transport(
            p.next,
            ipv6_groups(p.src, 8),
            ipv6_groups(p.dst, 8),
            p.body,
        ),
{
    let b = p.bytes();
    assert(b[0] == p.version[0]);
    assert(b[6] == p.next);
    assert(b.subrange(8, 24) =~= p.src);
    assert(b.subrange(24, 40) =~= p.dst);
    assert(b.skip(40) =~= p.body);
}

/// Packets of other versions carry nothing.
pub proof fn law_other_version(ip: Seq<u8>)
    requires
        ip.len() == 0 || !(64 <= ip[0] < 80 || 96 <= ip[0] < 112),
    ensures
        ip_contents(ip) is None,
{
}

/// Whether an Ethernet type is that of IP.
pub open spec fn is_ip_type(kind: Seq<u8>) -> bool {
    big(kind) == 0x0800 || big(kind) == 0x86dd
}

/// The packet in an Ethernet frame is what follows the type, if that is IP.
pub proof fn law_ethernet_frame(addresses: Seq<u8>, kind: Seq<u8>, packet: Seq<u8>)
    requires
        addresses.len() == 12,
        kind.len() == 2,
        big(kind) != 0x8100,
    ensures
        network_packet(1, addresses + kind + packet) == if is_ip_type(kind) {
            Some(packet)
        } else {
            None
        },
{
    let f = addresses + kind + packet;
    lemma_big2(kind);
    assert(f[12] == kind[0] && f[13] == kind[1]);
    assert(f.skip(14) =~= packet);
}

/// The packet in an Ethernet frame with a VLAN tag is what follows the inner type, if that is IP.
pub proof fn law_tagged_frame(
    addresses: Seq<u8>,
    tag: Seq<u8>,
    vlan: Seq<u8>,
    kind: Seq<u8>,
    packet: Seq<u8>,
)
    requires
        addresses.len() == 12,
        tag.len() == 2,
        big(tag) == 0x8100,
        vlan.len() == 2,
        kind.len() == 2,
    ensures
        network_packet(1, addresses + tag + vlan + kind + packet) == if is_ip_type(kind) {
            Some(packet)
        } else {
            None
        },
{
    let f = addresses + tag + vlan + kind + packet;
    lemma_big2(tag);
    lemma_big2(kind);
    assert(f[12] == tag[0] && f[13] == tag[1]);
    assert(f[16] == kind[0] && f[17] == kind[1]);
    assert(f.skip(18) =~= packet);
}

/// On the other links the packet follows a header of a fixed length, and on a link of another type
/// nothing is found.
pub proof fn law_other_links(header: Seq<u8>, packet: Seq<u8>, datalink: u32)
    ensures
        header.len() == 16 ==> network_packet(113, header + packet) == Some(packet),
        header.len() == 4 ==> network_packet(0, header + packet) == Some(packet),
        network_packet(101, packet) == Some(packet),
        datalink != 0 && datalink != 1 && datalink != 101 && datalink != 113 ==> network_packet(
            datalink,
            packet,
        ) is None,
{
    if header.len() == 16 {
        assert((header + packet).skip(16) =~= packet);
    }
    if header.len() == 4 {
        assert((header + packet).skip(4) =~= packet);
    }
}

/// A TCP segment with options in an IPv4 packet with options in an Ethernet frame: the payload is
/// the very bytes that follow all headers.
pub proof fn law_tcp_frame(addresses: Seq<u8>, kind: Seq<u8>, p: Ipv4Fields, t: TcpFields)
    requires
        addresses.len() == 12,
        kind.len() == 2,
        big(kind) == 0x0800,
        p.valid(),
        !p.is_fragment(),
        p.proto == 6,
        t.valid(),
        p.body == t.bytes(),
    ensures
        frame_contents(1, addresses + kind + p.bytes()) matches Some(c) && {
            &&& c.proto == Proto::Tcp
            &&& c.src_ip == ipv4_text(p.src)
            &&& c.dst_ip == ipv4_text(p.dst)
            &&& c.src_port == big(t.src_port)
            &&& c.dst_port == big(t.dst_port)
            &&& c.seq == big(t.seq)
            &&& c.payload == t.payload
        },
{
    law_ethernet_frame(addresses, kind, p.bytes());
    law_ipv4_packet(p);
    law_tcp_segment(t, ipv4_text(p.src), ipv4_text(p.dst));
}

/// A UDP datagram in an IPv4 packet with options in an Ethernet frame: the payload is the very
/// bytes that follow all headers.
pub proof fn law_udp_frame(addresses: Seq<u8>, kind: Seq<u8>, p: Ipv4Fields, u: UdpFields)
    requires
        addresses.len() == 12,
        kind.len() == 2,
        big(kind) == 0x0800,
        p.valid(),
        !p.is_fragment(),
        p.proto == 17,
        u.valid(),
        p.body == u.bytes(),
    ensures
        frame_contents(1, addresses + kind + p.bytes()) matches Some(c) && {
            &&& c.proto == Proto::Udp
            &&& c.src_ip == ipv4_text(p.src)
            &&& c.dst_ip == ipv4_text(p.dst)
            &&& c.src_port == big(u.src_port)
            &&& c.dst_port == big(u.dst_port)
            &&& c.payload == u.payload
        },
{
    law_ethernet_frame(addresses, kind, p.bytes());
    law_ipv4_packet(p);
    law_udp_datagram(u, ipv4_text(p.src), ipv4_text(p.dst));
}

/// The text of an IPv4 address spells its four bytes in decimal, with dots between them.
pub proof fn law_ipv4_text(b: Seq<u8>)
    requires
        b.len() == 4,
    ensures
        ({
            let parts = split(ipv4_text(b), '.');
            parts.len() == 4 && forall|i: int|
                0 <= i < 4 ==> parsed(#[trigger] parts[i], 255) == Some(b[i] as nat)
        }),
{
    let (d0, d1, d2, d3) = (
        decimal(b[0] as nat),
        decimal(b[1] as nat),
        decimal(b[2] as nat),
        decimal(b[3] as nat),
    );
    let dot = seq!['.'];
    reveal_strlit(".");
    assert("."@ =~= dot);
    lemma_decimal(b[0] as nat);
    lemma_decimal(b[1] as nat);
    lemma_decimal(b[2] as nat);
    lemma_decimal(b[3] as nat);
    law_parsed_decimal(b[0] as nat, 255);
    law_parsed_decimal(b[1] as nat, 255);
    law_parsed_decimal(b[2] as nat, 255);
    law_parsed_decimal(b[3] as nat, 255);
    assert(!is_digit('.'));
    let r2 = d2 + dot + d3;
    let r1 = d1 + dot + r2;
    assert(ipv4_text(b) =~= d0 + dot + r1);
    lemma_split_first(d0, '.', r1);
    lemma_split_first(d1, '.', r2);
    lemma_split_first(d2, '.', d3);
    lemma_split_first(d3, '.', d3);
    let parts = split(ipv4_text(b), '.');
    assert(parts =~= seq![d0, d1, d2, d3]);
}

/// The value of a digit of a hexadecimal number in lower case.
pub open spec fn hex_digit_value(c: char) -> int {
    if '0' <= c <= '9' {
        c as u32 - 48
    } else if 'a' <= c <= 'f' {
        c as u32 - 87
    } else {
        -1
    }
}

/// The number that digits of a hexadecimal number stand for.
pub open spec fn hex_number(s: Seq<char>) -> int
    decreases s.len(),
{
    if s.len() == 0 {
        0
    } else {
        16 * hex_number(s.drop_last()) + hex_digit_value(s.last())
    }
}

/// Whether a text is a hexadecimal number without leading zeros.
pub open spec fn is_hex_number(s: Seq<char>) -> bool {
    &&& s.len() > 0
    &&& forall|i: int| 0 <= i < s.len() ==> 0 <= hex_digit_value(#[trigger] s[i]) < 16
    &&& s.len() > 1 ==> s[0] != '0'
}

proof fn lemma_hex_group(n: nat)
    ensures
        is_hex_number(hex_group(n)),
        hex_number(hex_group(n)) == n,
        n > 0 ==> hex_group(n)[0] != '0',
        forall|i: int| 0 <= i < hex_group(n).len() ==> #[trigger] hex_group(n)[i] != ':',
    decreases n,
{
    let g = hex_group(n);
    reveal_with_fuel(hex_number, 2);
    if n < 16 {
        assert(g.drop_last() =~= Seq::empty());
    } else {
        lemma_hex_group(n / 16);
        assert(g.drop_last() =~= hex_group(n / 16));
        let d = crate::hex::hex_digit((n % 16) as int, false);
        assert(0 <= hex_digit_value(d) < 16);
        assert forall|i: int| 0 <= i < g.len() implies 0 <= hex_digit_value(#[trigger] g[i]) < 16
            && g[i] != ':' by {
            if i < g.len() - 1 {
                assert(g[i] == hex_group(n / 16)[i]);
            }
        }
        assert(g[0] == hex_group(n / 16)[0]);
    }
}

/// The text of an IPv6 address spells its eight groups in hexadecimal, without leading zeros and
/// with colons between them.
pub proof fn law_ipv6_text(b: Seq<u8>)
    requires
        b.len() == 16,
    ensures
        ({
            let parts = split(ipv6_groups(b, 8), ':');
            parts.len() == 8 && forall|i: int|
                0 <= i < 8 ==> is_hex_number(#[trigger] parts[i]) && hex_number(parts[i]) == big(
                    b.subrange(2 * i, 2 * i + 2),
                )
        }),
{
    lemma_groups(b, 8, Seq::empty());
    let parts = split(ipv6_groups(b, 8), ':');
    assert(ipv6_groups(b, 8) + Seq::<char>::empty() =~= ipv6_groups(b, 8));
    assert forall|i: int| 0 <= i < 8 implies is_hex_number(#[trigger] parts[i]) && hex_number(
        parts[i],
    ) == big(b.subrange(2 * i, 2 * i + 2)) by {
        lemma_hex_group(be16_at(b, 2 * i) as nat);
        lemma_big2(b.subrange(2 * i, 2 * i + 2));
    }
}

/// The groups and what follows the last of them.
proof fn lemma_groups(b: Seq<u8>, n: nat, tail: Seq<char>)
    requires
        b.len() == 16,
        1 <= n <= 8,
        tail.len() == 0 || tail[0] == ':',
    ensures
        ({
            let parts = split(ipv6_groups(b, n) + tail, ':');
            &&& parts.len() == n + if tail.len() == 0 {
                0
            } else {
                split(tail.skip(1), ':').len()
            }
            &&& forall|i: int|
                0 <= i < n ==> #[trigger] parts[i] == hex_group(be16_at(b, 2 * i) as nat)
        }),
    decreases n,
{
    let last = hex_group(be16_at(b, 2 * (n - 1)) as nat);
    lemma_hex_group(be16_at(b, 2 * (n - 1)) as nat);
    let colon = seq![':'];
    if tail.len() > 0 {
        assert(tail =~= colon + tail.skip(1));
        lemma_split_first(last, ':', tail.skip(1));
        assert(last + tail =~= last + colon + tail.skip(1));
    } else {
        lemma_split_first(last, ':', tail);
        assert(last + tail =~= last);
    }
    if n > 1 {
        reveal_strlit(":");
        assert(":"@ =~= colon);
        let m = (n - 1) as nat;
        let rest = colon + last + tail;
        assert(rest.skip(1) =~= last + tail);
        lemma_groups(b, m, rest);
        assert(ipv6_groups(b, n) + tail =~= ipv6_groups(b, m) + rest);
        lemma_groups_last(b, m, last + tail);
        assert(ipv6_groups(b, m) + rest =~= ipv6_groups(b, m) + colon + (last + tail));
        let parts = split(ipv6_groups(b, n) + tail, ':');
        assert(parts.skip(m as int)[0] == parts[m as int]);
    }
}

/// The part that follows the first `m` groups.
proof fn lemma_groups_last(b: Seq<u8>, m: nat, tail: Seq<char>)
    requires
        b.len() == 16,
        1 <= m <= 8,
    ensures
        split(ipv6_groups(b, m) + seq![':'] + tail, ':').len() == m + split(tail, ':').len(),
        split(ipv6_groups(b, m) + seq![':'] + tail, ':').skip(m as int) == split(tail, ':'),
    decreases m,
{
    let colon = seq![':'];
    let last = hex_group(be16_at(b, 2 * (m - 1)) as nat);
    lemma_hex_group(be16_at(b, 2 * (m - 1)) as nat);
    lemma_split_first(last, ':', tail);
    let rest = last + colon + tail;
    if m > 1 {
        reveal_strlit(":");
        assert(":"@ =~= colon);
        lemma_groups_last(b, (m - 1) as nat, rest);
        let k = (m - 1) as nat;
        assert(ipv6_groups(b, m) + colon + tail =~= ipv6_groups(b, k) + colon + rest);
        let all = split(ipv6_groups(b, k) + colon + rest, ':');
        assert(all.skip(k as int).skip(1) =~= all.skip(m as int));
        assert((seq![last] + split(tail, ':')).skip(1) =~= split(tail, ':'));
    } else {
        assert((seq![last] + split(tail, ':')).skip(1) =~= split(tail, ':'));
    }
}

} // verus!
