//! From a link-layer frame to a TCP or UDP payload.
use vstd::prelude::*;
use vstd::slice::slice_subrange;
use vstd::string::*;

use crate::bytes::{be16_at, be32_at, copy_range, read_be16, read_be32};
use crate::text::{decimal, decimal_string};

verus! {

/// A transport protocol.
#[derive(Debug, Clone, Copy, PartialEq, Eq, Structural)]
pub enum Proto {
    Tcp,
    Udp,
}

/// What a frame carries.
#[derive(Debug, Clone, PartialEq, Eq)]
pub struct L4 {
    pub proto: Proto,
    pub src_ip: String,
    pub dst_ip: String,
    pub src_port: u16,
    pub dst_port: u16,
    /// The sequence number of a TCP segment, zero otherwise.
    pub seq: u32,
    pub payload: Vec<u8>,
}

/// What an [`L4`] holds.
#[verifier::ext_equal]
pub struct L4View {
    pub proto: Proto,
    pub src_ip: Seq<char>,
    pub dst_ip: Seq<char>,
    pub src_port: u16,
    pub dst_port: u16,
    pub seq: u32,
    pub payload: Seq<u8>,
}

impl View for L4 {
    type V = L4View;

    open spec fn view(&self) -> L4View {
        L4View {
            proto: self.proto,
            src_ip: self.src_ip@,
            dst_ip: self.dst_ip@,
            src_port: self.src_port,
            dst_port: self.dst_port,
            seq: self.seq,
            payload: self.payload@,
        }
    }
}

pub const DLT_NULL: u32 = 0;

pub const DLT_EN10MB: u32 = 1;

pub const DLT_RAW: u32 = 101;

pub const DLT_LINUX_SLL: u32 = 113;

/// `s` from `at` on, if it is that long.
pub open spec fn tail(s: Seq<u8>, at: nat) -> Option<Seq<u8>> {
    if at <= s.len() {
        Some(s.skip(at as int))
    } else {
        None
    }
}

/// The packet in an Ethernet frame, with or without a VLAN tag, if it is IP.
pub open spec fn ethernet_payload(f: Seq<u8>) -> Option<Seq<u8>> {
    if f.len() < 14 {
        None
    } else if be16_at(f, 12) == 0x8100 {
        if f.len() < 18 {
            None
        } else if be16_at(f, 16) == 0x0800 || be16_at(f, 16) == 0x86dd {
            Some(f.skip(18))
        } else {
            None
        }
    } else if be16_at(f, 12) == 0x0800 || be16_at(f, 12) == 0x86dd {
        Some(f.skip(14))
    } else {
        None
    }
}

/// The packet in a frame of the given link type.
pub open spec fn network_packet(datalink: u32, f: Seq<u8>) -> Option<Seq<u8>> {
    if datalink == DLT_EN10MB {
        ethernet_payload(f)
    } else if datalink == DLT_LINUX_SLL {
        tail(f, 16)
    } else if datalink == DLT_RAW {
        Some(f)
    } else if datalink == DLT_NULL {
        tail(f, 4)
    } else {
        None
    }
}

/// An IPv4 address in text form.
pub open spec fn ipv4_text(b: Seq<u8>) -> Seq<char> {
    decimal(b[0] as nat) + "."@ + decimal(b[1] as nat) + "."@ + decimal(b[2] as nat) + "."@
        + decimal(b[3] as nat)
}

/// A number below 65536 in hexadecimal without leading zeros.
pub open spec fn hex_group(n: nat) -> Seq<char>
    decreases n,
{
    if n < 16 {
        seq![crate::hex::hex_digit(n as int, false)]
    } else {
        hex_group(n / 16).push(crate::hex::hex_digit((n % 16) as int, false))
    }
}

/// The first `n` groups of an IPv6 address in text form.
pub open spec fn ipv6_groups(b: Seq<u8>, n: nat) -> Seq<char>
    decreases n,
{
    if n == 0 {
        Seq::empty()
    } else if n == 1 {
        hex_group(be16_at(b, 0) as nat)
    } else {
        ipv6_groups(b, (n - 1) as nat) + ":"@ + hex_group(be16_at(b, 2 * (n - 1)) as nat)
    }
}

/// What the transport part of a packet holds.
pub open spec fn transport(proto: u8, src: Seq<char>, dst: Seq<char>, l4: Seq<u8>) -> Option<
    L4View,
> {
    if proto == 6 {
        let offset = (l4[12] / 16) as nat * 4;
        if l4.len() < 13 || offset < 20 || offset > l4.len() {
            None
        } else {
            Some(
                L4View {
                    proto: Proto::Tcp,
                    src_ip: src,
                    dst_ip: dst,
                    src_port: be16_at(l4, 0),
                    dst_port: be16_at(l4, 2),
                    seq: be32_at(l4, 4),
                    payload: l4.skip(offset as int),
                },
            )
        }
    } else if proto == 17 {
        if l4.len() < 8 {
            None
        } else {
            Some(
                L4View {
                    proto: Proto::Udp,
                    src_ip: src,
                    dst_ip: dst,
                    src_port: be16_at(l4, 0),
                    dst_port: be16_at(l4, 2),
                    seq: 0,
                    payload: l4.skip(8),
                },
            )
        }
    } else {
        None
    }
}

/// What an IPv4 packet holds. Fragments are left out.
pub open spec fn ipv4_contents(ip: Seq<u8>) -> Option<L4View> {
    let header = (ip[0] % 16) as nat * 4;
    if ip.len() < 20 || header < 20 || header > ip.len() || be16_at(ip, 6) % 0x4000 != 0 {
        None
    } else {
        transport(
            ip[9],
            ipv4_text(ip.subrange(12, 16)),
            ipv4_text(ip.subrange(16, 20)),
            ip.skip(header as int),
        )
    }
}

/// What an IPv6 packet without extension headers holds.
pub open spec fn ipv6_contents(ip: Seq<u8>) -> Option<L4View> {
    if ip.len() < 40 {
        None
    } else {
        transport(
            ip[6],
            ipv6_groups(ip.subrange(8, 24), 8),
            ipv6_groups(ip.subrange(24, 40), 8),
            ip.skip(40),
        )
    }
}

/// What an IP packet holds; its first half byte is the version.
pub open spec fn ip_contents(ip: Seq<u8>) -> Option<L4View> {
    if ip.len() == 0 {
        None
    } else if ip[0] / 16 == 4 {
        ipv4_contents(ip)
    } else if ip[0] / 16 == 6 {
        ipv6_contents(ip)
    } else {
        None
    }
}

/// What a frame holds.
pub open spec fn frame_contents(datalink: u32, f: Seq<u8>) -> Option<L4View> {
    match network_packet(datalink, f) {
        Some(ip) => ip_contents(ip),
        None => None,
    }
}

/// Take a frame apart; `None` if it carries no whole TCP or UDP payload.
pub fn parse(datalink: u32, frame: &[u8]) -> (r: Option<L4>)
    ensures
        r is Some <==> frame_contents(datalink, frame@) is Some,
        r matches Some(l) ==> l@ == frame_contents(datalink, frame@)->0,
{
    let ip = if datalink == DLT_EN10MB {
        match eth_payload(frame) {
            Some(ip) => ip,
            None => {
                return None;
            },
        }
    } else if datalink == DLT_LINUX_SLL {
        if frame.len() < 16 {
            return None;
        }
        slice_subrange(frame, 16, frame.len())
    } else if datalink == DLT_RAW {
        frame
    } else if datalink == DLT_NULL {
        if frame.len() < 4 {
            return None;
        }
        slice_subrange(frame, 4, frame.len())
    } else {
        return None;
    };
    assert(Some(ip@) == network_packet(datalink, frame@)) by {
        if datalink == DLT_LINUX_SLL {
            assert(ip@ =~= frame@.skip(16));
        } else if datalink == DLT_NULL {
            assert(ip@ =~= frame@.skip(4));
        }
    }
    parse_ip(ip)
}

fn eth_payload<'a>(f: &'a [u8]) -> (r: Option<&'a [u8]>)
    ensures
        r is Some <==> ethernet_payload(f@) is Some,
        r matches Some(p) ==> p@ == ethernet_payload(f@)->0,
{
    if f.len() < 14 {
        return None;
    }
    let mut ethertype: u16 = read_be16(f, 12);
    let mut off: usize = 14;
    if ethertype == 0x8100 {
        if f.len() < 18 {
            return None;
        }
        ethertype = read_be16(f, 16);
        off = 18;
    }
    if ethertype == 0x0800 || ethertype == 0x86dd {
        let p = slice_subrange(f, off, f.len());
        assert(p@ =~= f@.skip(off as int));
        Some(p)
    } else {
        None
    }
}

fn parse_ip(ip: &[u8]) -> (r: Option<L4>)
    ensures
        r is Some <==> ip_contents(ip@) is Some,
        r matches Some(l) ==> l@ == ip_contents(ip@)->0,
{
    if ip.len() == 0 {
        return None;
    }
    let version: u8 = ip[0] / 16;
    if version == 4 {
        parse_ipv4(ip)
    } else if version == 6 {
        parse_ipv6(ip)
    } else {
        None
    }
}

fn parse_ipv4(ip: &[u8]) -> (r: Option<L4>)
    requires
        ip.len() > 0,
    ensures
        r is Some <==> ipv4_contents(ip@) is Some,
        r matches Some(l) ==> l@ == ipv4_contents(ip@)->0,
{
    let header: usize = (ip[0] % 16) as usize * 4;
    if ip.len() < 20 || header < 20 || header > ip.len() {
        return None;
    }
    if read_be16(ip, 6) % 0x4000 != 0 {
        return None;
    }
    let src: String = ipv4_str(slice_subrange(ip, 12, 16));
    let dst: String = ipv4_str(slice_subrange(ip, 16, 20));
    let rest = slice_subrange(ip, header, ip.len());
    assert(rest@ =~= ip@.skip(header as int));
    finish_l4(ip[9], src, dst, rest)
}

fn parse_ipv6(ip: &[u8]) -> (r: Option<L4>)
    ensures
        r is Some <==> ipv6_contents(ip@) is Some,
        r matches Some(l) ==> l@ == ipv6_contents(ip@)->0,
{
    if ip.len() < 40 {
        return None;
    }
    let src: String = ipv6_str(slice_subrange(ip, 8, 24));
    let dst: String = ipv6_str(slice_subrange(ip, 24, 40));
    let rest = slice_subrange(ip, 40, ip.len());
    assert(rest@ =~= ip@.skip(40));
    finish_l4(ip[6], src, dst, rest)
}

fn finish_l4(proto: u8, src: String, dst: String, l4: &[u8]) -> (r: Option<L4>)
    ensures
        r is Some <==> transport(proto, src@, dst@, l4@) is Some,
        r matches Some(l) ==> l@ == transport(proto, src@, dst@, l4@)->0,
{
    if proto == 6 {
        if l4.len() < 13 {
            return None;
        }
        let offset: usize = (l4[12] / 16) as usize * 4;
        if offset < 20 || offset > l4.len() {
            return None;
        }
        let payload: Vec<u8> = copy_range(l4, offset, l4.len());
        assert(payload@ =~= l4@.skip(offset as int));
        Some(
            L4 {
                proto: Proto::Tcp,
                src_ip: src,
                dst_ip: dst,
                src_port: read_be16(l4, 0),
                dst_port: read_be16(l4, 2),
                seq: read_be32(l4, 4),
                payload,
            },
        )
    } else if proto == 17 {
        if l4.len() < 8 {
            return None;
        }
        let payload: Vec<u8> = copy_range(l4, 8, l4.len());
        assert(payload@ =~= l4@.skip(8));
        Some(
            L4 {
                proto: Proto::Udp,
                src_ip: src,
                dst_ip: dst,
                src_port: read_be16(l4, 0),
                dst_port: read_be16(l4, 2),
                seq: 0,
                payload,
            },
        )
    } else {
        None
    }
}

fn ipv4_str(b: &[u8]) -> (r: String)
    requires
        b.len() == 4,
    ensures
        r@ == ipv4_text(b@),
{
    let mut s: String = decimal_string(b[0] as u64);
    s.append(".");
    s.append(decimal_string(b[1] as u64).as_str());
    s.append(".");
    s.append(decimal_string(b[2] as u64).as_str());
    s.append(".");
    s.append(decimal_string(b[3] as u64).as_str());
    s
}

fn push_hex(out: &mut Vec<char>, n: u16)
    ensures
        final(out)@ == old(out)@ + hex_group(n as nat),
    decreases n,
{
    if n >= 16 {
        push_hex(out, n / 16);
    }
    let d: u8 = (n % 16) as u8;
    out.push(
        if d < 10 {
            (48 + d) as char
        } else {
            (87 + d) as char
        },
    );
    assert(out@ =~= old(out)@ + hex_group(n as nat));
}

fn ipv6_str(b: &[u8]) -> (r: String)
    requires
        b.len() == 16,
    ensures
        r@ == ipv6_groups(b@, 8),
{
    let mut out: Vec<char> = Vec::new();
    push_hex(&mut out, read_be16(b, 0));
    assert(out@ =~= hex_group(be16_at(b@, 0) as nat));
    let mut i: usize = 1;
    while i < 8
        invariant
            1 <= i <= 8,
            b.len() == 16,
            out@ == ipv6_groups(b@, i as nat),
        decreases 8 - i,
    {
        out.push(':');
        let ghost with_colon = out@;
        push_hex(&mut out, read_be16(b, 2 * i));
        proof {
            reveal_strlit(":");
            assert(with_colon =~= ipv6_groups(b@, i as nat) + ":"@);
        }
        i += 1;
    }
    crate::text::string_of(&out)
}

} // verus!
