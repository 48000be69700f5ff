//! The control channel: its events and its messages.
use vstd::prelude::*;
use vstd::string::*;

use crate::bytes::{law_numbers, le16_bytes, le32_bytes, little, push_le16, push_le32};
use crate::error::{is_protocol, protocol, protocol2, Error};
use crate::text::{copy_str, decimal, decimal_string};

verus! {

/// An event of the control channel.
#[derive(Debug, Clone, PartialEq, Eq)]
pub enum ControlEvent {
    Connected,
    Disconnected,
    /// A message on a channel.
    Message { channel: u8, data: Vec<u8> },
}

/// The type of the message that asks for a keyframe.
pub const REQUEST_IDR_FRAME: u16 = 0x0302;

/// The type of the message that reports loss.
pub const LOSS_STATS: u16 = 0x0201;

/// The two's complement of `x`.
pub open spec fn twos_complement32(x: i32) -> u32 {
    if x >= 0 {
        x as u32
    } else {
        (x + 0x1_0000_0000) as u32
    }
}

/// A signed number in little-endian order.
pub open spec fn le_i32(x: i32) -> Seq<u8> {
    le32_bytes(twos_complement32(x))
}

/// A message: its type, the length of its payload and the payload.
pub open spec fn control_message(kind: u16, payload: Seq<u8>) -> Seq<u8> {
    le16_bytes(kind) + le16_bytes(payload.len() as u16) + payload
}

fn push_i32(out: &mut Vec<u8>, x: i32)
    ensures
        final(out)@ == old(out)@ + le_i32(x),
{
    let n: u32 = if x >= 0 {
        x as u32
    } else {
        (x as i64 + 0x1_0000_0000) as u32
    };
    push_le32(out, n);
}

/// The message that asks for a keyframe.
pub fn idr_request() -> (r: Vec<u8>)
    ensures
        r@ == control_message(REQUEST_IDR_FRAME, Seq::empty()),
{
    let mut m: Vec<u8> = Vec::with_capacity(4);
    push_le16(&mut m, REQUEST_IDR_FRAME);
    push_le16(&mut m, 0);
    assert(m@ =~= control_message(REQUEST_IDR_FRAME, Seq::empty()));
    m
}

/// The message that reports `count` lost frames within `time_ms`, and the last good frame.
pub fn loss_report(count: i32, time_ms: i32, last_good: i32) -> (r: Vec<u8>)
    ensures
        r@ == control_message(
            LOSS_STATS,
            le_i32(count) + le_i32(time_ms) + le_i32(0) + le_i32(last_good),
        ),
{
    let mut m: Vec<u8> = Vec::with_capacity(20);
    push_le16(&mut m, LOSS_STATS);
    push_le16(&mut m, 16);
    push_i32(&mut m, count);
    push_i32(&mut m, time_ms);
    push_i32(&mut m, 0);
    push_i32(&mut m, last_good);
    assert(m@ =~= control_message(
        LOSS_STATS,
        le_i32(count) + le_i32(time_ms) + le_i32(0) + le_i32(last_good),
    ));
    m
}

/// Where a peer is in the handshake of the control channel.
#[derive(Debug, Clone, Copy, PartialEq, Eq, Structural)]
pub enum PeerState {
    Connected,
    Disconnected,
    /// Between the two.
    Underway,
}

/// Decide how a handshake goes on: `true` when it is done, `false` to wait on. `late` says that its
/// time is over.
pub fn handshake_step(state: PeerState, late: bool) -> (r: Result<bool, Error>)
    ensures
        match state {
            PeerState::Connected => r matches Ok(done) && done,
            PeerState::Disconnected => r matches Err(e) && is_protocol(
                e,
                "enet: peer disconnected during connect"@,
            ),
            PeerState::Underway => if late {
                r matches Err(e) && is_protocol(e, "enet: connect timed out"@)
            } else {
                r matches Ok(done) && !done
            },
        },
{
    match state {
        PeerState::Connected => Ok(true),
        PeerState::Disconnected => Err(protocol("enet: peer disconnected during connect")),
        PeerState::Underway => if late {
            Err(protocol("enet: connect timed out"))
        } else {
            Ok(false)
        },
    }
}

/// The nanoseconds within which the control channel has to connect.
pub const CONNECT_WITHIN_NS: u64 = 6_000_000_000;

/// The attempts to connect the control channel.
pub struct Attempts {
    last_error: String,
}

impl Attempts {
    /// Why the last attempt failed; nothing before the first.
    pub closed spec fn last_failure(&self) -> Seq<char> {
        self.last_error@
    }

    /// No attempt yet.
    pub fn new() -> (r: Self)
        ensures
            r.last_failure() == Seq::<char>::empty(),
    {
        Attempts { last_error: String::new() }
    }

    /// Whether to try once more, given the nanoseconds since the first attempt. When it is too
    /// late, the error tells why the last attempt failed.
    pub fn once_more(&self, elapsed_ns: u64) -> (r: Result<(), Error>)
        ensures
            r is Ok <==> elapsed_ns < 6_000_000_000,
            r matches Err(e) ==> is_protocol(
                e,
                "ENet control connect failed: "@ + self.last_failure(),
            ),
    {
        if elapsed_ns < CONNECT_WITHIN_NS {
            Ok(())
        } else {
            Err(protocol2("ENet control connect failed: ", self.last_error.as_str()))
        }
    }

    /// An attempt failed.
    pub fn failed(&mut self, why: String)
        ensures
            final(self).last_failure() == why@,
    {
        self.last_error = why;
    }
}

/// The address of the control channel, as text.
pub fn control_address(host: &str, port: u16) -> (r: String)
    ensures
        r@ == host@ + ":"@ + decimal(port as nat),
{
    let mut s: String = copy_str(host);
    s.append(":");
    s.append(decimal_string(port as u64).as_str());
    s
}

/// A message is read back: its type, the length of its payload and the payload.
pub proof fn law_control_message(kind: u16, payload: Seq<u8>)
    requires
        payload.len() <= u16::MAX,
    ensures
        ({
            let m = control_message(kind, payload);
            &&& little(m.subrange(0, 2)) == kind
            &&& little(m.subrange(2, 4)) == payload.len()
            &&& m.skip(4) == payload
        }),
{
    let m = control_message(kind, payload);
    law_numbers(Seq::empty(), 0, kind, 0);
    law_numbers(Seq::empty(), 0, payload.len() as u16, 0);
    assert(m.subrange(0, 2) =~= le16_bytes(kind));
    assert(m.subrange(2, 4) =~= le16_bytes(payload.len() as u16));
    assert(m.skip(4) =~= payload);
}

/// The number that four bytes stand for if the last bit is a sign.
pub open spec fn signed32(b: Seq<u8>) -> int {
    if little(b) < 0x8000_0000 {
        little(b) as int
    } else {
        little(b) - 0x1_0000_0000
    }
}

/// A report of loss and a request for a keyframe are read back as hosts read them.
pub proof fn law_feedback(count: i32, time_ms: i32, last_good: i32)
    ensures
        ({
            let body = le_i32(count) + le_i32(time_ms) + le_i32(0) + le_i32(last_good);
            &&& body.len() == 16
            &&& signed32(body.subrange(0, 4)) == count
            &&& signed32(body.subrange(4, 8)) == time_ms
            &&& signed32(body.subrange(8, 12)) == 0
            &&& signed32(body.subrange(12, 16)) == last_good
        }),
        LOSS_STATS == 0x0201,
        REQUEST_IDR_FRAME == 0x0302,
{
    let body = le_i32(count) + le_i32(time_ms) + le_i32(0) + le_i32(last_good);
    law_numbers(Seq::empty(), 0, 0, twos_complement32(count));
    law_numbers(Seq::empty(), 0, 0, twos_complement32(time_ms));
    law_numbers(Seq::empty(), 0, 0, twos_complement32(0));
    law_numbers(Seq::empty(), 0, 0, twos_complement32(last_good));
    assert(body.subrange(0, 4) =~= le_i32(count));
    assert(body.subrange(4, 8) =~= le_i32(time_ms));
    assert(body.subrange(8, 12) =~= le_i32(0));
    assert(body.subrange(12, 16) =~= le_i32(last_good));
}

} // verus!
