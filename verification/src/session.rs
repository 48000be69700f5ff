//! A session: its phases, and the state of the media streams between the sockets and the
//! consumers.
use std::collections::VecDeque;

use vstd::prelude::*;
use vstd::string::*;

use crate::bytes::{be32_bytes, big, law_numbers, push_be32, push_slice};
use crate::rtsp::DEFAULT_RTSP_PORT;
use crate::text::{
    after_last, chars_of, copy_str, decimal, decimal_string, is_digit, law_parsed_decimal,
    lemma_decimal, lemma_last_index_is, parse_u16, parsed, tail_after,
};

verus! {

/// Where a session is.
#[derive(Debug, Clone, Copy, PartialEq, Eq, Structural)]
pub enum Phase {
    Idle,
    Discovered,
    Paired,
    Negotiated,
    Launched,
    RtspReady,
    ControlUp,
    Streaming,
    TearingDown,
}

impl Default for Phase {
    fn default() -> (r: Self)
        ensures
            r == Phase::Idle,
    {
        Phase::Idle
    }
}

/// A session.
#[derive(Debug, Clone, Copy, PartialEq, Eq, Structural)]
pub struct Session {
    phase: Phase,
}

impl Session {
    /// The phase that the session is in.
    pub closed spec fn current(&self) -> Phase {
        self.phase
    }

    /// A session that has not begun.
    pub fn new() -> (r: Self)
        ensures
            r.current() == Phase::Idle,
    {
        Session { phase: Phase::Idle }
    }

    /// The phase that the session is in.
    pub fn phase(&self) -> (r: Phase)
        ensures
            r == self.current(),
    {
        self.phase
    }
}

impl Default for Session {
    fn default() -> (r: Self)
        ensures
            r.current() == Phase::Idle,
    {
        Session::new()
    }
}

/// `s` without slashes at its end.
pub open spec fn without_slashes(s: Seq<char>) -> Seq<char>
    decreases s.len(),
{
    if s.len() > 0 && s.last() == '/' {
        without_slashes(s.drop_last())
    } else {
        s
    }
}

/// The port that follows the last colon of a URL, or the default one.
pub open spec fn port_of_url(url: Seq<char>) -> u16 {
    match parsed(without_slashes(after_last(url, ':')), u16::MAX as nat) {
        Some(p) => p as u16,
        None => DEFAULT_RTSP_PORT,
    }
}

/// The URL to set up streams at: the address that the client reached the host at, with the port
/// that the host announced. The address that the host announced may be out of reach.
pub fn reachable_url(host: &str, announced_url: &str) -> (r: String)
    ensures
        r@ == "rtsp://"@ + host@ + ":"@ + decimal(port_of_url(announced_url@) as nat),
{
    let chars: Vec<char> = chars_of(announced_url);
    let tail = tail_after(&chars, ':');
    let mut end: usize = tail.len();
    assert(tail@.take(end as int) =~= tail@);
    while end > 0 && tail[end - 1] == '/'
        invariant
            end <= tail@.len(),
            without_slashes(tail@) == without_slashes(tail@.take(end as int)),
        decreases end,
    {
        assert(tail@.take(end as int).drop_last() =~= tail@.take(end - 1));
        end -= 1;
    }
    proof {
        if end > 0 {
            assert(tail@.take(end as int).last() == tail@[end - 1]);
        }
    }
    let digits = vstd::slice::slice_subrange(tail, 0, end);
    assert(digits@ =~= tail@.take(end as int));
    let port: u16 = match parse_u16(digits) {
        Some(p) => p,
        None => DEFAULT_RTSP_PORT,
    };
    let mut url: String = copy_str("rtsp://");
    url.append(host);
    url.append(":");
    url.append(decimal_string(port as u64).as_str());
    url
}

/// What a media stream holds between the sockets and the consumers.
#[verifier::ext_equal]
pub struct MediaView {
    pub audio_port: u16,
    pub ping_payload: Seq<u8>,
    pub ping_seq: u32,
    /// Video datagrams that have not been taken.
    pub video: Seq<Seq<u8>>,
    /// Audio datagrams that have not been taken.
    pub audio: Seq<Seq<u8>>,
}

/// The contents of a queue of datagrams.
pub open spec fn datagrams(v: Seq<Vec<u8>>) -> Seq<Seq<u8>> {
    v.map_values(|d: Vec<u8>| d@)
}

/// The state after a datagram from a port of the host: one from the audio port is audio, any
/// other is video, whichever socket it came in at.
pub open spec fn received(m: MediaView, source_port: u16, pkt: Seq<u8>) -> MediaView {
    if source_port == m.audio_port {
        MediaView { audio: m.audio.push(pkt), ..m }
    } else {
        MediaView { video: m.video.push(pkt), ..m }
    }
}

/// The packet that keeps the return path open.
pub open spec fn ping_packet(payload: Seq<u8>, seq: u32) -> Seq<u8> {
    if payload.len() == 16 {
        payload + be32_bytes(seq)
    } else {
        seq![80u8, 73u8, 78u8, 71u8]
    }
}

/// The state after the first `n` datagrams, given as source ports and contents.
pub open spec fn after_datagrams(m: MediaView, list: Seq<(u16, Seq<u8>)>, n: nat) -> MediaView
    decreases n,
{
    if n == 0 {
        m
    } else {
        received(
            after_datagrams(m, list, (n - 1) as nat),
            list[n - 1].0,
            list[n - 1].1,
        )
    }
}

/// The contents of the first `n` datagrams that are audio, or that are not.
pub open spec fn chosen(list: Seq<(u16, Seq<u8>)>, port: u16, audio: bool, n: nat) -> Seq<Seq<u8>>
    decreases n,
{
    if n == 0 {
        Seq::empty()
    } else if (list[n - 1].0 == port) == audio {
        chosen(list, port, audio, (n - 1) as nat).push(list[n - 1].1)
    } else {
        chosen(list, port, audio, (n - 1) as nat)
    }
}

/// However the datagrams of both streams come in, each stream is delivered whole and in order.
pub proof fn law_streams_are_sorted_apart(m: MediaView, list: Seq<(u16, Seq<u8>)>, n: nat)
    requires
        n <= list.len(),
    ensures
        after_datagrams(m, list, n) == (MediaView {
            audio: m.audio + chosen(list, m.audio_port, true, n),
            video: m.video + chosen(list, m.audio_port, false, n),
            ..m
        }),
    decreases n,
{
    if n == 0 {
        assert(m.audio + chosen(list, m.audio_port, true, 0) =~= m.audio);
        assert(m.video + chosen(list, m.audio_port, false, 0) =~= m.video);
    } else {
        law_streams_are_sorted_apart(m, list, (n - 1) as nat);
        let before = after_datagrams(m, list, (n - 1) as nat);
        let after = after_datagrams(m, list, n);
        assert(after.audio =~= m.audio + chosen(list, m.audio_port, true, n));
        assert(after.video =~= m.video + chosen(list, m.audio_port, false, n));
    }
}

/// The media streams of a session.
pub struct MediaStreams {
    audio_port: u16,
    ping_payload: Vec<u8>,
    ping_seq: u32,
    video: VecDeque<Vec<u8>>,
    audio: VecDeque<Vec<u8>>,
}

impl View for MediaStreams {
    type V = MediaView;

    closed spec fn view(&self) -> MediaView {
        MediaView {
            audio_port: self.audio_port,
            ping_payload: self.ping_payload@,
            ping_seq: self.ping_seq,
            video: datagrams(self.video@),
            audio: datagrams(self.audio@),
        }
    }
}

/// How long after a ping the next one is due, in nanoseconds.
pub const PING_INTERVAL_NS: u64 = 200_000_000;

/// Whether a ping is due, given the nanoseconds since the last one.
pub fn ping_due(elapsed_ns: u64) -> (r: bool)
    ensures
        r == (elapsed_ns > 200_000_000),
{
    elapsed_ns > PING_INTERVAL_NS
}

/// `buf` with as much of `pkt` as fits at its start.
pub open spec fn filled(buf: Seq<u8>, pkt: Seq<u8>) -> Seq<u8> {
    Seq::new(
        buf.len(),
        |i: int|
            if i < pkt.len() {
                pkt[i]
            } else {
                buf[i]
            },
    )
}

fn copy_into(buf: &mut [u8], pkt: &Vec<u8>) -> (r: usize)
    ensures
        final(buf)@ == filled(old(buf)@, pkt@),
        r == if pkt@.len() < old(buf)@.len() {
            pkt@.len()
        } else {
            old(buf)@.len()
        },
{
    let n: usize = if pkt.len() < buf.len() {
        pkt.len()
    } else {
        buf.len()
    };
    let mut i: usize = 0;
    while i < n
        invariant
            i <= n,
            n <= pkt@.len(),
            n <= buf@.len(),
            buf@.len() == old(buf)@.len(),
            forall|j: int| 0 <= j < i ==> #[trigger] buf@[j] == pkt@[j],
            forall|j: int| i <= j < buf@.len() ==> #[trigger] buf@[j] == old(buf)@[j],
        decreases n - i,
    {
        buf[i] = pkt[i];
        i += 1;
    }
    assert(buf@ =~= filled(old(buf)@, pkt@));
    n
}

impl MediaStreams {
    /// Streams from which nothing has come. `ping_payload` is what the host matches pings by.
    pub fn new(audio_port: u16, ping_payload: Vec<u8>) -> (r: Self)
        ensures
            r@ == (MediaView {
                audio_port,
                ping_payload: ping_payload@,
                ping_seq: 0,
                video: Seq::empty(),
                audio: Seq::empty(),
            }),
    {
        let r = MediaStreams {
            audio_port,
            ping_payload,
            ping_seq: 0,
            video: VecDeque::new(),
            audio: VecDeque::new(),
        };
        assert(datagrams(r.video@) =~= Seq::empty());
        assert(datagrams(r.audio@) =~= Seq::empty());
        r
    }

    /// The next ping, to be sent to both media ports: the payload and a running number, or a
    /// plain word for hosts that gave no payload.
    pub fn ping(&mut self) -> (r: Vec<u8>)
        ensures
            r@ == ping_packet(old(self)@.ping_payload, old(self)@.ping_seq),
            final(self)@ == (MediaView {
                ping_seq: if old(self)@.ping_payload.len() == 16 {
                    old(self)@.ping_seq.wrapping_add(1)
                } else {
                    old(self)@.ping_seq
                },
                ..old(self)@
            }),
    {
        let mut pkt: Vec<u8> = Vec::with_capacity(20);
        if self.ping_payload.len() == 16 {
            push_slice(&mut pkt, &self.ping_payload);
            push_be32(&mut pkt, self.ping_seq);
            assert(pkt@ =~= self.ping_payload@ + be32_bytes(self.ping_seq));
            self.ping_seq = self.ping_seq.wrapping_add(1);
        } else {
            pkt.push(80);
            pkt.push(73);
            pkt.push(78);
            pkt.push(71);
            assert(pkt@ =~= seq![80u8, 73u8, 78u8, 71u8]);
        }
        pkt
    }

    /// Sort a datagram into its stream by the port of the host that it came from.
    pub fn receive(&mut self, source_port: u16, pkt: Vec<u8>)
        ensures
            final(self)@ == received(old(self)@, source_port, pkt@),
    {
        let ghost x = pkt@;
        if source_port == self.audio_port {
            let ghost before = self.audio@;
            self.audio.push_back(pkt);
            assert(datagrams(self.audio@) =~= datagrams(before).push(x));
        } else {
            let ghost before = self.video@;
            self.video.push_back(pkt);
            assert(datagrams(self.video@) =~= datagrams(before).push(x));
        }
    }

    /// Whether a video datagram is waiting.
    pub fn has_video(&self) -> (r: bool)
        ensures
            r == (self@.video.len() > 0),
    {
        self.video.len() > 0
    }

    /// Whether an audio datagram is waiting.
    pub fn has_audio(&self) -> (r: bool)
        ensures
            r == (self@.audio.len() > 0),
    {
        self.audio.len() > 0
    }

    /// Take the oldest video datagram: as much of it as fits is copied into `buf`.
    pub fn poll_video(&mut self, buf: &mut [u8]) -> (r: Option<usize>)
        ensures
            old(self)@.video.len() == 0 ==> r is None && final(self)@ == old(self)@ && final(buf)@ == old(buf)@,
            old(self)@.video.len() > 0 ==> {
                let pkt = old(self)@.video[0];
                &&& r is Some
                &&& r->0 == if pkt.len() < old(buf)@.len() {
                    pkt.len()
                } else {
                    old(buf)@.len()
                }
                &&& final(buf)@ == filled(old(buf)@, pkt)
                &&& final(self)@ == (MediaView { video: old(self)@.video.skip(1), ..old(self)@ })
            },
    {
        match self.video.pop_front() {
            Some(pkt) => {
                assert(datagrams(old(self).video@)[0] == pkt@);
                assert(datagrams(self.video@) =~= datagrams(old(self).video@).skip(1));
                Some(copy_into(buf, &pkt))
            },
            None => None,
        }
    }

    /// Take the oldest audio datagram: as much of it as fits is copied into `buf`.
    pub fn poll_audio(&mut self, buf: &mut [u8]) -> (r: Option<usize>)
        ensures
            old(self)@.audio.len() == 0 ==> r is None && final(self)@ == old(self)@ && final(buf)@ == old(buf)@,
            old(self)@.audio.len() > 0 ==> {
                let pkt = old(self)@.audio[0];
                &&& r is Some
                &&& r->0 == if pkt.len() < old(buf)@.len() {
                    pkt.len()
                } else {
                    old(buf)@.len()
                }
                &&& final(buf)@ == filled(old(buf)@, pkt)
                &&& final(self)@ == (MediaView { audio: old(self)@.audio.skip(1), ..old(self)@ })
            },
    {
        match self.audio.pop_front() {
            Some(pkt) => {
                assert(datagrams(old(self).audio@)[0] == pkt@);
                assert(datagrams(self.audio@) =~= datagrams(old(self).audio@).skip(1));
                Some(copy_into(buf, &pkt))
            },
            None => None,
        }
    }
}

/// The packet that keeps the return path open: the payload that the host gave and the number of the
/// packet, or a word where the host gave no such payload.
pub proof fn law_ping_packet(payload: Seq<u8>, seq: u32)
    ensures
        payload.len() == 16 ==> ping_packet(payload, seq).take(16) == payload && big(
            ping_packet(payload, seq).skip(16),
        ) == seq && ping_packet(payload, seq).len() == 20,
        payload.len() != 16 ==> ping_packet(payload, seq) == seq![0x50u8, 0x49u8, 0x4eu8, 0x47u8],
{
    law_numbers(Seq::empty(), 0, 0, seq);
    if payload.len() == 16 {
        assert(ping_packet(payload, seq).take(16) =~= payload);
        assert(ping_packet(payload, seq).skip(16) =~= be32_bytes(seq));
    }
}

/// The port of an announced URL is the number behind its last colon, with or without slashes after
/// it; where there is no such number it is the usual one.
pub proof fn law_announced_port(address: Seq<char>, port: u16)
    ensures
        port_of_url(address + seq![':'] + decimal(port as nat)) == port,
        port_of_url(address + seq![':'] + decimal(port as nat) + seq!['/']) == port,
        port_of_url(address + seq![':']) == 48010,
{
    let digits = decimal(port as nat);
    lemma_decimal(port as nat);
    law_parsed_decimal(port as nat, u16::MAX as nat);
    assert(!is_digit(':') && !is_digit('/'));
    let n = address.len() as int;
    let url = address + seq![':'] + digits;
    assert forall|j: int| n < j < url.len() implies #[trigger] url[j] != ':' by {
        assert(url[j] == digits[j - n - 1]);
    }
    lemma_last_index_is(url, ':', n);
    assert(after_last(url, ':') =~= digits);
    assert(without_slashes(digits) == digits);
    let slash = url + seq!['/'];
    assert forall|j: int| n < j < slash.len() implies #[trigger] slash[j] != ':' by {
        if j < url.len() {
            assert(slash[j] == url[j]);
        }
    }
    lemma_last_index_is(slash, ':', n);
    assert(after_last(slash, ':') =~= digits + seq!['/']);
    assert((digits + seq!['/']).drop_last() =~= digits);
    let bare = address + seq![':'];
    lemma_last_index_is(bare, ':', n);
    assert(after_last(bare, ':') =~= Seq::empty());
}

/// What does not fit into a buffer is dropped, and what a short datagram does not fill stays.
pub proof fn law_filled(buf: Seq<u8>, pkt: Seq<u8>)
    ensures
        filled(buf, pkt).len() == buf.len(),
        pkt.len() <= buf.len() ==> filled(buf, pkt) == pkt + buf.skip(pkt.len() as int),
        pkt.len() > buf.len() ==> filled(buf, pkt) == pkt.take(buf.len() as int),
{
    let f = filled(buf, pkt);
    if pkt.len() <= buf.len() {
        assert(f =~= pkt + buf.skip(pkt.len() as int));
    } else {
        assert(f =~= pkt.take(buf.len() as int));
    }
}

} // verus!
