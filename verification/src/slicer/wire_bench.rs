//! What a capture tells of the video stream in it, whichever client received it.
use std::collections::BTreeSet;

use vstd::prelude::*;

use crate::bytes::{be32_at, law_numbers, le32_at, little, read_be32, read_le32};
use crate::slicer::l2l4;
use crate::slicer::l2l4::frame_contents;
use crate::slicer::pcap;
use crate::slicer::pcap::{magic_order, record_views, records_from, value_at, PcapError};
use crate::video::rtp::{sof_host_latency, told_latency, NV_OFFSET, PAYLOAD_OFFSET};

verus! {

/// The port that video comes from.
pub const VIDEO_PORT: u16 = 47998;

/// The video datagrams among the first `n` frames of a capture.
pub open spec fn video_datagrams(datalink: u32, frames: Seq<Seq<u8>>, n: nat) -> Seq<Seq<u8>>
    decreases n,
{
    if n == 0 {
        Seq::empty()
    } else {
        let before = video_datagrams(datalink, frames, (n - 1) as nat);
        match frame_contents(datalink, frames[n - 1]) {
            Some(p) => if p.src_port == VIDEO_PORT && p.payload.len() >= PAYLOAD_OFFSET {
                before.push(p.payload)
            } else {
                before
            },
            None => before,
        }
    }
}

/// The bytes of the first `n` datagrams.
pub open spec fn byte_count(v: Seq<Seq<u8>>, n: nat) -> nat
    decreases n,
{
    if n == 0 {
        0
    } else {
        byte_count(v, (n - 1) as nat) + v[n - 1].len()
    }
}

/// The frame that a datagram belongs to.
pub open spec fn frame_of(p: Seq<u8>) -> u32 {
    le32_at(p, NV_OFFSET + 4)
}

/// The frames that the first `n` datagrams belong to.
pub open spec fn frames_seen(v: Seq<Seq<u8>>, n: nat) -> Set<u32>
    decreases n,
{
    if n == 0 {
        Set::empty()
    } else {
        frames_seen(v, (n - 1) as nat).insert(frame_of(v[n - 1]))
    }
}

/// The lowest frame index among the first `n` datagrams.
pub open spec fn lowest_frame(v: Seq<Seq<u8>>, n: nat) -> u32
    decreases n,
{
    if n == 0 {
        u32::MAX
    } else if frame_of(v[n - 1]) < lowest_frame(v, (n - 1) as nat) {
        frame_of(v[n - 1])
    } else {
        lowest_frame(v, (n - 1) as nat)
    }
}

/// The highest frame index among the first `n` datagrams.
pub open spec fn highest_frame(v: Seq<Seq<u8>>, n: nat) -> u32
    decreases n,
{
    if n == 0 {
        0
    } else if frame_of(v[n - 1]) > highest_frame(v, (n - 1) as nat) {
        frame_of(v[n - 1])
    } else {
        highest_frame(v, (n - 1) as nat)
    }
}

/// The latencies of the host, in tenths of a millisecond, that the first `n` datagrams tell:
/// those that start a frame do.
pub open spec fn latencies(v: Seq<Seq<u8>>, n: nat) -> Seq<u16>
    decreases n,
{
    if n == 0 {
        Seq::empty()
    } else {
        let before = latencies(v, (n - 1) as nat);
        match told_latency(v[n - 1]) {
            Some(latency) => before.push(latency),
            None => before,
        }
    }
}

/// Measures of a video stream.
#[derive(Debug, Clone, PartialEq, Eq)]
pub struct WireStats {
    /// The link type of the capture.
    pub datalink: u32,
    pub packets: u64,
    pub video_bytes: u128,
    /// The RTP timestamp of the first datagram.
    pub first_timestamp: Option<u32>,
    /// The RTP timestamp of the last datagram.
    pub last_timestamp: u32,
    pub min_frame: u32,
    pub max_frame: u32,
    /// The number of different frames.
    pub frames: usize,
    pub host_latency_tenths: Vec<u16>,
}

/// Whether `s` measures the datagrams `v`.
pub open spec fn measures(s: WireStats, v: Seq<Seq<u8>>) -> bool {
    &&& s.packets == v.len()
    &&& s.video_bytes == byte_count(v, v.len())
    &&& s.first_timestamp == if v.len() == 0 {
        None
    } else {
        Some(be32_at(v[0], 4))
    }
    &&& s.last_timestamp == if v.len() == 0 {
        0u32
    } else {
        be32_at(v.last(), 4)
    }
    &&& s.min_frame == lowest_frame(v, v.len())
    &&& s.max_frame == highest_frame(v, v.len())
    &&& s.frames == frames_seen(v, v.len()).len()
    &&& s.host_latency_tenths@ == latencies(v, v.len())
}

/// Only the first `n` datagrams count.
proof fn lemma_same(a: Seq<Seq<u8>>, b: Seq<Seq<u8>>, n: nat)
    requires
        n <= a.len(),
        n <= b.len(),
        forall|i: int| 0 <= i < n ==> #[trigger] a[i] == b[i],
    ensures
        byte_count(a, n) == byte_count(b, n),
        frames_seen(a, n) == frames_seen(b, n),
        lowest_frame(a, n) == lowest_frame(b, n),
        highest_frame(a, n) == highest_frame(b, n),
        latencies(a, n) == latencies(b, n),
    decreases n,
{
    if n > 0 {
        lemma_same(a, b, (n - 1) as nat);
        assert(a[n - 1] == b[n - 1]);
    }
}

/// Measure the video stream in a capture.
pub fn measure(bytes: &[u8]) -> (r: Result<WireStats, PcapError>)
    ensures
        bytes@.len() < 24 ==> r matches Err(PcapError::TooShort),
        bytes@.len() >= 24 ==> match magic_order(le32_at(bytes@, 0)) {
            None => r matches Err(PcapError::BadMagic(m)) && m == le32_at(bytes@, 0),
            Some(little) => {
                let frames = records_from(bytes@, little, 24);
                let datalink = value_at(bytes@, little, 20);
                r matches Ok(s) && s.datalink == datalink && measures(
                    s,
                    video_datagrams(datalink, frames, frames.len()),
                )
            },
        },
{
    let file = match pcap::parse(bytes) {
        Ok(file) => file,
        Err(e) => {
            return Err(e);
        },
    };
    let ghost frames = record_views(file.records@);
    let mut packets: u64 = 0;
    let mut video_bytes: u128 = 0;
    let mut first_timestamp: Option<u32> = None;
    let mut last_timestamp: u32 = 0;
    let mut min_frame: u32 = u32::MAX;
    let mut max_frame: u32 = 0;
    let mut seen: BTreeSet<u32> = BTreeSet::new();
    let mut host_latency_tenths: Vec<u16> = Vec::new();
    let ghost mut v: Seq<Seq<u8>> = Seq::empty();
    let mut i: usize = 0;
    while i < file.records.len()
        invariant
            i <= file.records.len(),
            frames == record_views(file.records@),
            v == video_datagrams(file.datalink, frames, i as nat),
            packets == v.len(),
            v.len() <= i,
            video_bytes == byte_count(v, v.len()),
            video_bytes <= i * 0xffff_ffff_ffff_ffff,
            first_timestamp == (if v.len() == 0 {
                None
            } else {
                Some(be32_at(v[0], 4))
            }),
            last_timestamp == (if v.len() == 0 {
                0u32
            } else {
                be32_at(v.last(), 4)
            }),
            min_frame == lowest_frame(v, v.len()),
            max_frame == highest_frame(v, v.len()),
            seen@ == frames_seen(v, v.len()),
            host_latency_tenths@ == latencies(v, v.len()),
        decreases file.records.len() - i,
    {
        assert(frames[i as int] == file.records@[i as int].data@);
        let contents = l2l4::parse(file.datalink, &file.records[i].data);
        assert(i * 0xffff_ffff_ffff_ffff + 0xffff_ffff_ffff_ffff == (i + 1) * 0xffff_ffff_ffff_ffff
            && (i + 1) * 0xffff_ffff_ffff_ffff <= u128::MAX) by (nonlinear_arith)
            requires
                0 <= i < 0xffff_ffff_ffff_ffff,
        ;
        i += 1;
        if let Some(l4) = contents {
            let p = l4.payload.as_slice();
            if l4.src_port == VIDEO_PORT && p.len() >= PAYLOAD_OFFSET {
                let ghost w = v.push(p@);
                proof {
                    lemma_same(w, v, v.len());
                }
                packets += 1;
                video_bytes = video_bytes + p.len() as u128;
                let timestamp: u32 = read_be32(p, 4);
                if first_timestamp.is_none() {
                    first_timestamp = Some(timestamp);
                }
                last_timestamp = timestamp;
                let frame: u32 = read_le32(p, NV_OFFSET + 4);
                if frame < min_frame {
                    min_frame = frame;
                }
                if frame > max_frame {
                    max_frame = frame;
                }
                let _ = seen.insert(frame);
                if let Some(latency) = sof_host_latency(p) {
                    host_latency_tenths.push(latency);
                }
                proof {
                    v = w;
                }
            }
        }
    }
    Ok(
        WireStats {
            datalink: file.datalink,
            packets,
            video_bytes,
            first_timestamp,
            last_timestamp,
            min_frame,
            max_frame,
            frames: seen.len(),
            host_latency_tenths,
        },
    )
}

impl WireStats {
    /// The number of frame indices between the lowest and the highest that were not seen.
    pub fn dropped(&self) -> (r: u64)
        ensures
            r == if self.max_frame < self.min_frame || self.max_frame - self.min_frame + 1
                < self.frames {
                0
            } else {
                self.max_frame - self.min_frame + 1 - self.frames
            },
    {
        if self.max_frame < self.min_frame {
            return 0;
        }
        let span: u64 = self.max_frame as u64 - self.min_frame as u64 + 1;
        let frames: u64 = self.frames as u64;
        if span < frames {
            0
        } else {
            span - frames
        }
    }

    /// The ticks of the RTP clock from the first to the last datagram.
    pub fn ticks(&self) -> (r: u32)
        ensures
            r == match self.first_timestamp {
                Some(first) => self.last_timestamp.wrapping_sub(first),
                None => 0,
            },
    {
        match self.first_timestamp {
            Some(first) => self.last_timestamp.wrapping_sub(first),
            None => 0,
        }
    }
}

/// How many of the first `n` values are at most `limit`.
pub open spec fn count_at_most(s: Seq<u16>, limit: int, n: nat) -> nat
    decreases n,
{
    if n == 0 {
        0
    } else {
        count_at_most(s, limit, (n - 1) as nat) + if s[n - 1] <= limit {
            1nat
        } else {
            0nat
        }
    }
}

/// Whether `m` is in the middle of `s`: in the place `s.len() / 2` once the values are in order.
pub open spec fn is_middle(s: Seq<u16>, m: int) -> bool {
    count_at_most(s, m - 1, s.len()) <= s.len() / 2 < count_at_most(s, m, s.len())
}

proof fn lemma_count(s: Seq<u16>, a: int, b: int, n: nat)
    requires
        n <= s.len(),
        a <= b,
    ensures
        count_at_most(s, a, n) <= count_at_most(s, b, n) <= n,
        a < 0 ==> count_at_most(s, a, n) == 0,
        b >= 0xffff ==> count_at_most(s, b, n) == n,
    decreases n,
{
    if n > 0 {
        lemma_count(s, a, b, (n - 1) as nat);
    }
}

fn count_up_to(s: &[u16], limit: u16) -> (r: usize)
    ensures
        r == count_at_most(s@, limit as int, s@.len()),
{
    let mut n: usize = 0;
    let mut i: usize = 0;
    while i < s.len()
        invariant
            i <= s.len(),
            n <= i,
            n == count_at_most(s@, limit as int, i as nat),
        decreases s.len() - i,
    {
        if s[i] <= limit {
            n += 1;
        }
        i += 1;
    }
    n
}

/// The value in the middle once the values are in order; `None` if there are none.
pub fn median(s: &[u16]) -> (r: Option<u16>)
    ensures
        r is None <==> s@.len() == 0,
        r matches Some(m) ==> is_middle(s@, m as int),
{
    if s.len() == 0 {
        return None;
    }
    let half: usize = s.len() / 2;
    let mut low: u16 = 0;
    let mut high: u16 = 0xffff;
    proof {
        lemma_count(s@, -1, 0xffff, s@.len());
    }
    while low < high
        invariant
            low <= high,
            half == s@.len() / 2,
            count_at_most(s@, low - 1, s@.len()) <= half,
            count_at_most(s@, high as int, s@.len()) > half,
        decreases high - low,
    {
        let middle: u16 = low + (high - low) / 2;
        if count_up_to(s, middle) > half {
            high = middle;
        } else {
            low = middle + 1;
        }
    }
    Some(low)
}

/// What is measured of datagrams: the frames are those that some datagram belongs to, and the lowest
/// and the highest of them bound them all and are among them.
pub proof fn law_measured_frames(v: Seq<Seq<u8>>, n: nat, i: int)
    requires
        n <= v.len(),
        0 <= i < n,
        forall|k: int| 0 <= k < v.len() ==> (#[trigger] v[k]).len() >= 32,
    ensures
        frame_of(v[i]) == little(v[i].subrange(20, 24)),
        frames_seen(v, n).contains(frame_of(v[i])),
        lowest_frame(v, n) <= frame_of(v[i]) <= highest_frame(v, n),
        frames_seen(v, n).contains(lowest_frame(v, n)),
        frames_seen(v, n).contains(highest_frame(v, n)),
        forall|f: u32| #[trigger]
            frames_seen(v, n).contains(f) ==> exists|k: int|
                0 <= k < n && frame_of(#[trigger] v[k]) == f,
    decreases n,
{
    assert(v[i].len() >= 32);
    law_numbers(v[i], 20, 0, 0);
    let m = (n - 1) as nat;
    if m > 0 {
        let j = if i < m {
            i
        } else {
            0
        };
        law_measured_frames(v, m, j);
    }
    let (last, before) = (frame_of(v[m as int]), frames_seen(v, m));
    assert(frames_seen(v, n) == before.insert(last));
    if m == 0 {
        assert(lowest_frame(v, 0) == u32::MAX && highest_frame(v, 0) == 0);
        assert(lowest_frame(v, n) == last && highest_frame(v, n) == last);
    } else {
        assert(before.contains(lowest_frame(v, m)) && before.contains(highest_frame(v, m)));
        assert(lowest_frame(v, n) == last || lowest_frame(v, n) == lowest_frame(v, m));
        assert(highest_frame(v, n) == last || highest_frame(v, n) == highest_frame(v, m));
    }
    assert(frames_seen(v, n).contains(lowest_frame(v, n)));
    assert(frames_seen(v, n).contains(highest_frame(v, n)));
    assert forall|f: u32| #[trigger] frames_seen(v, n).contains(f) implies exists|k: int|
        0 <= k < n && frame_of(#[trigger] v[k]) == f by {
        if f == frame_of(v[m as int]) {
            assert(0 <= m < n && frame_of(v[m as int]) == f);
        } else {
            assert(frames_seen(v, m).contains(f));
            let k = choose|k: int| 0 <= k < m && frame_of(#[trigger] v[k]) == f;
            assert(0 <= k < n && frame_of(v[k]) == f);
        }
    }
}

proof fn lemma_in_order(s: Seq<u16>, limit: int, k: int, n: nat)
    requires
        n <= s.len(),
        0 <= k < n,
        forall|i: int, j: int| 0 <= i < j < s.len() ==> #[trigger] s[i] <= #[trigger] s[j],
    ensures
        s[k] > limit ==> count_at_most(s, limit, n) <= k,
        s[k] <= limit ==> count_at_most(s, limit, n) >= k + 1,
    decreases n,
{
    let m = (n - 1) as nat;
    if k < m {
        lemma_in_order(s, limit, k, m);
        assert(s[k] <= s[m as int]);
    } else if m > 0 {
        lemma_in_order(s, limit, m - 1, m);
        lemma_count(s, limit, limit, m);
        assert(s[m - 1] <= s[m as int]);
    }
}

/// The middle of values in order is the one with as many before it as after it, or one more.
pub proof fn law_middle(s: Seq<u16>, m: int, k: int)
    requires
        0 <= k < s.len(),
        k == s.len() - k || k + 1 == s.len() - k,
        forall|i: int, j: int| 0 <= i < j < s.len() ==> #[trigger] s[i] <= #[trigger] s[j],
    ensures
        is_middle(s, m) <==> m == s[k],
{
    assert(s.len() / 2 == k);
    lemma_in_order(s, m - 1, k, s.len());
    lemma_in_order(s, m, k, s.len());
}

/// What is measured are the payloads that came from the video port and hold both headers, and all of
/// them.
pub proof fn law_video_datagrams(datalink: u32, frames: Seq<Seq<u8>>, n: nat, p: Seq<u8>)
    requires
        n <= frames.len(),
    ensures
        video_datagrams(datalink, frames, n).contains(p) <==> p.len() >= 32 && exists|i: int|
            0 <= i < n && (#[trigger] frame_contents(datalink, frames[i]) matches Some(c)
                && c.src_port == 47998 && c.payload == p),
    decreases n,
{
    let v = video_datagrams(datalink, frames, n);
    if n > 0 {
        let m = (n - 1) as nat;
        let before = video_datagrams(datalink, frames, m);
        law_video_datagrams(datalink, frames, m, p);
        if v.contains(p) && !before.contains(p) {
            let j = choose|j: int| 0 <= j < v.len() && v[j] == p;
            if j < before.len() {
                assert(before[j] == p);
            }
            assert(frame_contents(datalink, frames[m as int]) is Some);
        }
        if before.contains(p) {
            let j = choose|j: int| 0 <= j < before.len() && before[j] == p;
            assert(v[j] == p);
        }
        if frame_contents(datalink, frames[m as int]) matches Some(c) && c.src_port == 47998
            && c.payload == p && p.len() >= 32 {
            assert(v[v.len() - 1] == p);
        }
    }
}

/// A datagram adds its length and its latency, where it tells one, to what the others gave.
pub proof fn law_one_more_datagram(v: Seq<Seq<u8>>, p: Seq<u8>)
    ensures
        byte_count(v.push(p), v.len() + 1) == byte_count(v, v.len()) + p.len(),
        latencies(v.push(p), v.len() + 1) == match told_latency(p) {
            Some(l) => latencies(v, v.len()).push(l),
            None => latencies(v, v.len()),
        },
{
    let w = v.push(p);
    lemma_same(w, v, v.len());
    assert(w[v.len() as int] == p);
}

} // verus!
