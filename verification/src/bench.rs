//! Measures of a running stream.
use vstd::prelude::*;

use crate::video::rtp::{header_of, parse_header, sof_host_latency, told_latency};

verus! {

/// What has been counted of a stream. Times are in microseconds, unless said otherwise.
#[derive(Debug, Clone, PartialEq, Eq)]
pub struct BenchStats {
    pub bytes: u64,
    pub packets: u64,
    /// How long each frame took to decode.
    pub decode_us: Vec<u32>,
    /// The time from each frame to the next.
    pub interval_us: Vec<u32>,
    /// The latency of the host for each frame of which it is known, in tenths of a millisecond.
    pub host_lat_tenths: Vec<u16>,
    /// The round-trip time at each frame, in milliseconds.
    pub rtt_ms: Vec<u32>,
    pub last_idx: Option<u32>,
    pub dropped: u64,
    pub width: u32,
    pub height: u32,
}

/// The frame indices between the last one and `idx`.
pub open spec fn skipped(last: Option<u32>, idx: u32) -> u64 {
    match last {
        Some(l) => if idx > l + 1 {
            (idx - l - 1) as u64
        } else {
            0
        },
        None => 0,
    }
}

impl BenchStats {
    /// Nothing counted.
    pub fn new() -> (r: Self)
        ensures
            r.bytes == 0,
            r.packets == 0,
            r.decode_us@ == Seq::<u32>::empty(),
            r.interval_us@ == Seq::<u32>::empty(),
            r.host_lat_tenths@ == Seq::<u16>::empty(),
            r.rtt_ms@ == Seq::<u32>::empty(),
            r.last_idx is None,
            r.dropped == 0,
            r.width == 0,
            r.height == 0,
    {
        BenchStats {
            bytes: 0,
            packets: 0,
            decode_us: Vec::new(),
            interval_us: Vec::new(),
            host_lat_tenths: Vec::new(),
            rtt_ms: Vec::new(),
            last_idx: None,
            dropped: 0,
            width: 0,
            height: 0,
        }
    }

    /// A packet of `n` bytes came in.
    pub fn packet(&mut self, n: usize)
        requires
            old(self).packets < u64::MAX,
            old(self).bytes + n <= u64::MAX,
        ensures
            *final(self) == (BenchStats {
                packets: (old(self).packets + 1) as u64,
                bytes: (old(self).bytes + n) as u64,
                ..*old(self)
            }),
    {
        self.packets = self.packets + 1;
        self.bytes = self.bytes + n as u64;
    }

    /// A frame was decoded. `interval_us` is the time since the one before; `None` for the first.
    pub fn frame(
        &mut self,
        decode_us: u32,
        host_lat_tenths: Option<u16>,
        rtt_ms: u32,
        interval_us: Option<u32>,
        idx: u32,
        w: u32,
        h: u32,
    )
        requires
            old(self).dropped + skipped(old(self).last_idx, idx) <= u64::MAX,
        ensures
            final(self).bytes == old(self).bytes,
            final(self).packets == old(self).packets,
            final(self).decode_us@ == old(self).decode_us@.push(decode_us),
            final(self).interval_us@ == match interval_us {
                Some(us) => old(self).interval_us@.push(us),
                None => old(self).interval_us@,
            },
            final(self).host_lat_tenths@ == match host_lat_tenths {
                Some(tenths) => old(self).host_lat_tenths@.push(tenths),
                None => old(self).host_lat_tenths@,
            },
            final(self).rtt_ms@ == old(self).rtt_ms@.push(rtt_ms),
            final(self).last_idx == Some(idx),
            final(self).dropped == old(self).dropped + skipped(old(self).last_idx, idx),
            final(self).width == w,
            final(self).height == h,
    {
        self.decode_us.push(decode_us);
        if let Some(tenths) = host_lat_tenths {
            self.host_lat_tenths.push(tenths);
        }
        self.rtt_ms.push(rtt_ms);
        self.width = w;
        self.height = h;
        if let Some(us) = interval_us {
            self.interval_us.push(us);
        }
        if let Some(last) = self.last_idx {
            if idx > last && idx - last > 1 {
                self.dropped = self.dropped + (idx - last - 1) as u64;
            }
        }
        self.last_idx = Some(idx);
    }
}

/// Remembers the latency of the host that the start of the latest frame told.
pub struct LatencyWatch {
    /// The frame and its latency, in tenths of a millisecond.
    pub told: Option<(u32, u16)>,
}

impl LatencyWatch {
    /// Nothing told.
    pub fn new() -> (r: Self)
        ensures
            r.told is None,
    {
        LatencyWatch { told: None }
    }

    /// A video datagram came in.
    pub fn on_datagram(&mut self, pkt: &[u8])
        ensures
            final(self).told == match told_latency(pkt@) {
                Some(tenths) => Some((header_of(pkt@).frame_index, tenths)),
                None => old(self).told,
            },
    {
        if let (Some(tenths), Some(h)) = (sof_host_latency(pkt), parse_header(pkt)) {
            self.told = Some((h.frame_index, tenths));
        }
    }

    /// The latency for a frame, if it was the latest to tell one.
    pub fn of(&self, frame: u32) -> (r: Option<u16>)
        ensures
            r == match self.told {
                Some((told_of, tenths)) => if told_of == frame {
                    Some(tenths)
                } else {
                    None
                },
                None => None,
            },
    {
        match self.told {
            Some((told_of, tenths)) => if told_of == frame {
                Some(tenths)
            } else {
                None
            },
            None => None,
        }
    }
}

/// How many of the first `n` values are at most `limit`.
pub open spec fn at_most(s: Seq<u32>, limit: int, n: nat) -> nat
    decreases n,
{
    if n == 0 {
        0
    } else {
        at_most(s, limit, (n - 1) as nat) + if s[n - 1] <= limit {
            1nat
        } else {
            0nat
        }
    }
}

/// Whether `m` stands in the place `rank` once the values are in order.
pub open spec fn has_rank(s: Seq<u32>, m: int, rank: nat) -> bool {
    at_most(s, m - 1, s.len()) <= rank < at_most(s, m, s.len())
}

proof fn lemma_at_most(s: Seq<u32>, a: int, b: int, n: nat)
    requires
        n <= s.len(),
        a <= b,
    ensures
        at_most(s, a, n) <= at_most(s, b, n) <= n,
        a < 0 ==> at_most(s, a, n) == 0,
        b >= u32::MAX ==> at_most(s, b, n) == n,
    decreases n,
{
    if n > 0 {
        lemma_at_most(s, a, b, (n - 1) as nat);
    }
}

/// At most one value has a rank, so the rank determines it.
pub proof fn law_rank_is_unique(s: Seq<u32>, a: int, b: int, rank: nat)
    requires
        has_rank(s, a, rank),
        has_rank(s, b, rank),
    ensures
        a == b,
{
    if a < b {
        lemma_at_most(s, a, b - 1, s.len());
    }
    if b < a {
        lemma_at_most(s, b, a - 1, s.len());
    }
}

fn count_at_most(s: &[u32], limit: u32) -> (r: usize)
    ensures
        r == at_most(s@, limit as int, s@.len()),
{
    let mut n: usize = 0;
    let mut i: usize = 0;
    while i < s.len()
        invariant
            i <= s.len(),
            n <= i,
            n == at_most(s@, limit as int, i as nat),
        decreases s.len() - i,
    {
        if s[i] <= limit {
            n += 1;
        }
        i += 1;
    }
    n
}

/// The value in the place `rank` once the values are in order; `None` if there are not so many.
pub fn ranked(s: &[u32], rank: usize) -> (r: Option<u32>)
    ensures
        r is None <==> rank >= s@.len(),
        r matches Some(m) ==> has_rank(s@, m as int, rank as nat),
{
    if rank >= s.len() {
        return None;
    }
    let mut low: u32 = 0;
    let mut high: u32 = 0xffff_ffff;
    proof {
        lemma_at_most(s@, -1, 0xffff_ffff, s@.len());
    }
    while low < high
        invariant
            low <= high,
            at_most(s@, low - 1, s@.len()) <= rank,
            at_most(s@, high as int, s@.len()) > rank,
        decreases high - low,
    {
        let middle: u32 = low + (high - low) / 2;
        if count_at_most(s, middle) > rank {
            high = middle;
        } else {
            low = middle + 1;
        }
    }
    Some(low)
}

/// The frames between two are those that neither is.
pub proof fn law_skipped(last: u32, idx: u32)
    ensures
        idx > last ==> last + 1 + skipped(Some(last), idx) == idx,
        idx <= last ==> skipped(Some(last), idx) == 0,
        skipped(None, idx) == 0,
{
}

proof fn lemma_in_order(s: Seq<u32>, limit: int, k: int, n: nat)
    requires
        n <= s.len(),
        0 <= k < n,
        forall|i: int, j: int| 0 <= i < j < s.len() ==> #[trigger] s[i] <= #[trigger] s[j],
    ensures
        s[k] > limit ==> at_most(s, limit, n) <= k,
        s[k] <= limit ==> at_most(s, limit, n) >= k + 1,
    decreases n,
{
    let m = (n - 1) as nat;
    if k < m {
        lemma_in_order(s, limit, k, m);
        assert(s[k] <= s[m as int]);
    } else if m > 0 {
        lemma_in_order(s, limit, m - 1, m);
        lemma_at_most(s, limit, limit, m);
        assert(s[m - 1] <= s[m as int]);
    }
}

/// The value of a rank is the one in that place of the values in order.
pub proof fn law_rank_in_order(s: Seq<u32>, m: int, rank: nat)
    requires
        rank < s.len(),
        forall|i: int, j: int| 0 <= i < j < s.len() ==> #[trigger] s[i] <= #[trigger] s[j],
    ensures
        has_rank(s, m, rank) <==> m == s[rank as int],
{
    let k = rank as int;
    lemma_in_order(s, m - 1, k, s.len());
    lemma_in_order(s, m, k, s.len());
}

} // verus!
