//! Reassembly of TCP transcripts.
use vstd::prelude::*;

use crate::bytes::{copy_range, push_slice};
use crate::slicer::flows::{
    ascending, key_views, keyed, lemma_keyed_at, lemma_keyed_insert, lemma_keyed_update, locate,
    FlowKey, KeyView,
};
use crate::slicer::layers::Layer;

verus! {

/// A segment of a transcript.
pub struct Segment {
    pub seq: u32,
    pub data: Vec<u8>,
}

/// What a [`Segment`] holds.
pub struct SegView {
    pub seq: u32,
    pub data: Seq<u8>,
}

impl View for Segment {
    type V = SegView;

    open spec fn view(&self) -> SegView {
        SegView { seq: self.seq, data: self.data@ }
    }
}

/// The contents of a list of segments.
pub open spec fn seg_views(v: Seq<Segment>) -> Seq<SegView> {
    v.map_values(|s: Segment| s@)
}

/// `x` put behind the segments of `s` that do not start after it.
pub open spec fn seg_insert(s: Seq<SegView>, x: SegView) -> Seq<SegView>
    decreases s.len(),
{
    if s.len() == 0 || s.last().seq <= x.seq {
        s.push(x)
    } else {
        seg_insert(s.drop_last(), x).push(s.last())
    }
}

/// The segments by ascending sequence number, those of one number in the order they came.
pub open spec fn seg_sorted(s: Seq<SegView>) -> Seq<SegView>
    decreases s.len(),
{
    if s.len() == 0 {
        s
    } else {
        seg_insert(seg_sorted(s.drop_last()), s.last())
    }
}

/// The number that follows the last byte of a segment.
pub open spec fn seg_end(s: SegView) -> u32 {
    s.seq.wrapping_add(s.data.len() as u32)
}

/// A transcript and the number that follows its last byte.
pub struct Transcript {
    pub bytes: Seq<u8>,
    pub next: u32,
}

/// The transcript with one more segment: what it has beyond the transcript is appended. After a
/// gap all of it is.
pub open spec fn with_segment(t: Transcript, s: SegView) -> Transcript {
    if seg_end(s) <= t.next {
        t
    } else if s.seq <= t.next {
        Transcript { bytes: t.bytes + s.data.skip(t.next - s.seq), next: seg_end(s) }
    } else {
        Transcript { bytes: t.bytes + s.data, next: seg_end(s) }
    }
}

/// The transcript of the first `n` segments.
pub open spec fn joined(s: Seq<SegView>, n: nat) -> Transcript
    decreases n,
{
    if n == 0 {
        Transcript { bytes: Seq::empty(), next: s[0].seq }
    } else {
        with_segment(joined(s, (n - 1) as nat), s[n - 1])
    }
}

/// The transcript that segments in any order make.
pub open spec fn transcript(s: Seq<SegView>) -> Seq<u8> {
    joined(seg_sorted(s), s.len()).bytes
}

/// Whether a segment is the part of `stream` that its number says, counted from `base`.
pub open spec fn part_of(s: SegView, stream: Seq<u8>, base: u32) -> bool {
    &&& base <= s.seq
    &&& s.seq - base + s.data.len() <= stream.len()
    &&& s.data == stream.subrange(s.seq - base, s.seq - base + s.data.len())
}

/// Whether a segment holds byte `p` of the stream that starts at `base`.
pub open spec fn covers(s: SegView, base: u32, p: int) -> bool {
    s.seq - base <= p < s.seq - base + s.data.len()
}

/// Whether some segment holds byte `p` of the stream that starts at `base`.
pub open spec fn covered(s: Seq<SegView>, base: u32, p: int) -> bool {
    exists|i: int| 0 <= i < s.len() && covers(#[trigger] s[i], base, p)
}

/// What inserting keeps: the segments themselves and their order.
proof fn lemma_insert(s: Seq<SegView>, x: SegView)
    requires
        forall|i: int, j: int|
            0 <= i < j < s.len() ==> (#[trigger] s[i]).seq <= (#[trigger] s[j]).seq,
    ensures
        seg_insert(s, x).len() == s.len() + 1,
        forall|i: int, j: int|
            0 <= i < j < s.len() + 1 ==> (#[trigger] seg_insert(s, x)[i]).seq <= (
            #[trigger] seg_insert(s, x)[j]).seq,
        forall|y: SegView|
            #[trigger] seg_insert(s, x).contains(y) <==> (y == x || s.contains(y)),
    decreases s.len(),
{
    let t = seg_insert(s, x);
    if s.len() == 0 || s.last().seq <= x.seq {
        assert forall|y: SegView| #[trigger] t.contains(y) <==> (y == x || s.contains(y)) by {
            if s.contains(y) {
                let i = choose|i: int| 0 <= i < s.len() && s[i] == y;
                assert(t[i] == y);
            }
            assert(t[s.len() as int] == x);
        }
    } else {
        let rest = s.drop_last();
        lemma_insert(rest, x);
        let u = seg_insert(rest, x);
        assert forall|y: SegView| #[trigger] t.contains(y) <==> (y == x || s.contains(y)) by {
            if t.contains(y) {
                let i = choose|i: int| 0 <= i < t.len() && t[i] == y;
                if i < u.len() {
                    assert(u[i] == y);
                    assert(u.contains(y));
                    if y != x {
                        assert(rest.contains(y));
                        let j = choose|j: int| 0 <= j < rest.len() && rest[j] == y;
                        assert(s[j] == y);
                    }
                } else {
                    assert(s[s.len() - 1] == y);
                }
            }
            if y == x || s.contains(y) {
                if s.contains(y) {
                    let i = choose|i: int| 0 <= i < s.len() && s[i] == y;
                    if i == s.len() - 1 {
                        assert(t[u.len() as int] == y);
                    } else {
                        assert(rest[i] == y);
                        assert(rest.contains(y));
                    }
                }
                if y == x || rest.contains(y) {
                    assert(u.contains(y));
                    let k = choose|k: int| 0 <= k < u.len() && u[k] == y;
                    assert(t[k] == y);
                }
            }
        }
        assert forall|i: int, j: int| 0 <= i < j < t.len() implies (#[trigger] t[i]).seq <= (
        #[trigger] t[j]).seq by {
            if j == u.len() {
                assert(u.contains(u[i]));
                if u[i] != x {
                    assert(rest.contains(u[i]));
                    let k = choose|k: int| 0 <= k < rest.len() && rest[k] == u[i];
                    assert(s[k].seq <= s[s.len() - 1].seq);
                }
            } else {
                assert(u[i].seq <= u[j].seq);
            }
        }
    }
}

/// What sorting keeps, and what it orders.
pub proof fn lemma_sorted(s: Seq<SegView>)
    ensures
        seg_sorted(s).len() == s.len(),
        forall|i: int, j: int|
            0 <= i < j < s.len() ==> (#[trigger] seg_sorted(s)[i]).seq <= (#[trigger] seg_sorted(
                s,
            )[j]).seq,
        forall|y: SegView| seg_sorted(s).contains(y) <==> #[trigger] s.contains(y),
    decreases s.len(),
{
    if s.len() > 0 {
        let rest = s.drop_last();
        lemma_sorted(rest);
        lemma_insert(seg_sorted(rest), s.last());
        assert forall|y: SegView| seg_sorted(s).contains(y) <==> #[trigger] s.contains(y) by {
            if s.contains(y) {
                let i = choose|i: int| 0 <= i < s.len() && s[i] == y;
                if i < rest.len() {
                    assert(rest[i] == y);
                    assert(rest.contains(y));
                    assert(seg_sorted(rest).contains(y));
                }
            }
            if seg_sorted(s).contains(y) && y != s.last() {
                assert(seg_sorted(rest).contains(y));
                assert(rest.contains(y));
                let i = choose|i: int| 0 <= i < rest.len() && rest[i] == y;
                assert(s[i] == y);
            }
            assert(s[s.len() - 1] == s.last());
            let t = seg_sorted(rest);
            assert(t.contains(y) <==> rest.contains(y));
        }
    }
}

/// Those of the first `n` bytes of a stream that some segment holds, in order and once each.
pub open spec fn covered_bytes(s: Seq<SegView>, stream: Seq<u8>, base: u32, n: nat) -> Seq<u8>
    decreases n,
{
    if n == 0 {
        Seq::empty()
    } else if covered(s, base, n - 1) {
        covered_bytes(s, stream, base, (n - 1) as nat).push(stream[n - 1])
    } else {
        covered_bytes(s, stream, base, (n - 1) as nat)
    }
}

/// Segments of a stream make a transcript of the bytes that they hold between them, in the order
/// of the stream and once each, whatever the order, the repetitions and the overlaps of the
/// segments and whatever gaps they leave. The stream starts at the number `base`, and its numbers
/// do not wrap.
pub proof fn law_transcript_is_what_arrived(s: Seq<SegView>, stream: Seq<u8>, base: u32)
    requires
        base + stream.len() <= u32::MAX,
        forall|i: int| 0 <= i < s.len() ==> part_of(#[trigger] s[i], stream, base),
    ensures
        transcript(s) == covered_bytes(s, stream, base, stream.len()),
{
    let t = seg_sorted(s);
    lemma_sorted(s);
    assert forall|i: int| 0 <= i < t.len() implies part_of(#[trigger] t[i], stream, base) by {
        assert(t.contains(t[i]));
        assert(s.contains(t[i]));
        let j = choose|j: int| 0 <= j < s.len() && s[j] == t[i];
        assert(part_of(s[j], stream, base));
    }
    assert forall|p: int| 0 <= p < stream.len() implies #[trigger] covered(t, base, p) == covered(
        s,
        base,
        p,
    ) by {
        lemma_covered_among(s, t, base, p);
        lemma_covered_among(t, s, base, p);
    }
    lemma_covered_same(t, s, stream, base, stream.len());
    if t.len() > 0 {
        lemma_joined_covered(t, stream, base, t.len());
        let end = joined(t, t.len()).next;
        assert(t.take(t.len() as int) =~= t);
        assert forall|p: int| end - base <= p < stream.len() implies !#[trigger] covered(
            t,
            base,
            p,
        ) by {
            if covered(t, base, p) {
                let i = choose|i: int| 0 <= i < t.len() && covers(#[trigger] t[i], base, p);
                assert(part_of(t[i], stream, base));
                assert(seg_end(t[i]) <= end);
            }
        }
        lemma_gap(t, stream, base, (end - base) as nat, stream.len());
    } else {
        assert forall|p: int| 0 <= p < stream.len() implies !#[trigger] covered(t, base, p) by {}
        lemma_gap(t, stream, base, 0, stream.len());
    }
}

/// Segments of a stream give the stream back, whatever their order, repetitions and overlaps,
/// as long as together they hold all of it: the stream starts at the number `base`, and its
/// numbers do not wrap.
pub proof fn law_transcript_is_stream(s: Seq<SegView>, stream: Seq<u8>, base: u32)
    requires
        base + stream.len() <= u32::MAX,
        forall|i: int| 0 <= i < s.len() ==> part_of(#[trigger] s[i], stream, base),
        forall|p: int| 0 <= p < stream.len() ==> #[trigger] covered(s, base, p),
    ensures
        transcript(s) == stream,
{
    law_transcript_is_what_arrived(s, stream, base);
    lemma_run(s, stream, base, 0, stream.len());
    assert(covered_bytes(s, stream, base, 0) + stream.subrange(0, stream.len() as int) =~= stream);
}

/// A byte that segments hold is held by any list that has them all.
proof fn lemma_covered_among(s: Seq<SegView>, t: Seq<SegView>, base: u32, p: int)
    requires
        forall|y: SegView| #[trigger] s.contains(y) ==> t.contains(y),
    ensures
        covered(s, base, p) ==> covered(t, base, p),
{
    if covered(s, base, p) {
        let i = choose|i: int| 0 <= i < s.len() && covers(#[trigger] s[i], base, p);
        assert(s.contains(s[i]));
        let j = choose|j: int| 0 <= j < t.len() && t[j] == s[i];
        assert(covers(t[j], base, p));
    }
}

/// Only which bytes are held counts.
proof fn lemma_covered_same(
    s: Seq<SegView>,
    t: Seq<SegView>,
    stream: Seq<u8>,
    base: u32,
    n: nat,
)
    requires
        forall|p: int| 0 <= p < n ==> #[trigger] covered(s, base, p) == covered(t, base, p),
    ensures
        covered_bytes(s, stream, base, n) == covered_bytes(t, stream, base, n),
    decreases n,
{
    if n > 0 {
        lemma_covered_same(s, t, stream, base, (n - 1) as nat);
        assert(covered(s, base, n - 1) == covered(t, base, n - 1));
    }
}

/// A run of bytes that are held.
proof fn lemma_run(s: Seq<SegView>, stream: Seq<u8>, base: u32, m: nat, n: nat)
    requires
        m <= n <= stream.len(),
        forall|p: int| m <= p < n ==> #[trigger] covered(s, base, p),
    ensures
        covered_bytes(s, stream, base, n) == covered_bytes(s, stream, base, m) + stream.subrange(
            m as int,
            n as int,
        ),
    decreases n,
{
    if m < n {
        lemma_run(s, stream, base, m, (n - 1) as nat);
        assert(covered(s, base, n - 1));
        assert(stream.subrange(m as int, n - 1).push(stream[n - 1]) =~= stream.subrange(
            m as int,
            n as int,
        ));
    }
    assert(covered_bytes(s, stream, base, n) =~= covered_bytes(s, stream, base, m)
        + stream.subrange(m as int, n as int));
}

/// A run of bytes that are not held.
proof fn lemma_gap(s: Seq<SegView>, stream: Seq<u8>, base: u32, m: nat, n: nat)
    requires
        m <= n,
        forall|p: int| m <= p < n ==> !#[trigger] covered(s, base, p),
    ensures
        covered_bytes(s, stream, base, n) == covered_bytes(s, stream, base, m),
    decreases n,
{
    if m < n {
        lemma_gap(s, stream, base, m, (n - 1) as nat);
        assert(!covered(s, base, n - 1));
    }
}

/// The transcript of the first `n` segments holds the bytes that these hold and reaches to the
/// end of the one that reaches farthest.
proof fn lemma_joined_covered(t: Seq<SegView>, stream: Seq<u8>, base: u32, n: nat)
    requires
        n <= t.len(),
        t.len() > 0,
        base + stream.len() <= u32::MAX,
        forall|i: int, j: int|
            0 <= i < j < t.len() ==> (#[trigger] t[i]).seq <= (#[trigger] t[j]).seq,
        forall|i: int| 0 <= i < t.len() ==> part_of(#[trigger] t[i], stream, base),
    ensures
        base <= joined(t, n).next <= base + stream.len(),
        joined(t, n).bytes == covered_bytes(
            t.take(n as int),
            stream,
            base,
            (joined(t, n).next - base) as nat,
        ),
        forall|i: int| 0 <= i < n ==> seg_end(#[trigger] t[i]) <= joined(t, n).next,
        joined(t, n).next == t[0].seq || exists|i: int|
            0 <= i < n && seg_end(#[trigger] t[i]) == joined(t, n).next,
    decreases n,
{
    assert(part_of(t[0], stream, base));
    if n == 0 {
        let first = (t[0].seq - base) as nat;
        assert forall|p: int| 0 <= p < first implies !#[trigger] covered(t.take(0), base, p) by {}
        lemma_gap(t.take(0), stream, base, 0, first);
    } else {
        let m = (n - 1) as nat;
        lemma_joined_covered(t, stream, base, m);
        let before = joined(t, m);
        let had = t.take(m as int);
        let has = t.take(n as int);
        let s = t[n - 1];
        let reached = (before.next - base) as nat;
        assert(part_of(s, stream, base));
        assert(seg_end(s) == s.seq + s.data.len());
        assert forall|p: int| 0 <= p < reached implies #[trigger] covered(had, base, p) == covered(
            has,
            base,
            p,
        ) by {
            lemma_held_before(t, stream, base, n, p);
        }
        lemma_covered_same(had, has, stream, base, reached);
        if seg_end(s) > before.next {
            let from = if s.seq > before.next {
                (s.seq - base) as nat
            } else {
                reached
            };
            let end = (seg_end(s) - base) as nat;
            assert forall|p: int| reached <= p < from implies !#[trigger] covered(
                has,
                base,
                p,
            ) by {
                if covered(has, base, p) {
                    let i = choose|i: int|
                        0 <= i < has.len() && covers(#[trigger] has[i], base, p);
                    assert(has[i] == t[i]);
                    assert(part_of(t[i], stream, base));
                    if i < m {
                        assert(seg_end(t[i]) <= before.next);
                    }
                }
            }
            lemma_gap(has, stream, base, reached, from);
            assert forall|p: int| from <= p < end implies #[trigger] covered(has, base, p) by {
                assert(covers(has[n - 1], base, p));
            }
            lemma_run(has, stream, base, from, end);
            let k = from - (s.seq - base);
            assert(s.data.skip(k) =~= stream.subrange(from as int, end as int));
            if s.seq > before.next {
                assert(s.data.skip(0) =~= s.data);
            }
            assert(seg_end(t[n - 1]) == joined(t, n).next);
        }
    }
}

/// The last of the first `n` segments holds nothing of what lies before the end of the others
/// that these do not hold.
proof fn lemma_held_before(t: Seq<SegView>, stream: Seq<u8>, base: u32, n: nat, p: int)
    requires
        0 < n <= t.len(),
        base + stream.len() <= u32::MAX,
        forall|i: int, j: int|
            0 <= i < j < t.len() ==> (#[trigger] t[i]).seq <= (#[trigger] t[j]).seq,
        forall|i: int| 0 <= i < t.len() ==> part_of(#[trigger] t[i], stream, base),
        0 <= p < joined(t, (n - 1) as nat).next - base,
        ({
            let next = joined(t, (n - 1) as nat).next;
            next == t[0].seq || exists|i: int|
                0 <= i < n - 1 && seg_end(#[trigger] t[i]) == next
        }),
    ensures
        covered(t.take(n - 1), base, p) == covered(t.take(n as int), base, p),
{
    let next = joined(t, (n - 1) as nat).next;
    let had = t.take(n - 1);
    let has = t.take(n as int);
    if covered(had, base, p) {
        let i = choose|i: int| 0 <= i < had.len() && covers(#[trigger] had[i], base, p);
        assert(covers(has[i], base, p));
    }
    if covered(has, base, p) {
        let i = choose|i: int| 0 <= i < has.len() && covers(#[trigger] has[i], base, p);
        if i < n - 1 {
            assert(covers(had[i], base, p));
        } else {
            assert(t[0].seq <= t[n - 1].seq);
            let k = choose|k: int| 0 <= k < n - 1 && seg_end(#[trigger] t[k]) == next;
            assert(part_of(t[k], stream, base));
            assert(t[k].seq <= t[n - 1].seq);
            assert(covers(had[k], base, p));
        }
    }
}

/// Where an inserted segment goes.
proof fn lemma_insert_at(s: Seq<SegView>, x: SegView, i: int)
    requires
        0 <= i <= s.len(),
        i > 0 ==> s[i - 1].seq <= x.seq,
        forall|j: int| i <= j < s.len() ==> (#[trigger] s[j]).seq > x.seq,
    ensures
        seg_insert(s, x) == s.insert(i, x),
    decreases s.len(),
{
    if i < s.len() {
        assert(s[s.len() - 1].seq > x.seq);
        let rest = s.drop_last();
        lemma_insert_at(rest, x, i);
        assert(rest.insert(i, x).push(s.last()) =~= s.insert(i, x));
    } else {
        assert(s.insert(i, x) =~= s.push(x));
    }
}

/// The segments in order.
fn sort_segments(segs: Vec<Segment>) -> (r: Vec<Segment>)
    ensures
        seg_views(r@) == seg_sorted(seg_views(segs@)),
{
    let ghost all = seg_views(segs@);
    let mut segs = segs;
    let mut rest: Vec<Segment> = Vec::new();
    // Take the segments from the end, so that they can be moved in their order of arrival.
    let ghost n = segs@.len();
    while segs.len() > 0
        invariant
            segs@.len() <= n,
            n == all.len(),
            seg_views(segs@) == all.take(segs@.len() as int),
            rest@.len() == n - segs@.len(),
            forall|i: int|
                0 <= i < rest@.len() ==> #[trigger] seg_views(rest@)[i] == all[n - 1 - i],
        decreases segs@.len(),
    {
        let ghost before = rest@;
        let ghost had = segs@;
        match segs.pop() {
            Some(s) => {
                assert(seg_views(had).last() == s@);
                rest.push(s);
                assert(seg_views(rest@) =~= seg_views(before).push(s@));
                assert(seg_views(segs@) =~= all.take(segs@.len() as int));
            },
            None => {},
        }
    }
    let mut out: Vec<Segment> = Vec::new();
    assert(seg_views(out@) =~= seg_sorted(all.take(0)));
    while rest.len() > 0
        invariant
            n == all.len(),
            rest@.len() <= n,
            out@.len() == n - rest@.len(),
            seg_views(out@) == seg_sorted(all.take(n - rest@.len())),
            forall|i: int|
                0 <= i < rest@.len() ==> #[trigger] seg_views(rest@)[i] == all[n - 1 - i],
        decreases rest@.len(),
    {
        let ghost had = rest@;
        let ghost before = seg_views(out@);
        match rest.pop() {
            Some(s) => {
                assert(seg_views(had)[had.len() - 1] == s@);
                let mut i: usize = out.len();
                while i > 0 && out[i - 1].seq > s.seq
                    invariant
                        i <= out.len(),
                        before == seg_views(out@),
                        forall|j: int|
                            i <= j < before.len() ==> (#[trigger] before[j]).seq > s.seq,
                    decreases i,
                {
                    assert(before[i - 1] == out@[i - 1]@);
                    i -= 1;
                }
                proof {
                    if i > 0 {
                        assert(before[i - 1] == out@[i - 1]@);
                    }
                    lemma_insert_at(before, s@, i as int);
                    let m = n - had.len();
                    assert(all.take(m + 1).drop_last() =~= all.take(m));
                }
                let ghost x = s@;
                out.insert(i, s);
                assert(seg_views(out@) =~= before.insert(i as int, x));
                assert forall|k: int| 0 <= k < rest@.len() implies #[trigger] seg_views(
                    rest@,
                )[k] == all[n - 1 - k] by {
                    assert(seg_views(had)[k] == all[n - 1 - k]);
                }
            },
            None => {},
        }
    }
    assert(all.take(n as int) =~= all);
    out
}

/// The transcript of segments in any order.
fn assemble(segs: Vec<Segment>) -> (r: Vec<u8>)
    ensures
        r@ == transcript(seg_views(segs@)),
{
    let ghost all = seg_views(segs@);
    if segs.len() == 0 {
        let none: Vec<u8> = Vec::new();
        assert(none@ =~= transcript(all));
        return none;
    }
    let sorted: Vec<Segment> = sort_segments(segs);
    let ghost s = seg_sorted(all);
    proof {
        lemma_sorted(all);
    }
    assert(s[0] == sorted@[0]@);
    let mut out: Vec<u8> = Vec::new();
    let mut next: u32 = sorted[0].seq;
    let mut i: usize = 0;
    while i < sorted.len()
        invariant
            i <= sorted.len(),
            s == seg_views(sorted@),
            joined(s, i as nat) == (Transcript { bytes: out@, next }),
        decreases sorted.len() - i,
    {
        let seg = &sorted[i];
        assert(s[i as int] == seg@);
        let end: u32 = seg.seq.wrapping_add(seg.data.len() as u32);
        if end > next {
            if seg.seq <= next {
                let offset: usize = (next - seg.seq) as usize;
                let tail: Vec<u8> = copy_range(&seg.data, offset, seg.data.len());
                assert(tail@ =~= seg.data@.skip(offset as int));
                push_slice(&mut out, &tail);
            } else {
                push_slice(&mut out, &seg.data);
            }
            next = end;
        }
        i += 1;
    }
    out
}

/// The segments of a connection in each direction.
pub struct Conn {
    pub c2s: Vec<Segment>,
    pub s2c: Vec<Segment>,
}

/// What a [`Conn`] holds.
#[verifier::ext_equal]
pub struct ConnView {
    pub c2s: Seq<SegView>,
    pub s2c: Seq<SegView>,
}

impl View for Conn {
    type V = ConnView;

    open spec fn view(&self) -> ConnView {
        ConnView { c2s: seg_views(self.c2s@), s2c: seg_views(self.s2c@) }
    }
}

/// The contents of a list of connections.
pub open spec fn conn_views(v: Seq<Conn>) -> Seq<ConnView> {
    v.map_values(|c: Conn| c@)
}

/// A connection without segments.
pub open spec fn empty_conn() -> ConnView {
    ConnView { c2s: Seq::empty(), s2c: Seq::empty() }
}

/// The connection with one more segment.
pub open spec fn conn_with(c: ConnView, to_server: bool, s: SegView) -> ConnView {
    if to_server {
        ConnView { c2s: c.c2s.push(s), ..c }
    } else {
        ConnView { s2c: c.s2c.push(s), ..c }
    }
}

/// The connections with one more segment of the connection `key`.
pub open spec fn conns_with(
    conns: Map<KeyView, ConnView>,
    key: KeyView,
    to_server: bool,
    s: SegView,
) -> Map<KeyView, ConnView> {
    let c = if conns.contains_key(key) {
        conns[key]
    } else {
        empty_conn()
    };
    conns.insert(key, conn_with(c, to_server, s))
}

/// A connection with its transcripts.
#[derive(Debug, Clone, PartialEq, Eq)]
pub struct ReassembledConn {
    pub layer: Layer,
    pub client_ip: String,
    pub client_port: u16,
    pub server_port: u16,
    /// From the client to the server.
    pub c2s: Vec<u8>,
    /// From the server to the client.
    pub s2c: Vec<u8>,
}

/// What tells a reassembled connection from others.
pub open spec fn conn_key(c: ReassembledConn) -> KeyView {
    KeyView {
        layer: c.layer,
        client_ip: c.client_ip@,
        client_port: c.client_port,
        server_port: c.server_port,
    }
}

/// The keys of a list of connections.
pub open spec fn conn_keys(v: Seq<ReassembledConn>) -> Seq<KeyView> {
    v.map_values(|c: ReassembledConn| conn_key(c))
}

/// The transcripts in both directions.
pub open spec fn conn_transcripts(c: ConnView) -> (Seq<u8>, Seq<u8>) {
    (transcript(c.c2s), transcript(c.s2c))
}

/// Collects segments by connection.
pub struct Reassembler {
    keys: Vec<FlowKey>,
    conns: Vec<Conn>,
}

impl View for Reassembler {
    type V = Map<KeyView, ConnView>;

    closed spec fn view(&self) -> Map<KeyView, ConnView> {
        keyed(key_views(self.keys@), conn_views(self.conns@))
    }
}

impl Reassembler {
    /// The keys are in ascending order, and there is a connection for each.
    pub closed spec fn wf(&self) -> bool {
        &&& ascending(key_views(self.keys@))
        &&& self.keys@.len() == self.conns@.len()
    }

    /// No connections.
    pub fn new() -> (r: Self)
        ensures
            r.wf(),
            r@ == Map::<KeyView, ConnView>::empty(),
    {
        let r = Reassembler { keys: Vec::new(), conns: Vec::new() };
        assert(r@ =~= Map::<KeyView, ConnView>::empty());
        r
    }

    /// Add a segment to its connection. One without payload is left out.
    pub fn push(
        &mut self,
        layer: Layer,
        client_ip: String,
        client_port: u16,
        server_port: u16,
        to_server: bool,
        seq: u32,
        payload: &[u8],
    )
        requires
            old(self).wf(),
        ensures
            final(self).wf(),
            final(self)@ == if payload@.len() == 0 {
                old(self)@
            } else {
                conns_with(
                    old(self)@,
                    KeyView { layer, client_ip: client_ip@, client_port, server_port },
                    to_server,
                    SegView { seq, data: payload@ },
                )
            },
    {
        if payload.len() == 0 {
            return;
        }
        let key = FlowKey { layer, client_ip, client_port, server_port };
        let ghost k = key@;
        let data: Vec<u8> = copy_range(payload, 0, payload.len());
        assert(data@ =~= payload@);
        let seg = Segment { seq, data };
        let ghost x = seg@;
        let (at, found) = locate(&self.keys, &key);
        let ghost ks = key_views(self.keys@);
        let ghost vs = conn_views(self.conns@);
        if !found {
            let fresh = Conn { c2s: Vec::new(), s2c: Vec::new() };
            assert(fresh@ =~= empty_conn());
            proof {
                lemma_keyed_insert(ks, vs, at as int, k, empty_conn());
            }
            self.keys.insert(at, key);
            self.conns.insert(at, fresh);
            assert(key_views(self.keys@) =~= ks.insert(at as int, k));
            assert(conn_views(self.conns@) =~= vs.insert(at as int, empty_conn()));
        }
        let ghost kt = key_views(self.keys@);
        let ghost vt = conn_views(self.conns@);
        assert(vt[at as int] == self.conns@[at as int]@);
        proof {
            lemma_keyed_at(kt, vt, at as int);
            lemma_keyed_update(kt, vt, at as int, conn_with(vt[at as int], to_server, x));
        }
        let ghost before = self.conns@[at as int];
        if to_server {
            self.conns[at].c2s.push(seg);
        } else {
            self.conns[at].s2c.push(seg);
        }
        proof {
            let after = self.conns@[at as int];
            if to_server {
                assert(seg_views(after.c2s@) =~= seg_views(before.c2s@).push(x));
            } else {
                assert(seg_views(after.s2c@) =~= seg_views(before.s2c@).push(x));
            }
            assert(after@ =~= conn_with(before@, to_server, x));
            assert(conn_views(self.conns@) =~= vt.update(at as int, after@));
            let c = if old(self)@.contains_key(k) {
                old(self)@[k]
            } else {
                empty_conn()
            };
            assert(c == vt[at as int]);
            assert(self@ =~= conns_with(old(self)@, k, to_server, x));
        }
    }

    /// The transcripts of all connections, in ascending order of their keys.
    pub fn finish(self) -> (r: Vec<ReassembledConn>)
        requires
            self.wf(),
        ensures
            ascending(conn_keys(r@)),
            forall|k: KeyView| #[trigger]
                self@.contains_key(k) <==> conn_keys(r@).contains(k),
            forall|i: int|
                0 <= i < r@.len() ==> self@.contains_key(conn_key(#[trigger] r@[i])) && (
                    r@[i].c2s@,
                    r@[i].s2c@,
                ) == conn_transcripts(self@[conn_key(r@[i])]),
    {
        let ghost ks = key_views(self.keys@);
        let ghost vs = conn_views(self.conns@);
        let ghost map = self@;
        let mut keys = self.keys;
        let mut conns = self.conns;
        let mut back: Vec<ReassembledConn> = Vec::new();
        let ghost n = ks.len();
        while keys.len() > 0
            invariant
                keys@.len() == conns@.len(),
                keys@.len() <= n,
                n == ks.len(),
                n == vs.len(),
                key_views(keys@) == ks.take(keys@.len() as int),
                conn_views(conns@) == vs.take(keys@.len() as int),
                back@.len() == n - keys@.len(),
                forall|i: int|
                    0 <= i < back@.len() ==> conn_key(#[trigger] back@[i]) == ks[n - 1 - i] && (
                        back@[i].c2s@,
                        back@[i].s2c@,
                    ) == conn_transcripts(vs[n - 1 - i]),
            decreases keys@.len(),
        {
            let ghost (had_keys, had_conns) = (keys@, conns@);
            let ghost so_far = back@;
            match (keys.pop(), conns.pop()) {
                (Some(key), Some(conn)) => {
                    assert(key_views(had_keys).last() == key@);
                    assert(conn_views(had_conns).last() == conn@);
                    let item = ReassembledConn {
                        layer: key.layer,
                        client_ip: key.client_ip,
                        client_port: key.client_port,
                        server_port: key.server_port,
                        c2s: assemble(conn.c2s),
                        s2c: assemble(conn.s2c),
                    };
                    back.push(item);
                    assert(key_views(keys@) =~= ks.take(keys@.len() as int));
                    assert(conn_views(conns@) =~= vs.take(keys@.len() as int));
                },
                _ => {},
            }
        }
        let mut out: Vec<ReassembledConn> = Vec::new();
        while back.len() > 0
            invariant
                back@.len() <= n,
                n == ks.len(),
                n == vs.len(),
                out@.len() == n - back@.len(),
                forall|i: int|
                    0 <= i < back@.len() ==> conn_key(#[trigger] back@[i]) == ks[n - 1 - i] && (
                        back@[i].c2s@,
                        back@[i].s2c@,
                    ) == conn_transcripts(vs[n - 1 - i]),
                forall|i: int|
                    0 <= i < out@.len() ==> conn_key(#[trigger] out@[i]) == ks[i] && (
                        out@[i].c2s@,
                        out@[i].s2c@,
                    ) == conn_transcripts(vs[i]),
            decreases back@.len(),
        {
            let ghost had = back@;
            match back.pop() {
                Some(item) => {
                    assert(conn_key(had[had.len() - 1]) == ks[n - had.len()]);
                    out.push(item);
                },
                None => {},
            }
        }
        proof {
            assert(conn_keys(out@) =~= ks);
            assert forall|k: KeyView| #[trigger] map.contains_key(k) <==> conn_keys(
                out@,
            ).contains(k) by {
                if map.contains_key(k) {
                    let i = choose|i: int| crate::slicer::flows::key_at(ks, k, i);
                    assert(conn_keys(out@)[i] == k);
                }
                if ks.contains(k) {
                    let i = choose|i: int| 0 <= i < ks.len() && ks[i] == k;
                    lemma_keyed_at(ks, vs, i);
                }
            }
            assert forall|i: int| 0 <= i < out@.len() implies map.contains_key(
                conn_key(#[trigger] out@[i]),
            ) && (out@[i].c2s@, out@[i].s2c@) == conn_transcripts(map[conn_key(out@[i])]) by {
                lemma_keyed_at(ks, vs, i);
            }
        }
        out
    }
}

} // verus!
