//! Reassembly of frames from shards.
use vstd::prelude::*;

use crate::bytes::{copy_range, le16_at, push_slice, read_le16};
use crate::video::fec::{
    contents, data_complete, encoded_shard, law_any_data_shards_suffice,
    law_recovery_restores_data, lemma_survivors, present_count, recover, recoverable, recovered,
    survivors,
};
use crate::video::rtp::{
    header_of, parse_header, VideoHeader, FLAG_PIC_DATA, PAYLOAD_OFFSET, SHORT_FRAME_HEADER_LEN,
};
use crate::video::{AccessUnit, Codec, UnitView};

verus! {

/// The frame type of a keyframe.
pub const FRAME_TYPE_IDR: u8 = 2;

/// What a [`Depacketizer`] knows of the frame that it is assembling.
#[verifier::ext_equal]
pub struct FrameState {
    pub codec: Codec,
    /// The frame, which is the newest that has begun.
    pub frame_index: Option<u32>,
    /// Number of data shards.
    pub data: nat,
    /// Number of parity shards.
    pub parity: nat,
    /// Payloads of the shards received, data shards first.
    pub shards: Seq<Option<Seq<u8>>>,
    /// Whether the frame has been handed out.
    pub emitted: bool,
}

impl FrameState {
    /// There is one slot for each shard.
    pub open spec fn valid(self) -> bool {
        self.shards.len() == self.data + self.parity
    }
}

/// The number of parity shards that a percentage of the data shards comes to, rounded up.
pub open spec fn parity_count(data: nat, percentage: nat) -> nat {
    (data * percentage + 99) / 100
}

/// Whether a host protects that many data shards at that percentage with `parity` parity shards: with
/// the least number that comes to at least the percentage.
pub open spec fn is_parity_count(data: nat, percentage: nat, parity: nat) -> bool {
    data * percentage <= 100 * parity < data * percentage + 100
}

/// The number of parity shards that is reckoned with is that of the host, and no other is.
pub proof fn law_parity_count(data: nat, percentage: nat, parity: nat)
    ensures
        is_parity_count(data, percentage, parity) <==> parity == parity_count(data, percentage),
{
}

/// Whether a datagram carries a shard of a frame.
pub open spec fn carries_shard(pkt: Seq<u8>) -> bool {
    &&& pkt.len() >= PAYLOAD_OFFSET
    &&& header_of(pkt).flags & FLAG_PIC_DATA != 0
    &&& header_of(pkt).data_shards != 0
}

/// The distance from the frame index `b` up to `a`. Frame indices wrap around.
pub open spec fn ahead(a: u32, b: u32) -> int {
    if a >= b {
        a - b
    } else {
        a - b + 0x1_0000_0000
    }
}

/// Whether frame `a` comes before frame `b`: the indices wrap around, so the shorter way counts.
pub open spec fn comes_before(a: u32, b: u32) -> bool {
    ahead(a, b) >= 0x8000_0000
}

/// Whether a shard of the frame `index` comes too late: a newer frame has begun.
pub open spec fn is_late(s: FrameState, index: u32) -> bool {
    s.frame_index matches Some(newest) && comes_before(index, newest)
}

/// The state for the frame that `h` belongs to: a shard of another frame starts afresh.
pub open spec fn turned_to(s: FrameState, h: VideoHeader) -> FrameState {
    if s.frame_index == Some(h.frame_index) {
        s
    } else {
        let parity = parity_count(h.data_shards as nat, h.fec_percentage as nat);
        FrameState {
            codec: s.codec,
            frame_index: Some(h.frame_index),
            data: h.data_shards as nat,
            parity,
            shards: Seq::new(h.data_shards as nat + parity, |i: int| None),
            emitted: false,
        }
    }
}

/// The state with `payload` in slot `index`, if there is such a slot and it is empty.
pub open spec fn slotted(s: FrameState, index: int, payload: Seq<u8>) -> FrameState {
    if index < s.shards.len() && s.shards[index] is None {
        FrameState { shards: s.shards.update(index, Some(payload)), ..s }
    } else {
        s
    }
}

/// The first `n` shards, one after the other.
pub open spec fn joined(shards: Seq<Option<Seq<u8>>>, n: nat) -> Seq<u8>
    decreases n,
{
    if n == 0 {
        Seq::empty()
    } else {
        joined(shards, (n - 1) as nat) + shards[n - 1]->0
    }
}

/// The part of the last data shard that belongs to the frame: the frame header gives its length.
pub open spec fn last_payload(shards: Seq<Option<Seq<u8>>>, data: nat) -> Seq<u8> {
    let first = shards[0]->0;
    let last = shards[data - 1]->0;
    if first.len() >= 6 && le16_at(first, 4) < last.len() {
        last.take(le16_at(first, 4) as int)
    } else {
        last
    }
}

/// The coded data of a frame whose data shards are complete: the data shards without the padding
/// of the last and without the frame header.
pub open spec fn frame_bytes(shards: Seq<Option<Seq<u8>>>, data: nat) -> Seq<u8> {
    let all = joined(shards, (data - 1) as nat) + last_payload(shards, data);
    if all.len() >= SHORT_FRAME_HEADER_LEN {
        all.skip(SHORT_FRAME_HEADER_LEN as int)
    } else {
        all
    }
}

/// Whether the frame header at the start of the first shard tells of a keyframe.
pub open spec fn tells_keyframe(shards: Seq<Option<Seq<u8>>>) -> bool {
    shards[0]->0.len() > 3 && shards[0]->0[3] == FRAME_TYPE_IDR
}

/// The access unit of a frame whose data shards are complete.
pub open spec fn unit_of(s: FrameState) -> UnitView {
    UnitView {
        codec: s.codec,
        frame_index: s.frame_index->0,
        is_keyframe: tells_keyframe(s.shards),
        data: frame_bytes(s.shards, s.data),
    }
}

/// The state after a datagram, and the frame that it completes.
///
/// A datagram that carries no shard changes nothing, nor does a shard that comes too late. Any
/// other shard is put into its slot unless its frame has been handed out; the frame is handed out
/// as soon as its data shards can be told.
pub open spec fn after_push(s: FrameState, pkt: Seq<u8>) -> (FrameState, Option<UnitView>) {
    if !carries_shard(pkt) || is_late(s, header_of(pkt).frame_index) {
        (s, None)
    } else {
        let h = header_of(pkt);
        let t = turned_to(s, h);
        if t.emitted {
            (t, None)
        } else {
            let u = slotted(t, h.shard_index as int, pkt.skip(PAYLOAD_OFFSET as int));
            if recoverable(u.data, u.parity, u.shards) {
                let done = FrameState {
                    shards: recovered(u.data, u.parity, u.shards),
                    emitted: true,
                    ..u
                };
                (done, Some(unit_of(done)))
            } else {
                (u, None)
            }
        }
    }
}

/// A shard that comes too late changes nothing and yields nothing.
pub proof fn law_late_shard_ignored(s: FrameState, newest: u32, late: Seq<u8>)
    requires
        s.frame_index == Some(newest),
        carries_shard(late),
        comes_before(header_of(late).frame_index, newest),
    ensures
        after_push(s, late) == (s, None::<UnitView>),
{
}

/// Once a frame has been handed out, a further shard of it changes nothing and yields nothing.
pub proof fn law_trailing_shard_ignored(s: FrameState, pkt: Seq<u8>, trailing: Seq<u8>)
    requires
        after_push(s, pkt).1 is Some,
        carries_shard(trailing),
        header_of(trailing).frame_index == header_of(pkt).frame_index,
    ensures
        after_push(after_push(s, pkt).0, trailing) == (after_push(s, pkt).0, None::<UnitView>),
{
}

/// A shard that was already received changes nothing and completes nothing.
pub proof fn law_duplicate_ignored(s: FrameState, pkt: Seq<u8>)
    requires
        s.valid(),
        carries_shard(pkt),
        after_push(s, pkt).1 is None,
        header_of(pkt).shard_index < after_push(s, pkt).0.shards.len(),
    ensures
        after_push(after_push(s, pkt).0, pkt) == (after_push(s, pkt).0, None::<UnitView>),
{
}

/// A frame of at most 256 shards is handed out exactly when as many of its shards have arrived
/// as it has data shards, in whatever order and mix of data and parity, before a newer frame
/// began.
pub proof fn law_frame_completes(s: FrameState, pkt: Seq<u8>)
    requires
        s.valid(),
        carries_shard(pkt),
        turned_to(s, header_of(pkt)).shards.len() <= 256,
    ensures
        ({
            let t = turned_to(s, header_of(pkt));
            let u = slotted(
                t,
                header_of(pkt).shard_index as int,
                pkt.skip(PAYLOAD_OFFSET as int),
            );
            after_push(s, pkt).1 is Some <==> !is_late(s, header_of(pkt).frame_index)
                && !t.emitted && present_count(u.shards) >= t.data
        }),
{
    let t = turned_to(s, header_of(pkt));
    let u = slotted(t, header_of(pkt).shard_index as int, pkt.skip(PAYLOAD_OFFSET as int));
    law_any_data_shards_suffice(u.data, u.parity, u.shards);
}

/// A frame that lost shards is handed out with the same bytes as one that lost none: if every
/// shard received is the one that encoding the data shards `d` yields, the unit is that of `d`.
pub proof fn law_lossy_frame_matches_lossless(
    s: FrameState,
    pkt: Seq<u8>,
    d: Seq<Seq<u8>>,
    len: nat,
)
    requires
        s.valid(),
        after_push(s, pkt).1 is Some,
        d.len() == turned_to(s, header_of(pkt)).data,
        d.len() > 0,
        forall|i: int| 0 <= i < d.len() ==> (#[trigger] d[i]).len() == len,
        ({
            let t = turned_to(s, header_of(pkt));
            let u = slotted(
                t,
                header_of(pkt).shard_index as int,
                pkt.skip(PAYLOAD_OFFSET as int),
            );
            forall|i: int|
                0 <= i < u.shards.len() && #[trigger] u.shards[i] is Some ==> u.shards[i]->0
                    == encoded_shard(d, u.parity, len, i)
        }),
    ensures
        after_push(s, pkt).1->0 == (UnitView {
            codec: s.codec,
            frame_index: header_of(pkt).frame_index,
            is_keyframe: tells_keyframe(d.map_values(|x: Seq<u8>| Some(x))),
            data: frame_bytes(d.map_values(|x: Seq<u8>| Some(x)), d.len()),
        }),
{
    let t = turned_to(s, header_of(pkt));
    let u = slotted(t, header_of(pkt).shard_index as int, pkt.skip(PAYLOAD_OFFSET as int));
    law_recovery_restores_data(d, u.parity, len, u.shards);
    let whole = d.map_values(|x: Seq<u8>| Some(x));
    let after = recovered(u.data, u.parity, u.shards);
    assert forall|i: int| 0 <= i < d.len() implies after[i] == whole[i] by {
        assert(after[i] == Some(d[i]));
    }
    lemma_joined_same(after, whole, (d.len() - 1) as nat);
}

/// The state after the first `n` datagrams, and the units that they complete.
pub open spec fn after_pushes(s: FrameState, pkts: Seq<Seq<u8>>, n: nat) -> (
    FrameState,
    Seq<UnitView>,
)
    decreases n,
{
    if n == 0 {
        (s, Seq::empty())
    } else {
        let before = after_pushes(s, pkts, (n - 1) as nat);
        let (state, unit) = after_push(before.0, pkts[n - 1]);
        (
            state,
            match unit {
                Some(u) => before.1.push(u),
                None => before.1,
            },
        )
    }
}

/// Whether shard `index` is among the first `n` datagrams.
pub open spec fn has_arrived(pkts: Seq<Seq<u8>>, n: nat, index: int) -> bool {
    exists|j: int| 0 <= j < n && header_of(#[trigger] pkts[j]).shard_index == index
}

/// The number of different shards among the first `n` datagrams.
pub open spec fn distinct_shards(pkts: Seq<Seq<u8>>, n: nat) -> nat
    decreases n,
{
    if n == 0 {
        0
    } else {
        let m = (n - 1) as nat;
        distinct_shards(pkts, m) + if has_arrived(
            pkts,
            m,
            header_of(pkts[n - 1]).shard_index as int,
        ) {
            0nat
        } else {
            1nat
        }
    }
}

/// Whether a datagram carries a shard of the frame `frame`, whose data shards are `d` and which has
/// `parity` parity shards.
pub open spec fn carries_part(
    pkt: Seq<u8>,
    frame: u32,
    d: Seq<Seq<u8>>,
    percentage: u8,
    parity: nat,
    len: nat,
) -> bool {
    let h = header_of(pkt);
    &&& carries_shard(pkt)
    &&& h.frame_index == frame
    &&& h.data_shards == d.len()
    &&& h.fec_percentage == percentage
    &&& h.shard_index < d.len() + parity
    &&& pkt.skip(PAYLOAD_OFFSET as int) == encoded_shard(d, parity, len, h.shard_index as int)
}

/// The unit of a frame whose data shards are `d`.
pub open spec fn lossless_unit(codec: Codec, frame: u32, d: Seq<Seq<u8>>) -> UnitView {
    let whole = d.map_values(|x: Seq<u8>| Some(x));
    UnitView {
        codec,
        frame_index: frame,
        is_keyframe: tells_keyframe(whole),
        data: frame_bytes(whole, d.len()),
    }
}

/// Whether the frame `frame` is newer than every frame that has begun.
pub open spec fn is_new(s: FrameState, frame: u32) -> bool {
    s.frame_index != Some(frame) && !is_late(s, frame)
}

/// A frame survives loss, reordering and repetition: of whichever datagrams of it arrive, in
/// whatever order and however often, exactly one unit comes, that of the lossless frame, if they
/// carry as many different shards as it has data shards; and none if they carry fewer.
pub proof fn law_frame_survives_loss(
    s: FrameState,
    pkts: Seq<Seq<u8>>,
    frame: u32,
    d: Seq<Seq<u8>>,
    percentage: u8,
    parity: nat,
    len: nat,
)
    requires
        s.valid(),
        is_new(s, frame),
        d.len() > 0,
        forall|i: int| 0 <= i < d.len() ==> (#[trigger] d[i]).len() == len,
        is_parity_count(d.len(), percentage as nat, parity),
        d.len() + parity <= 256,
        forall|i: int|
            0 <= i < pkts.len() ==> carries_part(
                #[trigger] pkts[i],
                frame,
                d,
                percentage,
                parity,
                len,
            ),
    ensures
        after_pushes(s, pkts, pkts.len()).1 == if distinct_shards(pkts, pkts.len()) >= d.len() {
            seq![lossless_unit(s.codec, frame, d)]
        } else {
            Seq::empty()
        },
{
    lemma_pushes(s, pkts, frame, d, percentage, parity, len, pkts.len());
}

/// A frame is handed out at most once, and frames come out in the order of their indices, whatever
/// arrives in whatever order and however often. The indices of the shards that arrive are to lie
/// in one half of their range, from `base` on: farther apart they cannot be told to be earlier or
/// later.
pub proof fn law_frame_emitted_once(s: FrameState, pkts: Seq<Seq<u8>>, base: u32, i: int, j: int)
    requires
        in_half_range(pkts, base),
        0 <= i < j < after_pushes(s, pkts, pkts.len()).1.len(),
    ensures
        ({
            let units = after_pushes(s, pkts, pkts.len()).1;
            &&& ahead(units[i].frame_index, base) < ahead(units[j].frame_index, base)
            &&& units[i].frame_index != units[j].frame_index
        }),
{
    lemma_units_ascend(s, pkts, base, pkts.len());
}

/// Whether the frame indices of the shards among `pkts` lie in one half of their range, from `base`
/// on.
pub open spec fn in_half_range(pkts: Seq<Seq<u8>>, base: u32) -> bool {
    forall|k: int|
        0 <= k < pkts.len() && carries_shard(#[trigger] pkts[k]) ==> ahead(
            header_of(pkts[k]).frame_index,
            base,
        ) < 0x8000_0000
}

/// The units that the first `n` datagrams complete are in the order of their indices, and none of
/// them is newer than the frame that is being assembled.
proof fn lemma_units_ascend(s: FrameState, pkts: Seq<Seq<u8>>, base: u32, n: nat)
    requires
        n <= pkts.len(),
        in_half_range(pkts, base),
    ensures
        ({
            let (t, units) = after_pushes(s, pkts, n);
            &&& forall|i: int, j: int|
                0 <= i < j < units.len() ==> ahead(#[trigger] units[i].frame_index, base) < ahead(
                    #[trigger] units[j].frame_index,
                    base,
                )
            &&& units.len() > 0 ==> {
                &&& t.frame_index is Some
                &&& ahead(t.frame_index->0, base) < 0x8000_0000
                &&& ahead(units.last().frame_index, base) <= ahead(t.frame_index->0, base)
                &&& units.last().frame_index == t.frame_index->0 ==> t.emitted
            }
        }),
    decreases n,
{
    if n > 0 {
        let m = (n - 1) as nat;
        lemma_units_ascend(s, pkts, base, m);
        let (b, units) = after_pushes(s, pkts, m);
        let pkt = pkts[n - 1];
        let index = header_of(pkt).frame_index;
        lemma_step(b, pkt);
        if carries_shard(pkt) && units.len() > 0 {
            lemma_order(index, b.frame_index->0, base);
            lemma_order(units.last().frame_index, index, base);
        }
    }
}

/// What a datagram does to the frame that is being assembled.
proof fn lemma_step(s: FrameState, pkt: Seq<u8>)
    ensures
        ({
            let index = header_of(pkt).frame_index;
            let (t, unit) = after_push(s, pkt);
            if !carries_shard(pkt) || is_late(s, index) {
                t == s && unit is None
            } else {
                &&& t.frame_index == Some(index)
                &&& unit matches Some(u) ==> u.frame_index == index && t.emitted
                &&& s.frame_index == Some(index) && s.emitted ==> t.emitted && unit is None
            }
        }),
{
}

/// How frame indices in one half of their range compare.
proof fn lemma_order(a: u32, b: u32, base: u32)
    ensures
        ahead(a, base) == ahead(b, base) <==> a == b,
        ahead(a, base) < 0x8000_0000 && ahead(b, base) < 0x8000_0000 ==> (comes_before(a, b)
            <==> ahead(a, base) < ahead(b, base)),
{
}

/// What the first `n` datagrams of a frame lead to.
#[verifier::spinoff_prover]
#[verifier::rlimit(40)]
proof fn lemma_pushes(
    s: FrameState,
    pkts: Seq<Seq<u8>>,
    frame: u32,
    d: Seq<Seq<u8>>,
    percentage: u8,
    parity: nat,
    len: nat,
    n: nat,
)
    requires
        n <= pkts.len(),
        s.valid(),
        is_new(s, frame),
        d.len() > 0,
        forall|i: int| 0 <= i < d.len() ==> (#[trigger] d[i]).len() == len,
        is_parity_count(d.len(), percentage as nat, parity),
        d.len() + parity <= 256,
        forall|i: int|
            0 <= i < pkts.len() ==> carries_part(
                #[trigger] pkts[i],
                frame,
                d,
                percentage,
                parity,
                len,
            ),
    ensures
        ({
            let (t, units) = after_pushes(s, pkts, n);
            if n == 0 {
                t == s && units.len() == 0
            } else {
                &&& t.codec == s.codec
                &&& t.frame_index == Some(frame)
                &&& t.data == d.len()
                &&& t.parity == parity
                &&& t.shards.len() == d.len() + parity
                &&& t.emitted == (distinct_shards(pkts, n) >= d.len())
                &&& units == if t.emitted {
                    seq![lossless_unit(s.codec, frame, d)]
                } else {
                    Seq::empty()
                }
                &&& !t.emitted ==> holds_arrived(t.shards, pkts, n, d, len)
            }
        }),
    decreases n,
{
    if n > 0 {
        let m = (n - 1) as nat;
        lemma_pushes(s, pkts, frame, d, percentage, parity, len, m);
        let (b, units) = after_pushes(s, pkts, m);
        let pkt = pkts[n - 1];
        let h = header_of(pkt);
        let index = h.shard_index as int;
        assert(carries_part(pkt, frame, d, percentage, parity, len));
        law_parity_count(d.len(), percentage as nat, parity);
        let t = turned_to(b, h);
        assert(!is_late(b, frame));
        if m == 0 {
            assert(holds_arrived(t.shards, pkts, 0, d, len)) by {
                lemma_survivors_none(t.shards, t.shards.len());
            }
        }
        assert(t.valid());
        if !t.emitted {
            let u = slotted(t, index, pkt.skip(PAYLOAD_OFFSET as int));
            lemma_slot(t.shards, pkts, n, d, len);
            assert(holds_arrived(u.shards, pkts, n, d, len));
            assert(b.valid());
            law_frame_completes(b, pkt);
            if after_push(b, pkt).1 is Some {
                law_lossy_frame_matches_lossless(b, pkt, d, len);
                assert(units.push(lossless_unit(s.codec, frame, d)) =~= seq![
                    lossless_unit(s.codec, frame, d),
                ]);
                assert(recovered(u.data, u.parity, u.shards).len() == u.shards.len()) by {
                    law_recovery_restores_data(d, parity, len, u.shards);
                }
            }
        }
    }
}

/// Whether the slots hold the shards that have arrived, and no others.
spec fn holds_arrived(
    shards: Seq<Option<Seq<u8>>>,
    pkts: Seq<Seq<u8>>,
    n: nat,
    d: Seq<Seq<u8>>,
    len: nat,
) -> bool {
    &&& present_count(shards) == distinct_shards(pkts, n)
    &&& forall|i: int|
        0 <= i < shards.len() ==> (#[trigger] shards[i] is Some <==> has_arrived(pkts, n, i))
    &&& forall|i: int|
        0 <= i < shards.len() && #[trigger] shards[i] is Some ==> shards[i]->0 == encoded_shard(
            d,
            (shards.len() - d.len()) as nat,
            len,
            i,
        )
}

/// One more shard in its slot.
proof fn lemma_slot(
    shards: Seq<Option<Seq<u8>>>,
    pkts: Seq<Seq<u8>>,
    n: nat,
    d: Seq<Seq<u8>>,
    len: nat,
)
    requires
        0 < n <= pkts.len(),
        shards.len() >= d.len(),
        holds_arrived(shards, pkts, (n - 1) as nat, d, len),
        header_of(pkts[n - 1]).shard_index < shards.len(),
        pkts[n - 1].skip(PAYLOAD_OFFSET as int) == encoded_shard(
            d,
            (shards.len() - d.len()) as nat,
            len,
            header_of(pkts[n - 1]).shard_index as int,
        ),
    ensures
        ({
            let index = header_of(pkts[n - 1]).shard_index as int;
            let payload = pkts[n - 1].skip(PAYLOAD_OFFSET as int);
            holds_arrived(
                if shards[index] is None {
                    shards.update(index, Some(payload))
                } else {
                    shards
                },
                pkts,
                n,
                d,
                len,
            )
        }),
{
    let m = (n - 1) as nat;
    let index = header_of(pkts[n - 1]).shard_index as int;
    let payload = pkts[n - 1].skip(PAYLOAD_OFFSET as int);
    let after = if shards[index] is None {
        shards.update(index, Some(payload))
    } else {
        shards
    };
    assert(shards[index] is Some <==> has_arrived(pkts, m, index));
    if shards[index] is None {
        lemma_survivors_update(shards, index, payload, shards.len());
    }
    assert forall|i: int| 0 <= i < after.len() implies (#[trigger] after[i] is Some
        <==> has_arrived(pkts, n, i)) by {
        assert(shards[i] is Some <==> has_arrived(pkts, m, i));
        if has_arrived(pkts, m, i) {
            let j = choose|j: int|
                0 <= j < m && header_of(#[trigger] pkts[j]).shard_index == i;
            assert(0 <= j < n && header_of(pkts[j]).shard_index == i);
        }
        if i == index {
            assert(header_of(pkts[n - 1]).shard_index == i);
        }
        if has_arrived(pkts, n, i) {
            let j = choose|j: int|
                0 <= j < n && header_of(#[trigger] pkts[j]).shard_index == i;
            if j < m {
                assert(has_arrived(pkts, m, i));
            }
        }
    }
    assert forall|i: int| 0 <= i < after.len() && #[trigger] after[i] is Some implies after[i]->0
        == encoded_shard(d, (after.len() - d.len()) as nat, len, i) by {
        if i != index {
            assert(shards[i] is Some);
        } else if shards[index] is Some {
            assert(shards[i] is Some);
        }
    }
}

/// Only the first `n` shards count.
proof fn lemma_joined_same(a: Seq<Option<Seq<u8>>>, b: Seq<Option<Seq<u8>>>, n: nat)
    requires
        forall|i: int| 0 <= i < n ==> a[i] == b[i],
    ensures
        joined(a, n) == joined(b, n),
    decreases n,
{
    if n > 0 {
        lemma_joined_same(a, b, (n - 1) as nat);
    }
}

/// Filling an empty slot adds one survivor from that slot on.
proof fn lemma_survivors_update(s: Seq<Option<Seq<u8>>>, index: int, payload: Seq<u8>, n: nat)
    requires
        0 <= index < s.len(),
        n <= s.len(),
        s[index] is None,
    ensures
        survivors(s.update(index, Some(payload)), n).len() == survivors(s, n).len() + if index < n {
            1nat
        } else {
            0nat
        },
    decreases n,
{
    if n > 0 {
        lemma_survivors_update(s, index, payload, (n - 1) as nat);
    }
}

/// As many survivors as slots means that every slot is filled.
proof fn lemma_survivors_all(s: Seq<Option<Seq<u8>>>, n: nat)
    requires
        n <= s.len(),
    ensures
        survivors(s, n).len() == n <==> data_complete(s, n),
    decreases n,
{
    if n > 0 {
        lemma_survivors_all(s, (n - 1) as nat);
        lemma_survivors(s, (n - 1) as nat);
        if data_complete(s, n) {
            assert(s[n - 1] is Some);
            assert(data_complete(s, (n - 1) as nat));
        } else if s[n - 1] is Some {
            assert(!data_complete(s, (n - 1) as nat));
        }
    }
}

/// No survivors among empty slots.
proof fn lemma_survivors_none(s: Seq<Option<Seq<u8>>>, n: nat)
    requires
        n <= s.len(),
        forall|i: int| 0 <= i < s.len() ==> #[trigger] s[i] is None,
    ensures
        survivors(s, n).len() == 0,
    decreases n,
{
    if n > 0 {
        lemma_survivors_none(s, (n - 1) as nat);
    }
}

/// The survivors below `m` are among those below `n`.
proof fn lemma_survivors_grow(s: Seq<Option<Seq<u8>>>, m: nat, n: nat)
    requires
        m <= n <= s.len(),
    ensures
        survivors(s, m).len() <= survivors(s, n).len(),
    decreases n,
{
    if m < n {
        lemma_survivors_grow(s, m, (n - 1) as nat);
    }
}

/// Assembles frames from the datagrams of a video stream.
///
/// It holds the shards of one frame at a time, the newest that has begun, in one block. Every
/// datagram received is pushed; a frame comes out as soon as its data shards are present or can be
/// recovered.
pub struct Depacketizer {
    codec: Codec,
    frame_index: Option<u32>,
    data_shards: usize,
    parity_shards: usize,
    shards: Vec<Option<Vec<u8>>>,
    received: usize,
    received_data: usize,
    emitted: bool,
}

impl View for Depacketizer {
    type V = FrameState;

    closed spec fn view(&self) -> FrameState {
        FrameState {
            codec: self.codec,
            frame_index: self.frame_index,
            data: self.data_shards as nat,
            parity: self.parity_shards as nat,
            shards: contents(self.shards@),
            emitted: self.emitted,
        }
    }
}

impl Depacketizer {
    /// The counters agree with the shards.
    pub closed spec fn wf(&self) -> bool {
        &&& self.shards@.len() == self.data_shards + self.parity_shards
        &&& self.data_shards <= 0xffff
        &&& self.parity_shards <= 0xff_ffff
        &&& self.frame_index is Some ==> self.data_shards > 0
        &&& !self.emitted ==> {
            &&& self.received == present_count(contents(self.shards@))
            &&& self.received_data == survivors(
                contents(self.shards@),
                self.data_shards as nat,
            ).len()
        }
    }

    /// The state of a well-formed depacketizer has one slot for each shard.
    pub proof fn lemma_valid(&self)
        requires
            self.wf(),
        ensures
            self@.valid(),
    {
    }

    /// A depacketizer that has seen no frame.
    pub fn new(codec: Codec) -> (r: Self)
        ensures
            r.wf(),
            r@ == (FrameState {
                codec,
                frame_index: None,
                data: 0,
                parity: 0,
                shards: Seq::empty(),
                emitted: false,
            }),
    {
        let r = Depacketizer {
            codec,
            frame_index: None,
            data_shards: 0,
            parity_shards: 0,
            shards: Vec::new(),
            received: 0,
            received_data: 0,
            emitted: false,
        };
        assert(contents(r.shards@) =~= Seq::empty());
        r
    }

    fn reset_for(&mut self, frame_index: u32, data_shards: usize, parity_shards: usize)
        requires
            0 < data_shards <= 0xffff,
            parity_shards <= 0xff_ffff,
        ensures
            final(self).wf(),
            final(self)@ == (FrameState {
                codec: old(self)@.codec,
                frame_index: Some(frame_index),
                data: data_shards as nat,
                parity: parity_shards as nat,
                shards: Seq::new(data_shards as nat + parity_shards as nat, |i: int| None),
                emitted: false,
            }),
    {
        self.frame_index = Some(frame_index);
        self.data_shards = data_shards;
        self.parity_shards = parity_shards;
        let total: usize = data_shards + parity_shards;
        let mut slots: Vec<Option<Vec<u8>>> = Vec::with_capacity(total);
        while slots.len() < total
            invariant
                slots.len() <= total,
                forall|i: int| 0 <= i < slots.len() ==> #[trigger] slots@[i] is None,
            decreases total - slots.len(),
        {
            slots.push(None);
        }
        self.shards = slots;
        self.received = 0;
        self.received_data = 0;
        self.emitted = false;
        proof {
            let s = contents(self.shards@);
            assert(s =~= Seq::new(data_shards as nat + parity_shards as nat, |i: int| None));
            lemma_survivors_none(s, s.len());
            lemma_survivors_none(s, data_shards as nat);
        }
    }

    /// Feed one datagram; a frame that it completes is returned. Shards that come too late or
    /// again, shards of a frame that was returned and other datagrams yield nothing.
    pub fn push(&mut self, pkt: &[u8]) -> (r: Option<AccessUnit>)
        requires
            old(self).wf(),
        ensures
            final(self).wf(),
            final(self)@ == after_push(old(self)@, pkt@).0,
            r is Some <==> after_push(old(self)@, pkt@).1 is Some,
            r matches Some(unit) ==> unit@ == after_push(old(self)@, pkt@).1->0,
    {
        let h = match parse_header(pkt) {
            Some(h) => h,
            None => {
                return None;
            },
        };
        if h.flags & FLAG_PIC_DATA == 0 || h.data_shards == 0 {
            return None;
        }
        if let Some(newest) = self.frame_index {
            if h.frame_index.wrapping_sub(newest) >= 0x8000_0000 {
                return None;
            }
        }
        let same_frame = match self.frame_index {
            Some(i) => i == h.frame_index,
            None => false,
        };
        if !same_frame {
            let data: usize = h.data_shards as usize;
            let pct: usize = h.fec_percentage as usize;
            assert(data * pct <= 0xffff * 0xff) by (nonlinear_arith)
                requires
                    data <= 0xffff,
                    pct <= 0xff,
            ;
            let parity: usize = (data * pct + 99) / 100;
            self.reset_for(h.frame_index, data, parity);
        }
        if self.emitted {
            return None;
        }
        let ghost t = self@;
        assert(t == turned_to(old(self)@, h));
        let slot: usize = h.shard_index as usize;
        if slot < self.shards.len() && self.shards[slot].is_none() {
            let payload: Vec<u8> = copy_range(pkt, PAYLOAD_OFFSET, pkt.len());
            proof {
                let s = contents(self.shards@);
                assert(payload@ =~= pkt@.skip(PAYLOAD_OFFSET as int));
                assert(s[slot as int] is None);
                lemma_survivors_update(s, slot as int, payload@, s.len());
                lemma_survivors_update(s, slot as int, payload@, self.data_shards as nat);
                lemma_survivors(s, s.len());
                lemma_survivors(s, self.data_shards as nat);
            }
            let ghost before = contents(self.shards@);
            let ghost bytes = payload@;
            self.shards[slot] = Some(payload);
            assert(contents(self.shards@) =~= before.update(slot as int, Some(bytes)));
            self.received += 1;
            if slot < self.data_shards {
                self.received_data += 1;
            }
        } else {
            assert(slot < self.shards.len() ==> contents(self.shards@)[slot as int] is Some);
        }
        let ghost u = self@;
        assert(u =~= slotted(t, h.shard_index as int, pkt@.skip(PAYLOAD_OFFSET as int)));
        if self.received >= self.data_shards {
            return self.finalize();
        }
        None
    }

    /// Hand out the frame if its data shards can be told.
    fn finalize(&mut self) -> (r: Option<AccessUnit>)
        requires
            old(self).wf(),
            !old(self)@.emitted,
            old(self)@.frame_index is Some,
        ensures
            final(self).wf(),
            ({
                let u = old(self)@;
                let done = FrameState {
                    shards: recovered(u.data, u.parity, u.shards),
                    emitted: true,
                    ..u
                };
                if recoverable(u.data, u.parity, u.shards) {
                    &&& final(self)@ == done
                    &&& r is Some
                    &&& r->0@ == unit_of(done)
                } else {
                    &&& final(self)@ == u
                    &&& r is None
                }
            }),
    {
        let ghost u = self@;
        proof {
            lemma_survivors_all(u.shards, u.data);
            lemma_survivors(u.shards, u.data);
            lemma_survivors_grow(u.shards, u.data, u.shards.len());
        }
        if self.received_data < self.data_shards {
            let k: usize = self.data_shards;
            let m: usize = self.parity_shards;
            if !recover(k, m, &mut self.shards) {
                return None;
            }
        }
        let ghost shards = contents(self.shards@);
        assert(data_complete(shards, u.data));
        assert(shards == recovered(u.data, u.parity, u.shards));
        assert(shards[0] is Some);
        let count: usize = self.data_shards;
        let mut is_keyframe = false;
        let mut last_len: Option<usize> = None;
        if let Some(first) = &self.shards[0] {
            assert(first@ == shards[0]->0);
            is_keyframe = first.len() > 3 && first[3] == FRAME_TYPE_IDR;
            if first.len() >= 6 {
                last_len = Some(read_le16(first, 4) as usize);
            }
        }
        let mut data: Vec<u8> = Vec::new();
        let mut i: usize = 0;
        while i < count - 1
            invariant
                i < count,
                count <= self.shards@.len(),
                count == u.data,
                shards == contents(self.shards@),
                data_complete(shards, u.data),
                data@ == joined(shards, i as nat),
            decreases count - i,
        {
            assert(shards[i as int] is Some);
            if let Some(bytes) = &self.shards[i] {
                push_slice(&mut data, bytes);
            }
            i += 1;
        }
        assert(shards[count - 1] is Some);
        if let Some(bytes) = &self.shards[count - 1] {
            assert(bytes@ == shards[count - 1]->0);
            let mut keep: usize = bytes.len();
            if let Some(n) = last_len {
                if n < keep {
                    keep = n;
                }
            }
            let tail: Vec<u8> = copy_range(bytes, 0, keep);
            assert(tail@ =~= last_payload(shards, u.data));
            push_slice(&mut data, &tail);
        }
        if data.len() >= SHORT_FRAME_HEADER_LEN {
            let ghost all = data@;
            data = copy_range(&data, SHORT_FRAME_HEADER_LEN, data.len());
            assert(data@ =~= all.skip(SHORT_FRAME_HEADER_LEN as int));
        }
        self.emitted = true;
        let frame_index: u32 = match self.frame_index {
            Some(n) => n,
            None => 0,
        };
        Some(AccessUnit { codec: self.codec, frame_index, is_keyframe, data })
    }
}

/// Of two frames the earlier is the one from which the other is reached by the fewer steps, counting
/// up and past the largest index to zero; half of all steps still count as up.
pub proof fn law_comes_before(a: u32, b: u32, steps: int)
    requires
        0 <= steps < 0x1_0000_0000,
        (a + steps) % 0x1_0000_0000 == b,
    ensures
        comes_before(a, b) <==> 1 <= steps <= 0x8000_0000,
{
}

} // verus!
