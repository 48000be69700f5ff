//! What a host sends of a frame, and that the frame comes back from it.
//!
//! A host puts the coded data of a frame behind a frame header, cuts both into shards of one
//! length, adds parity shards and sends every shard in a datagram of its own.
use vstd::prelude::*;

use crate::bytes::{law_numbers, le32_at, lemma_little4, little};
use crate::video::fec::{encoded_shard, generator_row};
use crate::video::gf256::{
    gf_inv, gf_mul, lemma_inverse, lemma_inverse_unique, lemma_mul_zero_one, xtime,
};
use crate::video::matrix::{dot_first, lemma_dot_unit};
use crate::video::reassembly::{
    after_pushes, carries_part, carries_shard, distinct_shards, frame_bytes, has_arrived, is_new,
    joined, last_payload, law_frame_survives_loss, FrameState,
};
use crate::video::rtp::header_of;
use crate::video::UnitView;

verus! {

/// Whether a datagram carries `payload` as shard `index` of a frame of `data` data shards that are
/// protected at a percentage. Bytes that say nothing of that are left open.
pub open spec fn is_shard(
    pkt: Seq<u8>,
    frame: u32,
    data: nat,
    index: nat,
    percentage: u8,
    payload: Seq<u8>,
) -> bool {
    &&& pkt.len() == 32 + payload.len()
    &&& little(pkt.subrange(20, 24)) == frame
    &&& pkt[24] % 2 == 1
    &&& 0 < data < 1024
    &&& index < 1024
    &&& little(pkt.subrange(28, 32)) / 16 == data * 0x4_0000 + index * 0x100 + percentage
    &&& forall|b: int| 0 <= b < payload.len() ==> pkt[32 + b] == #[trigger] payload[b]
}

/// The fields of one number.
proof fn lemma_fields(q: u32, data: nat, index: nat, percentage: u8)
    requires
        data < 1024,
        index < 1024,
        q / 16 == data * 0x4_0000 + index * 0x100 + percentage,
    ensures
        q / 0x40_0000 == data,
        q / 0x1000 % 0x400 == index,
        q / 0x10 % 0x100 == percentage,
{
}

/// The header of a datagram is read as it was written.
#[verifier::spinoff_prover]
#[verifier::rlimit(40)]
pub proof fn law_shard_header(
    pkt: Seq<u8>,
    frame: u32,
    data: nat,
    index: nat,
    percentage: u8,
    payload: Seq<u8>,
)
    requires
        is_shard(pkt, frame, data, index, percentage, payload),
    ensures
        carries_shard(pkt),
        header_of(pkt).frame_index == frame,
        header_of(pkt).data_shards == data,
        header_of(pkt).shard_index == index,
        header_of(pkt).fec_percentage == percentage,
        pkt.skip(32) == payload,
{
    law_numbers(pkt, 20, 0, 0);
    law_numbers(pkt, 28, 0, 0);
    lemma_fields(le32_at(pkt, 28), data, index, percentage);
    let f = pkt[24];
    assert(f % 2 == 1 ==> f & 1 != 0) by (bit_vector);
    assert(pkt.skip(32) =~= payload);
}

/// The rest of the header is read as it was written, too.
pub proof fn law_stream_header(pkt: Seq<u8>)
    requires
        pkt.len() >= 32,
    ensures
        header_of(pkt).rtp_seq == 256 * pkt[2] + pkt[3],
        header_of(pkt).stream_packet_index == little(pkt.subrange(16, 20)),
        header_of(pkt).flags == pkt[24],
{
    lemma_little4(pkt.subrange(16, 20));
}

/// A datagram that is too short, has no picture flag or tells of no data shards carries no shard.
pub proof fn law_other_datagrams(pkt: Seq<u8>)
    requires
        pkt.len() < 32 || pkt[24] % 2 == 0 || little(pkt.subrange(28, 32)) < 0x40_0000,
    ensures
        !carries_shard(pkt),
{
    if pkt.len() >= 32 {
        lemma_little4(pkt.subrange(28, 32));
        let f = pkt[24];
        assert(f % 2 == 0 ==> f & 1 == 0) by (bit_vector);
    }
}

/// The double of a field element: the field is that of the polynomials over one bit, and
/// `x^8` is `x^4 + x^3 + x^2 + 1`.
pub open spec fn doubled(a: u8) -> u8 {
    if a < 128 {
        (2 * a) as u8
    } else {
        ((2 * a - 256) as u8) ^ 29
    }
}

/// The product of two field elements.
pub open spec fn times(a: u8, b: u8) -> u8
    decreases b,
{
    if b == 0 {
        0
    } else {
        (if b % 2 == 1 {
            a
        } else {
            0u8
        }) ^ times(doubled(a), b / 2)
    }
}

/// The field element whose product with `a` is one.
pub open spec fn reciprocal(a: u8) -> u8 {
    choose|c: u8| times(a, c) == 1
}

proof fn lemma_times(a: u8, b: u8)
    ensures
        times(a, b) == gf_mul(a, b),
    decreases b,
{
    if b == 0 {
        lemma_mul_zero_one(a);
    } else {
        assert(doubled(a) == xtime(a)) by {
            assert(a < 128 ==> xtime(a) == 2 * a) by (bit_vector);
            assert(a >= 128 ==> xtime(a) == ((2 * a - 256) as u8) ^ 29) by (bit_vector);
        }
        lemma_times(doubled(a), b / 2);
        reveal(gf_mul);
        assert(gf_mul(a, b) == (if b % 2 == 1 {
            a
        } else {
            0u8
        }) ^ gf_mul(xtime(a), b / 2)) by (bit_vector);
    }
}

proof fn lemma_reciprocal(a: u8)
    requires
        a != 0,
    ensures
        reciprocal(a) == gf_inv(a),
{
    lemma_inverse(a);
    lemma_times(a, gf_inv(a));
    lemma_times(a, reciprocal(a));
    lemma_inverse_unique(a, reciprocal(a));
}

/// Multiplication and division by the tables are those of the field.
pub proof fn law_field(a: u8, b: u8)
    ensures
        gf_mul(a, b) == times(a, b),
        a != 0 ==> times(a, gf_inv(a)) == 1,
{
    lemma_times(a, b);
    if a != 0 {
        lemma_inverse(a);
        lemma_times(a, gf_inv(a));
    }
}

/// The byte at `b` of parity shard `j`, as far as the first `n` data shards go: data shard `i` goes
/// in with the reciprocal of the sum of `parity + i` and `j`.
pub open spec fn parity_byte(d: Seq<Seq<u8>>, parity: nat, j: int, b: int, n: nat) -> u8
    decreases n,
{
    if n == 0 {
        0
    } else {
        parity_byte(d, parity, j, b, (n - 1) as nat) ^ times(
            reciprocal(((parity + n - 1) as u8) ^ (j as u8)),
            d[n - 1][b],
        )
    }
}

/// Shard `index` of a frame: the data shards come first, then the parity shards.
pub open spec fn host_shard(d: Seq<Seq<u8>>, parity: nat, len: nat, index: int) -> Seq<u8> {
    if index < d.len() {
        d[index]
    } else {
        Seq::new(len, |b: int| parity_byte(d, parity, index - d.len(), b, d.len()))
    }
}

proof fn lemma_parity_byte(d: Seq<Seq<u8>>, parity: nat, j: int, b: int, n: nat)
    requires
        n <= d.len(),
        d.len() + parity <= 256,
        0 <= j < parity,
    ensures
        parity_byte(d, parity, j, b, n) == dot_first(
            generator_row(d.len(), parity, d.len() + j),
            Seq::new(d.len(), |i: int| d[i][b]),
            n,
        ),
    decreases n,
{
    if n > 0 {
        let m = (n - 1) as nat;
        lemma_parity_byte(d, parity, j, b, m);
        let p = (parity + m) as usize;
        let q = j as usize;
        assert((p ^ q) as u8 == (p as u8) ^ (q as u8)) by (bit_vector);
        let (x, y) = ((parity + m) as u8, j as u8);
        assert(x != y ==> x ^ y != 0) by (bit_vector);
        let c = x ^ y;
        lemma_reciprocal(c);
        lemma_times(reciprocal(c), d[m as int][b]);
    }
}

/// The shards that are reckoned with are those of the host.
pub proof fn law_host_shards(d: Seq<Seq<u8>>, parity: nat, len: nat, index: int)
    requires
        d.len() + parity <= 256,
        0 <= index < d.len() + parity,
        forall|i: int| 0 <= i < d.len() ==> (#[trigger] d[i]).len() == len,
    ensures
        encoded_shard(d, parity, len, index) == host_shard(d, parity, len, index),
{
    let e = encoded_shard(d, parity, len, index);
    let h = host_shard(d, parity, len, index);
    assert forall|b: int| 0 <= b < len implies #[trigger] e[b] == h[b] by {
        let column = Seq::new(d.len(), |i: int| d[i][b]);
        if index < d.len() {
            lemma_dot_unit(column, d.len(), index, d.len());
        } else {
            lemma_parity_byte(d, parity, index - d.len(), b, d.len());
        }
    }
    assert(e.len() == h.len());
    assert(e =~= h);
}

/// Whether the data shards `d`, of `len` bytes each, hold coded data: it follows a frame header of
/// eight bytes, and fills `last` bytes of the last shard. The header says how many those are, in
/// two bytes of which the lower one comes first. What follows in the last shard is left open.
pub open spec fn holds(d: Seq<Seq<u8>>, len: nat, coded: Seq<u8>, last: nat) -> bool {
    &&& d.len() > 0
    &&& len >= 8
    &&& last <= len
    &&& forall|i: int| 0 <= i < d.len() ==> (#[trigger] d[i]).len() == len
    &&& (d.len() - 1) * len + last == 8 + coded.len()
    &&& d[0][4] + 256 * d[0][5] == last
    &&& forall|i: int, r: int|
        #![trigger d[i][r]]
        0 <= i < d.len() && 0 <= r < len && 8 <= i * len + r < 8 + coded.len() ==> d[i][r]
            == coded[i * len + r - 8]
}

/// Joined shards of one length.
proof fn lemma_joined(d: Seq<Seq<u8>>, len: nat, n: nat)
    requires
        n <= d.len(),
        forall|i: int| 0 <= i < d.len() ==> (#[trigger] d[i]).len() == len,
    ensures
        joined(d.map_values(|x: Seq<u8>| Some(x)), n).len() == n * len,
        forall|i: int, r: int|
            0 <= i < n && 0 <= r < len ==> joined(d.map_values(|x: Seq<u8>| Some(x)), n)[i * len
                + r] == #[trigger] d[i][r],
    decreases n,
{
    let whole = d.map_values(|x: Seq<u8>| Some(x));
    assert(0 * len == 0);
    if n > 0 {
        let m = (n - 1) as nat;
        lemma_joined(d, len, m);
        assert(whole[m as int] == Some(d[m as int]));
        assert(d[m as int].len() == len);
        assert(m * len + len == n * len) by (nonlinear_arith)
            requires
                m == n - 1,
        ;
        assert forall|i: int, r: int| 0 <= i < n && 0 <= r < len implies joined(whole, n)[i * len
            + r] == #[trigger] d[i][r] by {
            if i < m {
                assert(i * len + r < m * len) by (nonlinear_arith)
                    requires
                        0 <= i < m,
                        0 <= r < len,
                ;
                assert(0 <= i * len) by (nonlinear_arith)
                    requires
                        0 <= i,
                        0 <= len,
                ;
            }
        }
    }
}

/// Coded data that was put into shards is taken out of them again, whatever its length.
#[verifier::spinoff_prover]
#[verifier::rlimit(60)]
pub proof fn law_coded_data(d: Seq<Seq<u8>>, len: nat, coded: Seq<u8>, last: nat)
    requires
        holds(d, len, coded, last),
    ensures
        frame_bytes(d.map_values(|x: Seq<u8>| Some(x)), d.len()) == coded,
{
    let whole = d.map_values(|x: Seq<u8>| Some(x));
    let k = (d.len() - 1) as nat;
    lemma_joined(d, len, k);
    assert(whole[0] == Some(d[0]) && whole[k as int] == Some(d[k as int]));
    assert(d[0].len() == len && d[k as int].len() == len);
    let tail = last_payload(whole, d.len());
    assert(tail =~= d[k as int].take(last as int));
    let all = joined(whole, k) + tail;
    assert(all.len() == 8 + coded.len());
    assert forall|p: int| 0 <= p < coded.len() implies #[trigger] all.skip(8)[p] == coded[p] by {
        let q = p + 8;
        if q < k * len {
            let (i, r) = (q / len as int, q % len as int);
            assert(i * len + r == q && 0 <= i < k && 0 <= r < len) by (nonlinear_arith)
                requires
                    i == q / len as int,
                    r == q % len as int,
                    0 <= q < k * len,
                    len > 0,
            ;
            assert(all[q] == joined(whole, k)[i * len + r]);
            assert(d[i][r] == coded[i * len + r - 8]);
        } else {
            let r = q - k * len;
            assert(all[q] == tail[r]);
            assert(d[k as int][r] == coded[k * len + r - 8]);
        }
    }
    assert(all.skip(8) =~= coded);
}

/// Whether frame `frame` comes after frame `newest`. The indices wrap around, so it does if it is
/// ahead by less than half of their range.
pub open spec fn follows(frame: u32, newest: u32) -> bool {
    0 < (frame - newest) % 0x1_0000_0000 < 0x8000_0000
}

/// Which datagrams of a frame have arrived, by the indices of their shards.
proof fn lemma_distinct(pkts: Seq<Seq<u8>>, indices: Seq<nat>, n: nat)
    requires
        n <= pkts.len(),
        pkts.len() == indices.len(),
        forall|i: int|
            0 <= i < pkts.len() ==> header_of(#[trigger] pkts[i]).shard_index == indices[i],
    ensures
        indices.take(n as int).to_set().finite(),
        distinct_shards(pkts, n) == indices.take(n as int).to_set().len(),
    decreases n,
{
    let now = indices.take(n as int);
    now.lemma_cardinality_of_set();
    if n == 0 {
        assert(now.to_set() =~= Set::empty());
    } else {
        let m = (n - 1) as nat;
        lemma_distinct(pkts, indices, m);
        let before = indices.take(m as int);
        let x = indices[m as int];
        assert(header_of(pkts[m as int]).shard_index == x);
        assert(now.to_set() =~= before.to_set().insert(x)) by {
            assert forall|y: nat| now.to_set().contains(y) == before.to_set().insert(x).contains(
                y,
            ) by {
                if now.contains(y) {
                    let i = choose|i: int| 0 <= i < now.len() && now[i] == y;
                    if i < m {
                        assert(before[i] == y);
                    }
                }
                if before.contains(y) {
                    let i = choose|i: int| 0 <= i < before.len() && before[i] == y;
                    assert(now[i] == y);
                }
                assert(now[m as int] == x);
            }
        }
        assert(before.to_set().contains(x) <==> has_arrived(pkts, m, x as int)) by {
            if before.contains(x) {
                let i = choose|i: int| 0 <= i < before.len() && before[i] == x;
                assert(header_of(pkts[i]).shard_index == x as int);
            }
            if has_arrived(pkts, m, x as int) {
                let i = choose|i: int|
                    0 <= i < m && header_of(#[trigger] pkts[i]).shard_index == x as int;
                assert(before[i] == x);
            }
        }
    }
}

/// The coded data of a frame comes back from what a host sends of it, whichever datagrams arrive,
/// in whatever order and however often: exactly one unit comes if they carry as many different
/// shards as there are data shards, and none if they carry fewer. The frame is newer than those
/// before it and has at most 256 shards.
#[verifier::spinoff_prover]
#[verifier::rlimit(60)]
pub proof fn law_host_frame(
    s: FrameState,
    pkts: Seq<Seq<u8>>,
    indices: Seq<nat>,
    frame: u32,
    d: Seq<Seq<u8>>,
    len: nat,
    coded: Seq<u8>,
    last: nat,
    percentage: u8,
    parity: nat,
)
    requires
        s.valid(),
        s.frame_index matches Some(newest) ==> follows(frame, newest),
        holds(d, len, coded, last),
        d.len() * percentage <= 100 * parity < d.len() * percentage + 100,
        d.len() + parity <= 256,
        pkts.len() == indices.len(),
        forall|i: int|
            0 <= i < pkts.len() ==> indices[i] < d.len() + parity && is_shard(
                #[trigger] pkts[i],
                frame,
                d.len(),
                indices[i],
                percentage,
                host_shard(d, parity, len, indices[i] as int),
            ),
    ensures
        after_pushes(s, pkts, pkts.len()).1 == if indices.to_set().len() >= d.len() {
            seq![
                UnitView {
                    codec: s.codec,
                    frame_index: frame,
                    is_keyframe: d[0][3] == 2,
                    data: coded,
                },
            ]
        } else {
            Seq::empty()
        },
{
    assert forall|i: int| 0 <= i < pkts.len() implies carries_part(
        #[trigger] pkts[i],
        frame,
        d,
        percentage,
        parity,
        len,
    ) && header_of(pkts[i]).shard_index == indices[i] by {
        let payload = host_shard(d, parity, len, indices[i] as int);
        assert(is_shard(pkts[i], frame, d.len(), indices[i], percentage, payload));
        law_host_shards(d, parity, len, indices[i] as int);
        law_shard_header(pkts[i], frame, d.len(), indices[i], percentage, payload);
    }
    assert(is_new(s, frame));
    law_frame_survives_loss(s, pkts, frame, d, percentage, parity, len);
    law_coded_data(d, len, coded, last);
    lemma_distinct(pkts, indices, pkts.len());
    assert(indices.take(pkts.len() as int) =~= indices);
    let whole = d.map_values(|x: Seq<u8>| Some(x));
    assert(whole[0] == Some(d[0]));
    assert(d[0].len() == len);
}

} // verus!
