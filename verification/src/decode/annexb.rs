//! NAL units of an Annex-B byte stream, and the length-prefixed form that decoders take.
use vstd::prelude::*;
use vstd::slice::slice_subrange;

use crate::bytes::{be32_at, be32_bytes, big, copy_range, law_numbers, law_read_of_write, push_be32, push_slice};

verus! {

/// A NAL unit without its start code.
#[derive(Debug, Clone, PartialEq, Eq)]
pub struct Nal<'a> {
    pub nal_type: u8,
    /// The bytes of the unit, its header first.
    pub bytes: &'a [u8],
}

/// The codecs whose units are told apart.
#[derive(Debug, Clone, Copy, PartialEq, Eq, Structural)]
pub enum NalCodec {
    H264,
    Hevc,
}

/// The type in the first byte of a unit.
pub open spec fn type_of(codec: NalCodec, first: u8) -> u8 {
    match codec {
        NalCodec::H264 => first & 0x1f,
        NalCodec::Hevc => (first >> 1) & 0x3f,
    }
}

impl NalCodec {
    fn nal_type(self, first_byte: u8) -> (r: u8)
        ensures
            r == type_of(self, first_byte),
    {
        match self {
            NalCodec::H264 => first_byte & 0x1f,
            NalCodec::Hevc => (first_byte >> 1) & 0x3f,
        }
    }
}

/// Whether a start code, two zeros and a one, is at `i`.
pub open spec fn start_at(data: Seq<u8>, i: int) -> bool {
    0 <= i && i + 3 <= data.len() && data[i] == 0 && data[i + 1] == 0 && data[i + 2] == 1
}

/// The places below `n` of start codes, in ascending order.
pub open spec fn starts(data: Seq<u8>, n: nat) -> Seq<int>
    decreases n,
{
    if n == 0 {
        Seq::empty()
    } else if start_at(data, n - 1) {
        starts(data, (n - 1) as nat).push(n - 1)
    } else {
        starts(data, (n - 1) as nat)
    }
}

/// `s` without trailing zeros.
pub open spec fn without_padding(s: Seq<u8>) -> Seq<u8>
    decreases s.len(),
{
    if s.len() > 0 && s.last() == 0 {
        without_padding(s.drop_last())
    } else {
        s
    }
}

/// What stands between start code `k` and the next one, without trailing zeros.
pub open spec fn unit_at(data: Seq<u8>, k: int) -> Seq<u8> {
    let all = starts(data, data.len());
    let end = if k + 1 < all.len() {
        all[k + 1]
    } else {
        data.len() as int
    };
    without_padding(data.subrange(all[k] + 3, end))
}

/// The units after the first `k` start codes that are not empty.
pub open spec fn units_below(data: Seq<u8>, k: nat) -> Seq<Seq<u8>>
    decreases k,
{
    if k == 0 {
        Seq::empty()
    } else if unit_at(data, k - 1).len() == 0 {
        units_below(data, (k - 1) as nat)
    } else {
        units_below(data, (k - 1) as nat).push(unit_at(data, k - 1))
    }
}

/// The NAL units of a byte stream.
pub open spec fn units(data: Seq<u8>) -> Seq<Seq<u8>> {
    units_below(data, starts(data, data.len()).len())
}

/// The bytes of a list of units.
pub open spec fn nal_bytes(v: Seq<Nal>) -> Seq<Seq<u8>> {
    v.map_values(|n: Nal| n.bytes@)
}

/// What `starts` lists.
proof fn lemma_starts(data: Seq<u8>, n: nat)
    requires
        n <= data.len(),
    ensures
        starts(data, n).len() <= n,
        forall|k: int|
            0 <= k < starts(data, n).len() ==> #[trigger] starts(data, n)[k] < n && start_at(
                data,
                starts(data, n)[k],
            ),
        forall|k: int, l: int|
            0 <= k < l < starts(data, n).len() ==> #[trigger] starts(data, n)[k] + 3
                <= #[trigger] starts(data, n)[l],
    decreases n,
{
    if n > 0 {
        lemma_starts(data, (n - 1) as nat);
    }
}

/// Removing padding keeps a prefix that does not end in zero.
proof fn lemma_without_padding(s: Seq<u8>)
    ensures
        without_padding(s).len() <= s.len(),
        without_padding(s) == s.take(without_padding(s).len() as int),
        without_padding(s).len() > 0 ==> without_padding(s).last() != 0,
    decreases s.len(),
{
    if s.len() > 0 && s.last() == 0 {
        lemma_without_padding(s.drop_last());
        assert(s.drop_last().take(without_padding(s).len() as int) =~= s.take(
            without_padding(s).len() as int,
        ));
    } else {
        assert(s.take(s.len() as int) =~= s);
    }
}

/// Every unit has at least one byte, does not end in zero and holds no start code.
pub proof fn law_units_well_formed(data: Seq<u8>, i: int)
    requires
        0 <= i < units(data).len(),
    ensures
        units(data)[i].len() > 0,
        units(data)[i].last() != 0,
        forall|j: int| !#[trigger] start_at(units(data)[i], j),
{
    lemma_units(data, starts(data, data.len()).len(), i);
}

proof fn lemma_units(data: Seq<u8>, k: nat, i: int)
    requires
        k <= starts(data, data.len()).len(),
        0 <= i < units_below(data, k).len(),
    ensures
        units_below(data, k)[i].len() > 0,
        units_below(data, k)[i].last() != 0,
        forall|j: int| !#[trigger] start_at(units_below(data, k)[i], j),
    decreases k,
{
    let below = units_below(data, (k - 1) as nat);
    if i < below.len() {
        lemma_units(data, (k - 1) as nat, i);
    } else {
        let all = starts(data, data.len());
        lemma_starts(data, data.len());
        let end = if k < all.len() {
            all[k as int]
        } else {
            data.len() as int
        };
        let from = all[k - 1] + 3;
        let body = data.subrange(from, end);
        let unit = unit_at(data, k - 1);
        lemma_without_padding(body);
        assert forall|j: int| !#[trigger] start_at(unit, j) by {
            if start_at(unit, j) {
                assert(start_at(data, from + j)) by {
                    assert(unit[j] == data[from + j]);
                    assert(unit[j + 1] == data[from + j + 1]);
                    assert(unit[j + 2] == data[from + j + 2]);
                }
                lemma_starts_complete(data, data.len(), from + j);
                let l = choose|l: int| 0 <= l < all.len() && all[l] == from + j;
                if l < k - 1 {
                    assert(all[l] + 3 <= all[k - 1]);
                } else if l > k - 1 {
                    if l > k {
                        assert(all[k as int] + 3 <= all[l]);
                    }
                }
            }
        }
    }
}

/// Every start code below `n` is listed.
proof fn lemma_starts_complete(data: Seq<u8>, n: nat, i: int)
    requires
        n <= data.len(),
        0 <= i < n,
        start_at(data, i),
    ensures
        exists|k: int| 0 <= k < starts(data, n).len() && #[trigger] starts(data, n)[k] == i,
    decreases n,
{
    if i < n - 1 {
        lemma_starts_complete(data, (n - 1) as nat, i);
        let k = choose|k: int|
            0 <= k < starts(data, (n - 1) as nat).len() && #[trigger] starts(
                data,
                (n - 1) as nat,
            )[k] == i;
        assert(starts(data, n)[k] == i);
    } else {
        assert(starts(data, n).last() == i);
    }
}

/// The places of the start codes.
fn start_code_positions(data: &[u8]) -> (r: Vec<usize>)
    ensures
        r.len() == starts(data@, data@.len()).len(),
        forall|k: int|
            0 <= k < r.len() ==> #[trigger] r@[k] == starts(data@, data@.len())[k],
{
    let mut out: Vec<usize> = Vec::new();
    let mut i: usize = 0;
    while i < data.len()
        invariant
            i <= data.len(),
            out.len() == starts(data@, i as nat).len(),
            forall|k: int|
                0 <= k < out.len() ==> #[trigger] out@[k] == starts(data@, i as nat)[k],
        decreases data.len() - i,
    {
        if data.len() - i >= 3 && data[i] == 0 && data[i + 1] == 0 && data[i + 2] == 1 {
            out.push(i);
        }
        i += 1;
    }
    out
}

/// The NAL units of a byte stream, without start codes, trailing zeros and empty units.
pub fn iter_nals<'a>(data: &'a [u8], codec: NalCodec) -> (r: Vec<Nal<'a>>)
    ensures
        nal_bytes(r@) == units(data@),
        forall|i: int|
            0 <= i < r.len() ==> (#[trigger] r@[i]).bytes@.len() > 0 && r@[i].nal_type == type_of(
                codec,
                r@[i].bytes@[0],
            ),
{
    let mut nals: Vec<Nal<'a>> = Vec::new();
    let positions: Vec<usize> = start_code_positions(data);
    proof {
        lemma_starts(data@, data@.len());
    }
    assert(nal_bytes(nals@) =~= Seq::empty());
    let ghost all = starts(data@, data@.len());
    let mut k: usize = 0;
    while k < positions.len()
        invariant
            k <= positions.len(),
            all == starts(data@, data@.len()),
            positions.len() == all.len(),
            forall|j: int| 0 <= j < all.len() ==> #[trigger] positions@[j] == all[j],
            forall|j: int|
                0 <= j < all.len() ==> #[trigger] all[j] < data@.len() && start_at(data@, all[j]),
            forall|j: int, l: int|
                0 <= j < l < all.len() ==> #[trigger] all[j] + 3 <= #[trigger] all[l],
            nal_bytes(nals@) == units_below(data@, k as nat),
            forall|i: int|
                0 <= i < nals.len() ==> (#[trigger] nals@[i]).bytes@.len() > 0
                    && nals@[i].nal_type == type_of(codec, nals@[i].bytes@[0]),
        decreases positions.len() - k,
    {
        assert(positions@[k as int] == all[k as int]);
        assert(start_at(data@, all[k as int]));
        assert(all[k as int] + 3 <= data.len());
        let from: usize = positions[k] + 3;
        let mut end: usize = data.len();
        if k + 1 < positions.len() {
            end = positions[k + 1];
            assert(positions@[k + 1] == all[k + 1]);
            assert(all[k as int] + 3 <= all[k + 1]);
        }
        let ghost body = data@.subrange(from as int, end as int);
        let ghost full = end;
        while end > from && data[end - 1] == 0
            invariant
                from <= end <= full <= data.len(),
                body == data@.subrange(from as int, full as int),
                without_padding(body) == without_padding(data@.subrange(from as int, end as int)),
            decreases end,
        {
            assert(data@.subrange(from as int, end as int).drop_last() =~= data@.subrange(
                from as int,
                end - 1,
            ));
            end -= 1;
        }
        let bytes = slice_subrange(data, from, end);
        assert(bytes@ == unit_at(data@, k as int)) by {
            if end > from {
                assert(bytes@.last() == data@[end - 1]);
            }
        }
        if bytes.len() > 0 {
            let ghost before = nals@;
            nals.push(Nal { nal_type: codec.nal_type(bytes[0]), bytes });
            assert(nal_bytes(nals@) =~= nal_bytes(before).push(bytes@));
        }
        k += 1;
    }
    nals
}

/// Whether units of a type are parameter sets.
pub open spec fn parameter_set(nal_type: u8, codec: NalCodec) -> bool {
    match codec {
        NalCodec::H264 => nal_type == 7 || nal_type == 8,
        NalCodec::Hevc => 32 <= nal_type <= 34,
    }
}

/// Whether units of a type are parameter sets.
pub fn is_parameter_set(nal_type: u8, codec: NalCodec) -> (r: bool)
    ensures
        r == parameter_set(nal_type, codec),
{
    match codec {
        NalCodec::H264 => nal_type == 7 || nal_type == 8,
        NalCodec::Hevc => 32 <= nal_type && nal_type <= 34,
    }
}

/// Whether a unit is a parameter set.
pub open spec fn is_params(u: Seq<u8>, codec: NalCodec) -> bool {
    parameter_set(type_of(codec, u[0]), codec)
}

/// The parameter sets among the first `n` units, in order.
pub open spec fn params_of(v: Seq<Seq<u8>>, codec: NalCodec, n: nat) -> Seq<Seq<u8>>
    decreases n,
{
    if n == 0 {
        Seq::empty()
    } else if is_params(v[n - 1], codec) {
        params_of(v, codec, (n - 1) as nat).push(v[n - 1])
    } else {
        params_of(v, codec, (n - 1) as nat)
    }
}

/// The other units among the first `n`, each behind its length.
pub open spec fn sample_of(v: Seq<Seq<u8>>, codec: NalCodec, n: nat) -> Seq<u8>
    decreases n,
{
    if n == 0 {
        Seq::empty()
    } else if is_params(v[n - 1], codec) {
        sample_of(v, codec, (n - 1) as nat)
    } else {
        sample_of(v, codec, (n - 1) as nat) + be32_bytes(v[n - 1].len() as u32) + v[n - 1]
    }
}

/// The contents of a list of byte strings.
pub open spec fn byte_strings(v: Seq<Vec<u8>>) -> Seq<Seq<u8>> {
    v.map_values(|b: Vec<u8>| b@)
}

/// Split an access unit into its parameter sets and the rest, the latter in length-prefixed
/// form.
pub fn to_length_prefixed(data: &[u8], codec: NalCodec) -> (r: (Vec<Vec<u8>>, Vec<u8>))
    ensures
        byte_strings(r.0@) == params_of(units(data@), codec, units(data@).len()),
        r.1@ == sample_of(units(data@), codec, units(data@).len()),
{
    let nals: Vec<Nal> = iter_nals(data, codec);
    let ghost v = units(data@);
    let mut params: Vec<Vec<u8>> = Vec::new();
    let mut sample: Vec<u8> = Vec::new();
    assert(byte_strings(params@) =~= Seq::empty());
    let mut i: usize = 0;
    while i < nals.len()
        invariant
            i <= nals.len(),
            nal_bytes(nals@) == v,
            forall|j: int|
                0 <= j < nals.len() ==> (#[trigger] nals@[j]).bytes@.len() > 0
                    && nals@[j].nal_type == type_of(codec, nals@[j].bytes@[0]),
            byte_strings(params@) == params_of(v, codec, i as nat),
            sample@ == sample_of(v, codec, i as nat),
        decreases nals.len() - i,
    {
        let nal = &nals[i];
        assert(v[i as int] == nal.bytes@);
        if is_parameter_set(nal.nal_type, codec) {
            let ghost before = params@;
            let copy: Vec<u8> = copy_range(nal.bytes, 0, nal.bytes.len());
            assert(copy@ =~= nal.bytes@);
            params.push(copy);
            assert(byte_strings(params@) =~= byte_strings(before).push(nal.bytes@));
        } else {
            push_be32(&mut sample, nal.bytes.len() as u32);
            push_slice(&mut sample, nal.bytes);
        }
        i += 1;
    }
    (params, sample)
}

/// A stream of the first `n` units, each behind a start code; those marked behind a long one.
pub open spec fn stream_of(us: Seq<(bool, Seq<u8>)>, n: nat) -> Seq<u8>
    decreases n,
{
    if n == 0 {
        Seq::empty()
    } else {
        stream_of(us, (n - 1) as nat) + (if us[n - 1].0 {
            seq![0u8, 0u8, 0u8, 1u8]
        } else {
            seq![0u8, 0u8, 1u8]
        }) + us[n - 1].1
    }
}

/// Whether `u` can stand in a stream: it holds something, does not end in a zero, and holds no
/// start code.
pub open spec fn can_stand(u: Seq<u8>) -> bool {
    u.len() > 0 && u.last() != 0 && forall|j: int| !#[trigger] start_at(u, j)
}

/// The units of the first `n` pairs.
pub open spec fn second_parts(us: Seq<(bool, Seq<u8>)>, n: nat) -> Seq<Seq<u8>> {
    Seq::new(n, |i: int| us[i].1)
}

/// Splitting a stream gives back the units that it was made of, whichever start codes stand before
/// them.
pub proof fn law_split_of_stream(us: Seq<(bool, Seq<u8>)>, n: nat)
    requires
        n <= us.len(),
        forall|i: int| 0 <= i < n ==> can_stand((#[trigger] us[i]).1),
    ensures
        units(stream_of(us, n)) == second_parts(us, n),
    decreases n,
{
    let data = stream_of(us, n);
    if n == 0 {
        assert(units(data) =~= second_parts(us, 0));
    } else {
        let m = (n - 1) as nat;
        let before = stream_of(us, m);
        law_split_of_stream(us, m);
        let u = us[n - 1].1;
        let zeros: int = if us[n - 1].0 {
            1
        } else {
            0
        };
        let p = before.len() + zeros;
        assert(can_stand(us[n - 1].1));
        lemma_stream_end(us, m);
        assert(data.len() == p + 3 + u.len());
        assert(data.take(before.len() as int) =~= before);
        assert(data[p] == 0 && data[p + 1] == 0 && data[p + 2] == 1);
        assert(data.subrange(p + 3, data.len() as int) =~= u);
        lemma_starts_prefix(before, data, before.len());
        lemma_one_more_start(before, data, p, data.len());
        let all = starts(data, data.len());
        let old_all = starts(before, before.len());
        assert(all =~= old_all.push(p));
        lemma_starts(before, before.len());
        lemma_same_units(before, data, p, old_all.len());
        assert(unit_at(data, old_all.len() as int) == u) by {
            assert(data.subrange(all[old_all.len() as int] + 3, data.len() as int) =~= u);
        }
        assert(units(data) == units(before).push(u));
        assert(second_parts(us, n) =~= second_parts(us, m).push(u));
    }
}

/// A stream is empty or does not end in a zero.
proof fn lemma_stream_end(us: Seq<(bool, Seq<u8>)>, n: nat)
    requires
        n <= us.len(),
        forall|i: int| 0 <= i < n ==> can_stand((#[trigger] us[i]).1),
    ensures
        n == 0 ==> stream_of(us, n).len() == 0,
        n > 0 ==> stream_of(us, n).len() > 0 && stream_of(us, n).last() != 0,
{
    if n > 0 {
        assert(can_stand(us[n - 1].1));
        assert(stream_of(us, n).last() == us[n - 1].1.last());
    }
}

/// Where a stream that does not end in a zero goes on, the start codes in it stay the same.
proof fn lemma_starts_prefix(a: Seq<u8>, b: Seq<u8>, n: nat)
    requires
        n <= a.len() <= b.len(),
        b.take(a.len() as int) == a,
        a.len() > 0 ==> a.last() != 0,
    ensures
        starts(b, n) == starts(a, n),
    decreases n,
{
    if n > 0 {
        lemma_starts_prefix(a, b, (n - 1) as nat);
        assert(forall|i: int| 0 <= i < a.len() ==> #[trigger] a[i] == b[i]);
        assert(a.last() == b[a.len() - 1]);
        assert(start_at(a, n - 1) == start_at(b, n - 1));
    }
}

/// Behind a stream that goes on with one more unit there is one more start code.
proof fn lemma_one_more_start(a: Seq<u8>, b: Seq<u8>, p: int, n: nat)
    requires
        a.len() <= p <= a.len() + 1,
        a.len() <= n <= b.len(),
        p + 3 < b.len(),
        b.take(a.len() as int) == a,
        b[a.len() as int] == 0,
        b[p] == 0 && b[p + 1] == 0 && b[p + 2] == 1,
        forall|j: int| !#[trigger] start_at(b.subrange(p + 3, b.len() as int), j),
        starts(b, a.len()) == starts(a, a.len()),
    ensures
        n <= p ==> starts(b, n) == starts(a, a.len()),
        n > p ==> starts(b, n) == starts(a, a.len()).push(p),
    decreases n,
{
    if n > a.len() {
        let i = n - 1;
        lemma_one_more_start(a, b, p, (n - 1) as nat);
        if i < p {
            assert(!start_at(b, i));
        } else if i == p {
            assert(start_at(b, i));
        } else if i == p + 1 || i == p + 2 {
            assert(!start_at(b, i));
        } else {
            let u = b.subrange(p + 3, b.len() as int);
            if start_at(b, i) {
                let j = i - (p + 3);
                assert(u[j] == b[i] && u[j + 1] == b[i + 1] && u[j + 2] == b[i + 2]);
                assert(start_at(u, j));
            }
        }
    }
}

/// Behind a stream that goes on with one more unit the earlier units stay the same.
proof fn lemma_same_units(a: Seq<u8>, b: Seq<u8>, p: int, k: nat)
    requires
        a.len() <= p <= a.len() + 1,
        p < b.len(),
        b.take(a.len() as int) == a,
        b[a.len() as int] == 0,
        k <= starts(a, a.len()).len(),
        starts(b, b.len()) == starts(a, a.len()).push(p),
    ensures
        units_below(b, k) == units_below(a, k),
    decreases k,
{
    if k > 0 {
        lemma_same_units(a, b, p, (k - 1) as nat);
        lemma_starts(a, a.len());
        let all = starts(a, a.len());
        let from = all[k - 1] + 3;
        assert(forall|i: int| 0 <= i < a.len() ==> #[trigger] a[i] == b[i]);
        if k < all.len() {
            assert(all[k - 1] + 3 <= all[k as int]);
            assert(b.subrange(from, all[k as int]) =~= a.subrange(from, all[k as int]));
        } else {
            assert(start_at(a, all[k - 1]));
            let x = a.subrange(from, a.len() as int);
            let y = b.subrange(from, p);
            if p == a.len() {
                assert(y =~= x);
            } else {
                assert(y =~= x.push(0));
                assert(y.drop_last() =~= x);
            }
        }
        assert(unit_at(b, k - 1) == unit_at(a, k - 1));
    }
}

/// The units among the first `n` that are no parameter sets.
pub open spec fn others_of(v: Seq<Seq<u8>>, codec: NalCodec, n: nat) -> Seq<Seq<u8>>
    decreases n,
{
    if n == 0 {
        Seq::empty()
    } else if is_params(v[n - 1], codec) {
        others_of(v, codec, (n - 1) as nat)
    } else {
        others_of(v, codec, (n - 1) as nat).push(v[n - 1])
    }
}

/// The units in length-prefixed bytes.
pub open spec fn prefixed_units(s: Seq<u8>) -> Seq<Seq<u8>>
    decreases s.len(),
{
    if s.len() < 4 || 4 + be32_at(s, 0) > s.len() {
        Seq::empty()
    } else {
        let end = 4 + be32_at(s, 0);
        seq![s.subrange(4, end)] + prefixed_units(s.skip(end))
    }
}

/// Reading a sample by its lengths gives the units that are no parameter sets, in their order; the
/// parameter sets and these together are as many as the units.
pub proof fn law_sample_reads_back(v: Seq<Seq<u8>>, codec: NalCodec, n: nat)
    requires
        n <= v.len(),
        forall|i: int| 0 <= i < n ==> (#[trigger] v[i]).len() <= u32::MAX,
    ensures
        prefixed_units(sample_of(v, codec, n)) == others_of(v, codec, n),
        params_of(v, codec, n).len() + others_of(v, codec, n).len() == n,
    decreases n,
{
    if n == 0 {
        assert(prefixed_units(sample_of(v, codec, 0)) =~= others_of(v, codec, 0));
    } else {
        law_sample_reads_back(v, codec, (n - 1) as nat);
        lemma_sample_joins(v, codec, (n - 1) as nat, Seq::empty());
        let tail = be32_bytes(v[n - 1].len() as u32) + v[n - 1];
        if !is_params(v[n - 1], codec) {
            lemma_sample_joins(v, codec, (n - 1) as nat, tail);
            assert(sample_of(v, codec, n) =~= sample_of(v, codec, (n - 1) as nat) + tail);
            lemma_one_prefixed(v[n - 1], Seq::empty());
            assert(tail + Seq::<u8>::empty() =~= tail);
            assert(prefixed_units(Seq::empty()) =~= Seq::<Seq<u8>>::empty());
            assert(others_of(v, codec, n) =~= others_of(v, codec, (n - 1) as nat) + (seq![v[n - 1]]
                + Seq::<Seq<u8>>::empty()));
        }
    }
}

/// A unit behind its length is read, and what follows it after it.
proof fn lemma_one_prefixed(u: Seq<u8>, rest: Seq<u8>)
    requires
        u.len() <= u32::MAX,
    ensures
        prefixed_units(be32_bytes(u.len() as u32) + u + rest) == seq![u] + prefixed_units(rest),
{
    let n = u.len() as u32;
    let s = be32_bytes(n) + u + rest;
    law_read_of_write(Seq::empty(), u + rest, 0, n);
    assert(s =~= Seq::<u8>::empty() + be32_bytes(n) + (u + rest));
    assert(s.subrange(4, 4 + n) =~= u);
    assert(s.skip(4 + n) =~= rest);
}

/// What follows a sample is read after its units.
proof fn lemma_sample_joins(v: Seq<Seq<u8>>, codec: NalCodec, n: nat, rest: Seq<u8>)
    requires
        n <= v.len(),
        forall|i: int| 0 <= i < n ==> (#[trigger] v[i]).len() <= u32::MAX,
    ensures
        prefixed_units(sample_of(v, codec, n) + rest) == others_of(v, codec, n) + prefixed_units(
            rest,
        ),
    decreases n,
{
    if n == 0 {
        assert(sample_of(v, codec, 0) + rest =~= rest);
        assert(others_of(v, codec, 0) + prefixed_units(rest) =~= prefixed_units(rest));
    } else {
        let m = (n - 1) as nat;
        let u = v[n - 1];
        if is_params(u, codec) {
            lemma_sample_joins(v, codec, m, rest);
        } else {
            let tail = be32_bytes(u.len() as u32) + u + rest;
            lemma_sample_joins(v, codec, m, tail);
            lemma_one_prefixed(u, rest);
            assert(sample_of(v, codec, n) + rest =~= sample_of(v, codec, m) + tail);
            assert(others_of(v, codec, n) + prefixed_units(rest) =~= others_of(v, codec, m) + (seq![
                u,
            ] + prefixed_units(rest)));
        }
    }
}

/// The type of a unit stands in the lower five bits of its first byte, or in the six below the
/// highest.
pub proof fn law_unit_type(first: u8)
    ensures
        type_of(NalCodec::H264, first) == first % 32,
        type_of(NalCodec::Hevc, first) == first / 2 % 64,
{
    assert(first & 0x1f == first % 32) by (bit_vector);
    assert((first >> 1) & 0x3f == first / 2 % 64) by (bit_vector);
}

/// Whether a unit of a codec describes the stream: a sequence or a picture parameter set, or a
/// video parameter set where there are any.
pub open spec fn describes_stream(codec: NalCodec, first: u8) -> bool {
    match codec {
        NalCodec::H264 => first % 32 == 7 || first % 32 == 8,
        NalCodec::Hevc => first / 2 % 64 == 32 || first / 2 % 64 == 33 || first / 2 % 64 == 34,
    }
}

/// The units that describe the stream are taken out, and the others stay, each in the order of the
/// stream.
pub proof fn law_parameter_sets(v: Seq<Seq<u8>>, codec: NalCodec, n: nat)
    requires
        n <= v.len(),
    ensures
        params_of(v, codec, n) == v.take(n as int).filter(
            |u: Seq<u8>| describes_stream(codec, u[0]),
        ),
        others_of(v, codec, n) == v.take(n as int).filter(
            |u: Seq<u8>| !describes_stream(codec, u[0]),
        ),
    decreases n,
{
    reveal(Seq::filter);
    let now = v.take(n as int);
    if n > 0 {
        law_parameter_sets(v, codec, (n - 1) as nat);
        assert(now.drop_last() =~= v.take(n - 1));
        law_unit_type(v[n - 1][0]);
    }
}

/// A sample is a run of units, each behind its length in four bytes, the most significant first.
pub proof fn law_sample_of_one(u: Seq<u8>, codec: NalCodec)
    requires
        u.len() <= u32::MAX,
        u.len() > 0,
        !describes_stream(codec, u[0]),
    ensures
        ({
            let s = sample_of(seq![u], codec, 1);
            big(s.take(4)) == u.len() && s.skip(4) == u
        }),
{
    let s = sample_of(seq![u], codec, 1);
    reveal_with_fuel(sample_of, 2);
    law_unit_type(u[0]);
    law_numbers(Seq::empty(), 0, 0, u.len() as u32);
    assert(s =~= be32_bytes(u.len() as u32) + u);
    assert(s.take(4) =~= be32_bytes(u.len() as u32));
    assert(s.skip(4) =~= u);
}

} // verus!
