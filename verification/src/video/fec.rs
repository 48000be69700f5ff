//! Forward error correction of one block of shards.
//!
//! A block holds `data_shards` shards of the frame followed by parity shards. The code is
//! systematic: its generator is the identity over a Cauchy matrix over GF(2^8), so any
//! `data_shards` of the shards determine the others.
use vstd::prelude::*;

use crate::video::cauchy::{cauchy_row, lemma_cauchy};
use crate::video::gf256::{gf_inv, gf_mul, lemma_add, lemma_mul_zero_one, Gf256};
use crate::video::matrix::{
    dot, dot_first, inverse_of, invert, lemma_dot_same, lemma_dot_unit,
    lemma_not_singular_injective, mat_vec, push_row, rows, singular, square, unit, unit_row, zeros,
};

verus! {

/// The contents of the shards of a block; `None` stands for a lost shard.
pub open spec fn contents(shards: Seq<Option<Vec<u8>>>) -> Seq<Option<Seq<u8>>> {
    shards.map_values(
        |s: Option<Vec<u8>>|
            match s {
                Some(v) => Some(v@),
                None => None,
            },
    )
}

/// The coefficient of data shard `i` in parity shard `j`: the inverse of `(parity + i) XOR j`.
pub open spec fn parity_coefficient(parity: nat, i: int, j: int) -> u8 {
    gf_inv((((parity + i) as usize) ^ (j as usize)) as u8)
}

/// The row of the generator that yields shard `index`.
pub open spec fn generator_row(data: nat, parity: nat, index: int) -> Seq<u8> {
    if index < data {
        unit(data, index)
    } else {
        Seq::new(data, |i: int| parity_coefficient(parity, i, index - data))
    }
}

/// The byte of `s` at `b`, zero past its end.
pub open spec fn byte_at(s: Seq<u8>, b: int) -> u8 {
    if 0 <= b < s.len() { s[b] } else { 0u8 }
}

/// The indices below `n` of the shards that are present, in ascending order.
pub open spec fn survivors(s: Seq<Option<Seq<u8>>>, n: nat) -> Seq<int>
    decreases n,
{
    if n == 0 {
        Seq::empty()
    } else if s[n - 1] is Some {
        survivors(s, (n - 1) as nat).push(n - 1)
    } else {
        survivors(s, (n - 1) as nat)
    }
}

/// The number of shards that are present.
pub open spec fn present_count(s: Seq<Option<Seq<u8>>>) -> nat {
    survivors(s, s.len()).len()
}

/// The first `data` of the `count` first shards are present.
pub open spec fn data_complete(s: Seq<Option<Seq<u8>>>, data: nat) -> bool {
    forall|i: int| 0 <= i < data ==> #[trigger] s[i] is Some
}

/// The rows of the generator for the first `data` surviving shards.
pub open spec fn survivor_matrix(data: nat, parity: nat, s: Seq<Option<Seq<u8>>>) -> Seq<Seq<u8>> {
    Seq::new(data, |r: int| generator_row(data, parity, survivors(s, s.len())[r]))
}

/// The bytes at `b` of the first `data` surviving shards.
pub open spec fn survivor_column(data: nat, s: Seq<Option<Seq<u8>>>, b: int) -> Seq<u8> {
    Seq::new(data, |r: int| byte_at(s[survivors(s, s.len())[r]]->0, b))
}

/// The bytes at `b` of the first `data` shards.
pub open spec fn data_column(data: nat, s: Seq<Option<Seq<u8>>>, b: int) -> Seq<u8> {
    Seq::new(data, |i: int| byte_at(s[i]->0, b))
}

/// The length of the first surviving shard.
pub open spec fn shard_length(s: Seq<Option<Seq<u8>>>) -> nat {
    s[survivors(s, s.len())[0]]->0.len()
}

/// The data shards of the block can be told from the shards that are present.
pub open spec fn recoverable(data: nat, parity: nat, s: Seq<Option<Seq<u8>>>) -> bool {
    &&& s.len() >= data + parity
    &&& present_count(s) >= data
    &&& data_complete(s, data) || !singular(survivor_matrix(data, parity, s))
}

/// `after` is `before` with the missing data shards filled in, each as long as the first
/// surviving shard and such that encoding the data shards gives back the survivors.
pub open spec fn is_recovery(
    data: nat,
    parity: nat,
    before: Seq<Option<Seq<u8>>>,
    after: Seq<Option<Seq<u8>>>,
) -> bool {
    &&& after.len() == before.len()
    &&& forall|i: int|
        0 <= i < before.len() ==> if i >= data || before[i] is Some {
            #[trigger] after[i] == before[i]
        } else {
            after[i] is Some && after[i]->0.len() == shard_length(before)
        }
    &&& forall|b: int|
        0 <= b < shard_length(before) ==> mat_vec(
            survivor_matrix(data, parity, before),
            #[trigger] data_column(data, after, b),
        ) == survivor_column(data, before, b)
}

/// The block with its data shards complete.
pub open spec fn recovered(data: nat, parity: nat, s: Seq<Option<Seq<u8>>>) -> Seq<
    Option<Seq<u8>>,
> {
    if data_complete(s, data) {
        s
    } else {
        choose|after: Seq<Option<Seq<u8>>>| is_recovery(data, parity, s, after)
    }
}

/// Shard `index` of the block that encodes the data shards `d`, each of `len` bytes.
pub open spec fn encoded_shard(d: Seq<Seq<u8>>, parity: nat, len: nat, index: int) -> Seq<u8> {
    Seq::new(
        len,
        |b: int|
            dot(generator_row(d.len(), parity, index), Seq::new(d.len(), |i: int| d[i][b])),
    )
}

/// What `survivors` lists: ascending indices of shards that are present.
pub proof fn lemma_survivors(s: Seq<Option<Seq<u8>>>, n: nat)
    requires
        n <= s.len(),
    ensures
        survivors(s, n).len() <= n,
        forall|p: int|
            0 <= p < survivors(s, n).len() ==> p <= #[trigger] survivors(s, n)[p] < n
                && s[survivors(s, n)[p]] is Some,
        forall|p: int, q: int|
            0 <= p < q < survivors(s, n).len() ==> #[trigger] survivors(s, n)[p]
                < #[trigger] survivors(s, n)[q],
    decreases n,
{
    if n > 0 {
        lemma_survivors(s, (n - 1) as nat);
    }
}

/// A present shard is listed at the place given by the number of survivors before it.
pub proof fn lemma_survivor_rank(s: Seq<Option<Seq<u8>>>, n: nat, i: int)
    requires
        0 <= i < n <= s.len(),
        s[i] is Some,
    ensures
        survivors(s, i as nat).len() < survivors(s, n).len(),
        survivors(s, n)[survivors(s, i as nat).len() as int] == i,
    decreases n,
{
    if i < n - 1 {
        lemma_survivor_rank(s, (n - 1) as nat, i);
    }
}

/// The survivors below `m` come first among those below `n`.
proof fn lemma_survivors_prefix(s: Seq<Option<Seq<u8>>>, m: nat, n: nat)
    requires
        m <= n <= s.len(),
    ensures
        survivors(s, m).len() <= survivors(s, n).len(),
        survivors(s, n).take(survivors(s, m).len() as int) == survivors(s, m),
        forall|p: int|
            survivors(s, m).len() <= p < survivors(s, n).len() ==> #[trigger] survivors(s, n)[p]
                >= m,
    decreases n,
{
    if m < n {
        lemma_survivors_prefix(s, m, (n - 1) as nat);
        let k = survivors(s, m).len() as int;
        assert(survivors(s, n).take(k) =~= survivors(s, (n - 1) as nat).take(k));
    } else {
        assert(survivors(s, n).take(survivors(s, m).len() as int) =~= survivors(s, m));
    }
}

/// A block has at most one recovery.
pub proof fn lemma_recovery_unique(
    data: nat,
    parity: nat,
    s: Seq<Option<Seq<u8>>>,
    a: Seq<Option<Seq<u8>>>,
    b: Seq<Option<Seq<u8>>>,
)
    requires
        recoverable(data, parity, s),
        !data_complete(s, data),
        is_recovery(data, parity, s, a),
        is_recovery(data, parity, s, b),
    ensures
        a == b,
{
    let m = survivor_matrix(data, parity, s);
    assert(square(m, data));
    assert forall|i: int| 0 <= i < s.len() implies a[i] == b[i] by {
        if i < data && s[i] is None {
            let (x, y) = (a[i]->0, b[i]->0);
            assert forall|p: int| 0 <= p < x.len() implies x[p] == y[p] by {
                let (u, v) = (data_column(data, a, p), data_column(data, b, p));
                lemma_not_singular_injective(m, u, v);
                assert(u[i] == v[i]);
            }
            assert(x =~= y);
        }
    }
    assert(a =~= b);
}

/// The indices below `n` of the data shards that are lost, in ascending order.
spec fn missing(s: Seq<Option<Seq<u8>>>, n: nat) -> Seq<int>
    decreases n,
{
    if n == 0 {
        Seq::empty()
    } else if s[n - 1] is Some {
        missing(s, (n - 1) as nat)
    } else {
        missing(s, (n - 1) as nat).push(n - 1)
    }
}

proof fn lemma_missing(s: Seq<Option<Seq<u8>>>, n: nat)
    requires
        n <= s.len(),
    ensures
        missing(s, n).len() + survivors(s, n).len() == n,
        forall|p: int|
            0 <= p < missing(s, n).len() ==> 0 <= #[trigger] missing(s, n)[p] < n && s[missing(
                s,
                n,
            )[p]] is None,
        forall|p: int, q: int|
            0 <= p < q < missing(s, n).len() ==> #[trigger] missing(s, n)[p] < #[trigger] missing(
                s,
                n,
            )[q],
        forall|i: int| 0 <= i < n && #[trigger] s[i] is None ==> missing(s, n).contains(i),
    decreases n,
{
    if n > 0 {
        lemma_missing(s, (n - 1) as nat);
        assert forall|i: int| 0 <= i < n && #[trigger] s[i] is None implies missing(s, n).contains(
            i,
        ) by {
            if i < n - 1 {
                let list = missing(s, (n - 1) as nat);
                let p = choose|p: int| 0 <= p < list.len() && list[p] == i;
                assert(missing(s, n)[p] == i);
            } else {
                assert(missing(s, n).last() == i);
            }
        }
    }
}

/// The elements of the Cauchy matrix that belong to the lost data shards.
spec fn missing_points(s: Seq<Option<Seq<u8>>>, parity: nat, n: nat) -> Seq<u8> {
    missing(s, n).map_values(|i: int| (parity + i) as u8)
}

/// A row of parity coefficients, applied to a vector that is zero wherever a data shard is
/// present, is a row of a Cauchy matrix over the lost shards.
proof fn lemma_parity_row(
    s: Seq<Option<Seq<u8>>>,
    data: nat,
    parity: nat,
    j: int,
    x: Seq<u8>,
    n: nat,
)
    requires
        n <= data <= s.len(),
        data + parity <= 256,
        0 <= j < parity,
        x.len() == data,
        forall|i: int| 0 <= i < data && s[i] is Some ==> #[trigger] x[i] == 0,
    ensures
        dot_first(generator_row(data, parity, data + j), x, n) == dot_first(
            cauchy_row(missing_points(s, parity, n), j as u8),
            missing(s, n).map_values(|i: int| x[i]),
            missing(s, n).len(),
        ),
    decreases n,
{
    if n > 0 {
        let m = (n - 1) as nat;
        lemma_parity_row(s, data, parity, j, x, m);
        let row = generator_row(data, parity, data + j);
        let xs = missing(s, n).map_values(|i: int| x[i]);
        let xs1 = missing(s, m).map_values(|i: int| x[i]);
        let crow = cauchy_row(missing_points(s, parity, n), j as u8);
        let crow1 = cauchy_row(missing_points(s, parity, m), j as u8);
        if s[n - 1] is Some {
            lemma_mul_zero_one(row[n - 1]);
            lemma_add(dot_first(row, x, m), 0, 0);
        } else {
            let c = missing(s, m).len();
            lemma_dot_same(crow, xs, crow1, xs1, c);
            let p = (parity + m) as usize;
            let q = j as usize;
            assert((p ^ q) as u8 == (p as u8) ^ (q as u8)) by (bit_vector);
            assert(crow[c as int] == row[n - 1]);
            assert(xs[c as int] == x[n - 1]);
        }
    }
}

/// A block of at most 256 shards with `data` of them present is never ambiguous.
proof fn lemma_survivors_not_singular(data: nat, parity: nat, s: Seq<Option<Seq<u8>>>)
    requires
        s.len() == data + parity,
        data + parity <= 256,
        present_count(s) >= data,
    ensures
        !singular(survivor_matrix(data, parity, s)),
{
    let m = survivor_matrix(data, parity, s);
    let list = survivors(s, s.len());
    lemma_survivors(s, s.len());
    lemma_survivors_prefix(s, data, s.len());
    lemma_survivors(s, data);
    lemma_missing(s, data);
    let rank = survivors(s, data).len();
    let miss = missing(s, data);
    assert forall|x: Seq<u8>|
        x.len() == data && #[trigger] mat_vec(m, x) == zeros(data) implies x == zeros(data) by {
        assert forall|i: int| 0 <= i < data && s[i] is Some implies #[trigger] x[i] == 0 by {
            lemma_survivor_rank(s, s.len(), i);
            lemma_survivors(s, i as nat);
            let r = survivors(s, i as nat).len() as int;
            assert(mat_vec(m, x)[r] == dot(m[r], x));
            assert(m[r] == unit(data, i));
            lemma_dot_unit(x, data, i, data);
        }
        let us = missing_points(s, parity, data);
        let vs = Seq::new(miss.len(), |t: int| (list[rank + t] - data) as u8);
        let xs = miss.map_values(|i: int| x[i]);
        assert forall|t: int| 0 <= t < vs.len() implies dot(cauchy_row(us, #[trigger] vs[t]), xs)
            == 0 by {
            let r = rank + t;
            let j = list[r] - data;
            assert(list[r] >= data);
            assert(mat_vec(m, x)[r] == dot(m[r], x));
            assert(m[r] == generator_row(data, parity, data + j));
            lemma_parity_row(s, data, parity, j, x, data);
        }
        assert forall|p: int, q: int| 0 <= p < vs.len() && 0 <= q < vs.len() && p != q implies vs[p]
            != vs[q] by {
            assert(list[rank + p] != list[rank + q]) by {
                if p < q {
                    assert(list[rank + p] < list[rank + q]);
                } else {
                    assert(list[rank + q] < list[rank + p]);
                }
            }
            assert(list[rank + p] >= data && list[rank + q] >= data);
        }
        assert forall|p: int, q: int| 0 <= p < us.len() && 0 <= q < us.len() && p != q implies us[p]
            != us[q] by {
            assert(miss[p] != miss[q]) by {
                if p < q {
                    assert(miss[p] < miss[q]);
                } else {
                    assert(miss[q] < miss[p]);
                }
            }
        }
        assert forall|p: int, q: int| 0 <= p < us.len() && 0 <= q < vs.len() implies #[trigger] us[p]
            != #[trigger] vs[q] by {
            assert(list[rank + q] < s.len() && list[rank + q] >= data);
            assert(0 <= miss[p] < data);
        }
        lemma_cauchy(us, vs, xs);
        assert forall|i: int| 0 <= i < data implies x[i] == 0 by {
            if s[i] is None {
                let p = choose|p: int| 0 <= p < miss.len() && miss[p] == i;
                assert(xs[p] == 0);
            }
        }
        assert(x =~= zeros(data));
    }
}

/// A block of at most 256 shards is recoverable as soon as as many of its shards are present as
/// it has data shards, whichever they are.
pub proof fn law_any_data_shards_suffice(data: nat, parity: nat, s: Seq<Option<Seq<u8>>>)
    requires
        s.len() == data + parity,
        data + parity <= 256,
    ensures
        recoverable(data, parity, s) <==> present_count(s) >= data,
{
    if present_count(s) >= data {
        lemma_survivors_not_singular(data, parity, s);
    }
}

/// Recovery restores what was encoded: if every shard that is present is the one that encoding
/// `d` yields, the data shards of the recovered block are `d`.
pub proof fn law_recovery_restores_data(
    d: Seq<Seq<u8>>,
    parity: nat,
    len: nat,
    s: Seq<Option<Seq<u8>>>,
)
    requires
        forall|i: int| 0 <= i < d.len() ==> (#[trigger] d[i]).len() == len,
        forall|i: int|
            0 <= i < s.len() && #[trigger] s[i] is Some ==> s[i]->0 == encoded_shard(
                d,
                parity,
                len,
                i,
            ),
        recoverable(d.len(), parity, s),
    ensures
        recovered(d.len(), parity, s).len() == s.len(),
        forall|i: int|
            0 <= i < d.len() ==> #[trigger] recovered(d.len(), parity, s)[i] == Some(d[i]),
{
    let data = d.len();
    lemma_survivors(s, s.len());
    let list = survivors(s, s.len());
    assert forall|i: int| 0 <= i < data implies encoded_shard(d, parity, len, i) == d[i] by {
        assert forall|b: int| 0 <= b < len implies encoded_shard(d, parity, len, i)[b]
            == d[i][b] by {
            lemma_dot_unit(Seq::new(data, |q: int| d[q][b]), data, i, data);
        }
        assert(encoded_shard(d, parity, len, i) =~= d[i]);
    }
    if !data_complete(s, data) {
        let after = Seq::new(
            s.len(),
            |i: int|
                if i < data {
                    Some(d[i])
                } else {
                    s[i]
                },
        );
        assert(shard_length(s) == len) by {
            assert(s[list[0]] is Some);
        }
        assert forall|b: int| 0 <= b < len implies mat_vec(
            survivor_matrix(data, parity, s),
            #[trigger] data_column(data, after, b),
        ) == survivor_column(data, s, b) by {
            let m = survivor_matrix(data, parity, s);
            assert(data_column(data, after, b) =~= Seq::new(data, |q: int| d[q][b]));
            assert forall|r: int| 0 <= r < data implies dot(m[r], data_column(data, after, b))
                == survivor_column(data, s, b)[r] by {
                assert(s[list[r]] is Some);
                assert(s[list[r]]->0 == encoded_shard(d, parity, len, list[r]));
            }
            assert(mat_vec(m, data_column(data, after, b)) =~= survivor_column(data, s, b));
        }
        assert(is_recovery(data, parity, s, after));
        lemma_recovery_unique(data, parity, s, after, recovered(data, parity, s));
    }
}

/// The coefficient of data shard `i` in parity shard `j`.
fn parity_coeff(g: &Gf256, parity_shards: usize, i: usize, j: usize) -> (r: u8)
    requires
        parity_shards + i <= usize::MAX,
    ensures
        r == parity_coefficient(parity_shards as nat, i as int, j as int),
{
    g.inverse(((parity_shards + i) ^ j) as u8)
}

/// The row of the generator that yields shard `index`.
fn build_row(g: &Gf256, data_shards: usize, parity_shards: usize, index: usize) -> (r: Vec<u8>)
    requires
        data_shards + parity_shards <= usize::MAX,
    ensures
        r@ == generator_row(data_shards as nat, parity_shards as nat, index as int),
{
    if index < data_shards {
        return unit_row(data_shards, index);
    }
    let ghost row = generator_row(data_shards as nat, parity_shards as nat, index as int);
    let mut out: Vec<u8> = Vec::with_capacity(data_shards);
    let mut c: usize = 0;
    while c < data_shards
        invariant
            c <= data_shards <= index,
            data_shards + parity_shards <= usize::MAX,
            row == generator_row(data_shards as nat, parity_shards as nat, index as int),
            out@ == row.take(c as int),
        decreases data_shards - c,
    {
        out.push(parity_coeff(g, parity_shards, c, index - data_shards));
        c += 1;
        assert(row.take(c as int) =~= row.take(c - 1).push(row[c - 1]));
    }
    assert(row.take(c as int) =~= row);
    out
}

/// The indices of the shards that are present.
fn list_survivors(shards: &[Option<Vec<u8>>]) -> (r: Vec<usize>)
    ensures
        r.len() == present_count(contents(shards@)),
        forall|p: int|
            0 <= p < r.len() ==> #[trigger] r@[p] == survivors(
                contents(shards@),
                shards@.len(),
            )[p],
{
    let mut out: Vec<usize> = Vec::new();
    let mut i: usize = 0;
    while i < shards.len()
        invariant
            i <= shards.len(),
            out.len() == survivors(contents(shards@), i as nat).len(),
            forall|p: int|
                0 <= p < out.len() ==> #[trigger] out@[p] == survivors(
                    contents(shards@),
                    i as nat,
                )[p],
        decreases shards.len() - i,
    {
        if shards[i].is_some() {
            out.push(i);
        }
        i += 1;
    }
    out
}

/// Whether the first `data_shards` shards are all present.
fn all_present(shards: &[Option<Vec<u8>>], data_shards: usize) -> (r: bool)
    requires
        data_shards <= shards.len(),
    ensures
        r == data_complete(contents(shards@), data_shards as nat),
{
    let mut i: usize = 0;
    while i < data_shards
        invariant
            i <= data_shards <= shards.len(),
            data_complete(contents(shards@), i as nat),
        decreases data_shards - i,
    {
        if shards[i].is_none() {
            assert(contents(shards@)[i as int] is None);
            return false;
        }
        assert(contents(shards@)[i as int] is Some);
        i += 1;
    }
    true
}

/// The bytes of one lost shard: a row of the inverse applied to the survivors.
fn solve_shard(
    g: &Gf256,
    row: &Vec<u8>,
    list: &Vec<usize>,
    shards: &[Option<Vec<u8>>],
    len: usize,
) -> (out: Vec<u8>)
    requires
        row.len() <= list.len(),
        forall|r: int|
            0 <= r < list.len() ==> (#[trigger] list@[r]) < shards.len()
                && shards@[list@[r] as int] is Some,
    ensures
        out.len() == len,
        forall|b: int|
            0 <= b < len ==> #[trigger] out@[b] == dot(
                row@,
                Seq::new(row@.len(), |r: int| byte_at(shards@[list@[r] as int]->0@, b)),
            ),
{
    let ghost columns = |b: int|
        Seq::new(row@.len(), |r: int| byte_at(shards@[list@[r] as int]->0@, b));
    let mut out: Vec<u8> = Vec::with_capacity(len);
    let mut n: usize = 0;
    while n < len
        invariant
            n <= len,
            out.len() == n,
            forall|b: int| 0 <= b < n ==> #[trigger] out@[b] == 0,
        decreases len - n,
    {
        out.push(0);
        n += 1;
    }
    let mut r: usize = 0;
    while r < row.len()
        invariant
            r <= row.len() <= list.len(),
            out.len() == len,
            columns == (|b: int|
                Seq::new(row@.len(), |r: int| byte_at(shards@[list@[r] as int]->0@, b))),
            forall|q: int|
                0 <= q < list.len() ==> (#[trigger] list@[q]) < shards.len()
                    && shards@[list@[q] as int] is Some,
            forall|b: int|
                0 <= b < len ==> #[trigger] out@[b] == dot_first(row@, columns(b), r as nat),
        decreases row.len() - r,
    {
        let coeff: u8 = row[r];
        assert(list@[r as int] < shards.len());
        let ghost before = out@;
        if let Some(src) = &shards[list[r]] {
            if coeff != 0 {
                let mut b: usize = 0;
                while b < len && b < src.len()
                    invariant
                        b <= len,
                        b <= src.len(),
                        r < row.len(),
                        out.len() == len,
                        before.len() == len,
                        coeff == row@[r as int],
                        src@ == shards@[list@[r as int] as int]->0@,
                        columns == (|b: int|
                            Seq::new(
                                row@.len(),
                                |r: int| byte_at(shards@[list@[r] as int]->0@, b),
                            )),
                        forall|p: int| b <= p < len ==> #[trigger] out@[p] == before[p],
                        forall|p: int|
                            0 <= p < b ==> #[trigger] out@[p] == before[p] ^ gf_mul(
                                coeff,
                                columns(p)[r as int],
                            ),
                    decreases len - b,
                {
                    let value: u8 = out[b] ^ g.mul(coeff, src[b]);
                    out[b] = value;
                    b += 1;
                }
                assert forall|p: int| 0 <= p < len implies #[trigger] out@[p] == before[p]
                    ^ gf_mul(coeff, columns(p)[r as int]) by {
                    lemma_mul_zero_one(coeff);
                    lemma_add(before[p], 0, 0);
                }
            } else {
                assert forall|p: int| 0 <= p < len implies #[trigger] out@[p] == before[p]
                    ^ gf_mul(coeff, columns(p)[r as int]) by {
                    lemma_mul_zero_one(columns(p)[r as int]);
                    lemma_add(before[p], 0, 0);
                }
            }
        }
        r += 1;
    }
    out
}

/// The inverse of the survivors' matrix yields a recovery.
proof fn lemma_solution(
    data: nat,
    parity: nat,
    s: Seq<Option<Seq<u8>>>,
    e: Seq<Seq<u8>>,
    after: Seq<Option<Seq<u8>>>,
)
    requires
        data + parity <= s.len(),
        present_count(s) >= data,
        inverse_of(e, survivor_matrix(data, parity, s)),
        after.len() == s.len(),
        forall|i: int|
            0 <= i < s.len() && (i >= data || s[i] is Some) ==> #[trigger] after[i] == s[i],
        forall|i: int|
            0 <= i < data && s[i] is None ==> {
                &&& #[trigger] after[i] is Some
                &&& after[i]->0.len() == shard_length(s)
                &&& forall|b: int|
                    0 <= b < shard_length(s) ==> #[trigger] after[i]->0[b] == dot(
                        e[i],
                        survivor_column(data, s, b),
                    )
            },
    ensures
        is_recovery(data, parity, s, after),
{
    let m = survivor_matrix(data, parity, s);
    assert forall|b: int| 0 <= b < shard_length(s) implies mat_vec(
        m,
        #[trigger] data_column(data, after, b),
    ) == survivor_column(data, s, b) by {
        let p = survivor_column(data, s, b);
        let x = mat_vec(e, p);
        assert(mat_vec(e, mat_vec(m, p)) == p);
        assert(mat_vec(m, x) == p);
        assert forall|i: int| 0 <= i < data implies data_column(data, after, b)[i] == x[i] by {
            if s[i] is Some {
                assert(after[i] == s[i]);
                lemma_survivor_rank(s, s.len(), i);
                lemma_survivors(s, i as nat);
                let r = survivors(s, i as nat).len() as int;
                assert(mat_vec(m, x)[r] == dot(m[r], x));
                assert(m[r] == unit(data, i));
                lemma_dot_unit(x, data, i, data);
            } else {
                assert(after[i] is Some);
                assert(after[i]->0[b] == dot(e[i], p));
            }
        }
        assert(data_column(data, after, b) =~= x);
    }
}

/// Recover the missing data shards of one block from the shards that are present.
///
/// `shards` holds the data shards followed by the parity shards, `None` for a lost one. On
/// success every data shard is present; otherwise nothing changes.
pub fn recover(
    data_shards: usize,
    parity_shards: usize,
    shards: &mut [Option<Vec<u8>>],
) -> (r: bool)
    requires
        data_shards + parity_shards <= usize::MAX,
    ensures
        r == recoverable(data_shards as nat, parity_shards as nat, contents(old(shards)@)),
        contents(final(shards)@) == if r {
            recovered(data_shards as nat, parity_shards as nat, contents(old(shards)@))
        } else {
            contents(old(shards)@)
        },
        final(shards)@.len() == old(shards)@.len(),
        r ==> data_complete(contents(final(shards)@), data_shards as nat),
{
    let k: usize = data_shards;
    let ghost s = contents(shards@);
    let ghost (data, parity) = (data_shards as nat, parity_shards as nat);
    let list: Vec<usize> = list_survivors(shards);
    if shards.len() < k + parity_shards || list.len() < k {
        return false;
    }
    if all_present(shards, k) {
        return true;
    }
    proof {
        lemma_survivors(s, s.len());
    }
    assert(list@[0] == survivors(s, s.len())[0]);
    let len: usize = match &shards[list[0]] {
        Some(first) => first.len(),
        None => 0,
    };
    assert(len == shard_length(s));
    let g: Gf256 = Gf256::build();
    let mut mat: Vec<Vec<u8>> = Vec::with_capacity(k);
    let ghost m = survivor_matrix(data, parity, s);
    let mut r: usize = 0;
    while r < k
        invariant
            r <= k <= list.len(),
            k == data_shards,
            data == data_shards,
            parity == parity_shards,
            data_shards + parity_shards <= usize::MAX,
            mat.len() == r,
            m == survivor_matrix(data, parity, s),
            rows(mat@) == m.take(r as int),
            forall|p: int|
                0 <= p < list.len() ==> #[trigger] list@[p] == survivors(s, s.len())[p],
        decreases k - r,
    {
        assert(list@[r as int] == survivors(s, s.len())[r as int]);
        let row: Vec<u8> = build_row(&g, k, parity_shards, list[r]);
        push_row(&mut mat, row);
        r += 1;
        assert(m.take(r as int) =~= m.take(r - 1).push(m[r - 1]));
    }
    assert(m.take(k as int) =~= m);
    let inverse: Vec<Vec<u8>> = match invert(&g, &mat) {
        Some(e) => e,
        None => {
            return false;
        },
    };
    let ghost e = rows(inverse@);
    let mut d: usize = 0;
    while d < k
        invariant
            d <= k <= list.len(),
            k == data_shards,
            data == data_shards,
            parity == parity_shards,
            s == contents(old(shards)@),
            shards@.len() == s.len(),
            data + parity <= s.len(),
            len == shard_length(s),
            list.len() == present_count(s),
            inverse.len() == k,
            e == rows(inverse@),
            square(e, data),
            forall|p: int|
                0 <= p < list.len() ==> #[trigger] list@[p] == survivors(s, s.len())[p],
            forall|p: int|
                0 <= p < list.len() ==> (#[trigger] list@[p]) < s.len() && s[list@[p] as int] is Some,
            forall|i: int|
                0 <= i < s.len() && (i >= d || s[i] is Some) ==> #[trigger] contents(shards@)[i]
                    == s[i],
            forall|i: int|
                0 <= i < d && s[i] is None ==> {
                    &&& #[trigger] contents(shards@)[i] is Some
                    &&& contents(shards@)[i]->0.len() == shard_length(s)
                    &&& forall|b: int|
                        0 <= b < shard_length(s) ==> #[trigger] contents(shards@)[i]->0[b] == dot(
                            e[i],
                            survivor_column(data, s, b),
                        )
                },
        decreases k - d,
    {
        assert(contents(shards@)[d as int] == s[d as int]);
        if shards[d].is_none() {
            assert forall|p: int| 0 <= p < list.len() implies (#[trigger] list@[p]) < shards.len()
                && shards@[list@[p] as int] is Some by {
                assert(contents(shards@)[list@[p] as int] == s[list@[p] as int]);
            }
            assert(inverse@[d as int]@ == e[d as int]);
            let out: Vec<u8> = solve_shard(&g, &inverse[d], &list, shards, len);
            proof {
                assert forall|b: int| 0 <= b < len implies #[trigger] out@[b] == dot(
                    e[d as int],
                    survivor_column(data, s, b),
                ) by {
                    let col = Seq::new(
                        data,
                        |r: int| byte_at(shards@[list@[r] as int]->0@, b),
                    );
                    assert forall|q: int| 0 <= q < data implies col[q] == survivor_column(
                        data,
                        s,
                        b,
                    )[q] by {
                        assert(list@[q] == survivors(s, s.len())[q]);
                        assert(contents(shards@)[list@[q] as int] == s[list@[q] as int]);
                    }
                    assert(col =~= survivor_column(data, s, b));
                    assert(inverse@[d as int]@.len() == data);
                }
            }
            let ghost before = contents(shards@);
            let ghost bytes = out@;
            shards[d] = Some(out);
            assert(contents(shards@) =~= before.update(d as int, Some(bytes)));
        }
        d += 1;
    }
    proof {
        let after = contents(shards@);
        lemma_solution(data, parity, s, e, after);
        lemma_recovery_unique(data, parity, s, after, recovered(data, parity, s));
        assert(data_complete(after, data));
    }
    true
}

} // verus!
