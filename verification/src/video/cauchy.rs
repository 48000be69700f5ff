//! Cauchy matrices over GF(2^8) have no singular square part.
use vstd::prelude::*;

use crate::video::gf256::{
    gf_inv, gf_mul, lemma_add, lemma_inverse, lemma_mul_associates, lemma_mul_commutes,
    lemma_mul_distributes, lemma_mul_distributes_left, lemma_mul_zero_one, lemma_no_zero_divisors,
};
use crate::video::matrix::{dot, dot_first, lemma_add_exchange, lemma_dot_same, lemma_dot_zeros};

verus! {

/// The row of the Cauchy matrix of `us` that belongs to `v`: the inverses of `us[i] + v`.
pub open spec fn cauchy_row(us: Seq<u8>, v: u8) -> Seq<u8> {
    Seq::new(us.len(), |i: int| gf_inv(us[i] ^ v))
}

/// The sum over the rows `p` and `q` of one term, without the pole at `u`.
proof fn lemma_term(p: u8, q: u8, ip: u8, iq: u8, d: u8, x: u8)
    requires
        gf_mul(p, ip) == 1,
        gf_mul(q, iq) == 1,
    ensures
        gf_mul(p ^ d, gf_mul(ip, x)) ^ gf_mul(q ^ d, gf_mul(iq, x)) == gf_mul(
            p ^ q,
            gf_mul(ip, gf_mul(gf_mul(x, d), iq)),
        ),
{
    let w = gf_mul(x, d);
    let z = gf_mul(w, iq);
    let px = gf_mul(d, gf_mul(ip, x));
    let qx = gf_mul(d, gf_mul(iq, x));
    lemma_mul_zero_one(x);
    lemma_mul_zero_one(z);
    lemma_mul_zero_one(w);
    // (p + d) * ip * x = x + d * ip * x, and the same for q.
    lemma_mul_distributes_left(p, d, gf_mul(ip, x));
    lemma_mul_associates(p, ip, x);
    lemma_mul_distributes_left(q, d, gf_mul(iq, x));
    lemma_mul_associates(q, iq, x);
    assert((x ^ px) ^ (x ^ qx) == px ^ qx) by (bit_vector);
    // p * ip * z = z = d * iq * x.
    lemma_mul_distributes_left(p, q, gf_mul(ip, z));
    lemma_mul_associates(p, ip, z);
    assert(z == qx) by {
        lemma_mul_commutes(x, d);
        lemma_mul_associates(d, x, iq);
        lemma_mul_commutes(x, iq);
    }
    // q * ip * z = ip * w = d * ip * x.
    assert(gf_mul(q, gf_mul(ip, z)) == px) by {
        lemma_mul_commutes(w, iq);
        lemma_mul_commutes(ip, z);
        lemma_mul_associates(q, z, ip);
        lemma_mul_associates(q, iq, w);
        lemma_mul_associates(x, d, ip);
        lemma_mul_commutes(d, ip);
        lemma_mul_commutes(x, gf_mul(ip, d));
        lemma_mul_commutes(ip, d);
        lemma_mul_associates(d, ip, x);
    }
    lemma_add(px, qx, 0);
}

/// The coefficients left after the last unknown is eliminated with the row of `w`.
spec fn eliminated(us: Seq<u8>, xs: Seq<u8>, w: u8) -> Seq<u8> {
    Seq::new(
        us.len(),
        |i: int| gf_mul(gf_mul(xs[i], us.last() ^ us[i]), gf_inv(us[i] ^ w)),
    )
}

proof fn lemma_eliminate(us: Seq<u8>, xs: Seq<u8>, v: u8, w: u8, n: nat)
    requires
        us.len() == xs.len(),
        us.len() > 0,
        n <= us.len(),
        forall|i: int| 0 <= i < us.len() ==> #[trigger] us[i] != v && us[i] != w,
    ensures
        gf_mul(us.last() ^ v, dot_first(cauchy_row(us, v), xs, n)) ^ gf_mul(
            us.last() ^ w,
            dot_first(cauchy_row(us, w), xs, n),
        ) == gf_mul(v ^ w, dot_first(cauchy_row(us, v), eliminated(us, xs, w), n)),
    decreases n,
{
    let un = us.last();
    if n == 0 {
        lemma_mul_zero_one(un ^ v);
        lemma_mul_zero_one(un ^ w);
        lemma_mul_zero_one(v ^ w);
        lemma_add(0, 0, 0);
    } else {
        let m = (n - 1) as nat;
        lemma_eliminate(us, xs, v, w, m);
        let u = us[n - 1];
        let x = xs[n - 1];
        let (p, q, d) = (u ^ v, u ^ w, un ^ u);
        lemma_add(u, v, 0);
        lemma_add(u, w, 0);
        lemma_inverse(p);
        lemma_inverse(q);
        lemma_term(p, q, gf_inv(p), gf_inv(q), d, x);
        assert((u ^ v) ^ (un ^ u) == un ^ v && (u ^ w) ^ (un ^ u) == un ^ w && (u ^ v) ^ (u ^ w)
            == v ^ w) by (bit_vector);
        let (a, b) = (dot_first(cauchy_row(us, v), xs, m), dot_first(cauchy_row(us, w), xs, m));
        let y = eliminated(us, xs, w);
        lemma_mul_distributes(un ^ v, a, gf_mul(gf_inv(p), x));
        lemma_mul_distributes(un ^ w, b, gf_mul(gf_inv(q), x));
        lemma_mul_distributes(
            v ^ w,
            dot_first(cauchy_row(us, v), y, m),
            gf_mul(gf_inv(p), y[n - 1]),
        );
        lemma_add_exchange(
            gf_mul(un ^ v, a),
            gf_mul(un ^ v, gf_mul(gf_inv(p), x)),
            gf_mul(un ^ w, b),
            gf_mul(un ^ w, gf_mul(gf_inv(q), x)),
        );
    }
}

/// A Cauchy system with as many equations as unknowns has only the solution zero: if
/// `us[i] + vs[j]` is never zero and neither list repeats an element, and the rows of all `vs`
/// map `xs` to zero, then `xs` is zero.
pub proof fn lemma_cauchy(us: Seq<u8>, vs: Seq<u8>, xs: Seq<u8>)
    requires
        us.len() == vs.len(),
        us.len() == xs.len(),
        us.no_duplicates(),
        vs.no_duplicates(),
        forall|i: int, j: int|
            0 <= i < us.len() && 0 <= j < vs.len() ==> #[trigger] us[i] != #[trigger] vs[j],
        forall|j: int|
            0 <= j < vs.len() ==> dot(cauchy_row(us, #[trigger] vs[j]), xs) == 0,
    ensures
        forall|i: int| 0 <= i < xs.len() ==> #[trigger] xs[i] == 0,
    decreases us.len(),
{
    let n = us.len();
    if n > 0 {
        let m = (n - 1) as nat;
        let w = vs[m as int];
        let un = us.last();
        let y = eliminated(us, xs, w);
        let (us1, vs1, y1) = (us.take(m as int), vs.take(m as int), y.take(m as int));
        assert(dot(cauchy_row(us, w), xs) == 0);
        assert(y[m as int] == 0) by {
            lemma_add(un, un, 0);
            lemma_mul_zero_one(xs[m as int]);
            lemma_mul_zero_one(gf_inv(un ^ w));
        }
        assert forall|j: int| 0 <= j < m implies dot(cauchy_row(us1, #[trigger] vs1[j]), y1)
            == 0 by {
            let v = vs[j];
            assert(vs1[j] == v);
            assert(dot(cauchy_row(us, v), xs) == 0);
            lemma_eliminate(us, xs, v, w, n);
            lemma_mul_zero_one(un ^ v);
            lemma_mul_zero_one(un ^ w);
            lemma_add(0, 0, 0);
            lemma_add(v, w, 0);
            lemma_no_zero_divisors(v ^ w, dot_first(cauchy_row(us, v), y, n));
            lemma_mul_zero_one(cauchy_row(us, v)[m as int]);
            lemma_add(dot_first(cauchy_row(us, v), y, m), 0, 0);
            lemma_dot_same(cauchy_row(us, v), y, cauchy_row(us1, v), y1, m);
        }
        assert forall|i: int, j: int| 0 <= i < m && 0 <= j < m implies #[trigger] us1[i]
            != #[trigger] vs1[j] by {
            assert(us[i] != vs[j]);
        }
        lemma_cauchy(us1, vs1, y1);
        assert forall|i: int| 0 <= i < m implies #[trigger] xs[i] == 0 by {
            assert(y1[i] == 0);
            assert(us[i] != w);
            lemma_add(us[i], w, 0);
            lemma_inverse(us[i] ^ w);
            lemma_add(un, us[i], 0);
            lemma_no_zero_divisors(gf_mul(xs[i], un ^ us[i]), gf_inv(us[i] ^ w));
            lemma_no_zero_divisors(xs[i], un ^ us[i]);
        }
        let row = cauchy_row(us, w);
        lemma_dot_zeros(row, xs, m);
        lemma_add(gf_mul(row[m as int], xs[m as int]), 0, 0);
        assert(us[m as int] != w);
        lemma_add(us[m as int], w, 0);
        lemma_inverse(us[m as int] ^ w);
        lemma_no_zero_divisors(row[m as int], xs[m as int]);
    }
}

} // verus!
