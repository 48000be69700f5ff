//! Square matrices over GF(2^8) and their inverses.
use vstd::prelude::*;

use crate::video::gf256::{
    gf_mul, lemma_add, lemma_inverse, lemma_mul_associates, lemma_mul_commutes,
    lemma_mul_distributes, lemma_mul_distributes_left, lemma_mul_zero_one, lemma_no_zero_divisors,
    Gf256,
};

verus! {

/// The sum of the products of the first `n` entries.
pub open spec fn dot_first(a: Seq<u8>, b: Seq<u8>, n: nat) -> u8
    decreases n,
{
    if n == 0 {
        0
    } else {
        dot_first(a, b, (n - 1) as nat) ^ gf_mul(a[n - 1], b[n - 1])
    }
}

/// The inner product of two vectors of one length.
pub open spec fn dot(a: Seq<u8>, b: Seq<u8>) -> u8 {
    dot_first(a, b, a.len())
}

/// The product of a matrix and a column vector.
pub open spec fn mat_vec(m: Seq<Seq<u8>>, v: Seq<u8>) -> Seq<u8> {
    Seq::new(m.len(), |r: int| dot(m[r], v))
}

/// The vector of `k` zeros.
pub open spec fn zeros(k: nat) -> Seq<u8> {
    Seq::new(k, |i: int| 0u8)
}

/// The vector of length `k` with one at place `i` and zero elsewhere.
pub open spec fn unit(k: nat, i: int) -> Seq<u8> {
    Seq::new(k, |j: int| if j == i { 1u8 } else { 0u8 })
}

/// `m` has `k` rows of `k` entries.
pub open spec fn square(m: Seq<Seq<u8>>, k: nat) -> bool {
    m.len() == k && forall|r: int| 0 <= r < k ==> (#[trigger] m[r]).len() == k
}

/// Some vector other than zero is mapped to zero.
pub open spec fn singular(m: Seq<Seq<u8>>) -> bool {
    exists|v: Seq<u8>|
        v.len() == m.len() && #[trigger] mat_vec(m, v) == zeros(m.len()) && v != zeros(m.len())
}

/// `e` undoes `a`, and `a` undoes `e`.
pub open spec fn inverse_of(e: Seq<Seq<u8>>, a: Seq<Seq<u8>>) -> bool {
    &&& square(e, a.len())
    &&& forall|v: Seq<u8>|
        v.len() == a.len() ==> {
            &&& mat_vec(e, #[trigger] mat_vec(a, v)) == v
            &&& mat_vec(a, mat_vec(e, v)) == v
        }
}

/// `a` with every entry multiplied by `p`.
pub open spec fn scaled(a: Seq<u8>, p: u8) -> Seq<u8> {
    Seq::new(a.len(), |i: int| gf_mul(a[i], p))
}

/// The sum of `a` and `f` times `b`.
pub open spec fn combined(a: Seq<u8>, f: u8, b: Seq<u8>) -> Seq<u8> {
    Seq::new(a.len(), |i: int| a[i] ^ gf_mul(f, b[i]))
}

/// The contents of a matrix of vectors.
pub open spec fn rows(m: Seq<Vec<u8>>) -> Seq<Seq<u8>> {
    m.map_values(|r: Vec<u8>| r@)
}

/// Only the first `n` entries count.
pub proof fn lemma_dot_same(a: Seq<u8>, b: Seq<u8>, c: Seq<u8>, d: Seq<u8>, n: nat)
    requires
        forall|i: int| 0 <= i < n ==> #[trigger] a[i] == c[i],
        forall|i: int| 0 <= i < n ==> #[trigger] b[i] == d[i],
    ensures
        dot_first(a, b, n) == dot_first(c, d, n),
    decreases n,
{
    if n > 0 {
        lemma_dot_same(a, b, c, d, (n - 1) as nat);
        assert(a[n - 1] == c[n - 1]);
        assert(b[n - 1] == d[n - 1]);
    }
}

/// The inner product does not depend on the order of its factors.
pub proof fn lemma_dot_commutes(a: Seq<u8>, b: Seq<u8>, n: nat)
    ensures
        dot_first(a, b, n) == dot_first(b, a, n),
    decreases n,
{
    if n > 0 {
        lemma_dot_commutes(a, b, (n - 1) as nat);
        lemma_mul_commutes(a[n - 1], b[n - 1]);
    }
}

/// Scaling a vector scales its inner products.
pub proof fn lemma_dot_scaled(a: Seq<u8>, p: u8, v: Seq<u8>, n: nat)
    requires
        n <= a.len(),
    ensures
        dot_first(scaled(a, p), v, n) == gf_mul(p, dot_first(a, v, n)),
    decreases n,
{
    if n == 0 {
        lemma_mul_zero_one(p);
    } else {
        lemma_dot_scaled(a, p, v, (n - 1) as nat);
        let x = a[n - 1];
        let y = v[n - 1];
        lemma_mul_commutes(x, p);
        lemma_mul_associates(p, x, y);
        lemma_mul_distributes(p, dot_first(a, v, (n - 1) as nat), gf_mul(x, y));
    }
}

/// The inner product distributes over a combination of vectors.
pub proof fn lemma_dot_combined(a: Seq<u8>, f: u8, b: Seq<u8>, v: Seq<u8>, n: nat)
    requires
        n <= a.len(),
        n <= b.len(),
    ensures
        dot_first(combined(a, f, b), v, n) == dot_first(a, v, n) ^ gf_mul(f, dot_first(b, v, n)),
    decreases n,
{
    if n == 0 {
        lemma_mul_zero_one(f);
        lemma_add(0, 0, 0);
    } else {
        let m = (n - 1) as nat;
        lemma_dot_combined(a, f, b, v, m);
        let (x, y, z) = (a[n - 1], b[n - 1], v[n - 1]);
        lemma_mul_distributes_left(x, gf_mul(f, y), z);
        lemma_mul_associates(f, y, z);
        lemma_mul_distributes(f, dot_first(b, v, m), gf_mul(y, z));
        lemma_add_exchange(
            dot_first(a, v, m),
            gf_mul(f, dot_first(b, v, m)),
            gf_mul(x, z),
            gf_mul(f, gf_mul(y, z)),
        );
    }
}

/// A sum of two sums may be taken in pairs.
pub proof fn lemma_add_exchange(a: u8, b: u8, c: u8, d: u8)
    ensures
        (a ^ b) ^ (c ^ d) == (a ^ c) ^ (b ^ d),
{
    assert((a ^ b) ^ (c ^ d) == (a ^ c) ^ (b ^ d)) by (bit_vector);
}

/// The inner product with a unit vector is an entry.
pub proof fn lemma_dot_unit(v: Seq<u8>, k: nat, i: int, n: nat)
    requires
        n <= k,
        0 <= i,
    ensures
        dot_first(unit(k, i), v, n) == if i < n { v[i] } else { 0u8 },
    decreases n,
{
    if n > 0 {
        lemma_dot_unit(v, k, i, (n - 1) as nat);
        lemma_mul_zero_one(v[n - 1]);
        lemma_add(v[n - 1], 0, 0);
        lemma_add(dot_first(unit(k, i), v, (n - 1) as nat), 0, 0);
    }
}

/// The inner product with zero is zero.
pub proof fn lemma_dot_zeros(a: Seq<u8>, v: Seq<u8>, n: nat)
    requires
        forall|i: int| 0 <= i < n ==> #[trigger] v[i] == 0,
    ensures
        dot_first(a, v, n) == 0,
    decreases n,
{
    if n > 0 {
        lemma_dot_zeros(a, v, (n - 1) as nat);
        assert(v[n - 1] == 0);
        lemma_mul_zero_one(a[n - 1]);
        lemma_add(0, 0, 0);
    }
}

/// The vector that `m` maps to zero, entry by entry.
pub open spec fn maps_to_zero(m: Seq<Seq<u8>>, v: Seq<u8>) -> bool {
    forall|r: int| 0 <= r < m.len() ==> #[trigger] dot(m[r], v) == 0
}

/// `m` and `e` come from `a` and the identity by the same invertible row operations.
spec fn reduced(a: Seq<Seq<u8>>, m: Seq<Seq<u8>>, e: Seq<Seq<u8>>) -> bool {
    let k = a.len();
    &&& square(a, k)
    &&& square(m, k)
    &&& square(e, k)
    &&& forall|v: Seq<u8>, r: int|
        v.len() == k && 0 <= r < k ==> #[trigger] dot(m[r], v) == dot(e[r], mat_vec(a, v))
    &&& forall|v: Seq<u8>| v.len() == k && #[trigger] maps_to_zero(m, v) ==> maps_to_zero(a, v)
    &&& forall|v: Seq<u8>| v.len() == k && #[trigger] maps_to_zero(e, v) ==> v == zeros(k)
}

/// The rows `i` and `j` exchanged.
pub open spec fn swapped(m: Seq<Seq<u8>>, i: int, j: int) -> Seq<Seq<u8>> {
    m.update(i, m[j]).update(j, m[i])
}

proof fn lemma_start(a: Seq<Seq<u8>>, e: Seq<Seq<u8>>)
    requires
        square(a, a.len()),
        e.len() == a.len(),
        forall|r: int| 0 <= r < a.len() ==> #[trigger] e[r] == unit(a.len(), r),
    ensures
        reduced(a, a, e),
{
    let k = a.len();
    assert forall|v: Seq<u8>, r: int| v.len() == k && 0 <= r < k implies #[trigger] dot(a[r], v)
        == dot(e[r], mat_vec(a, v)) by {
        lemma_dot_unit(mat_vec(a, v), k, r, k);
    }
    assert forall|v: Seq<u8>| v.len() == k && #[trigger] maps_to_zero(e, v) implies v == zeros(
        k,
    ) by {
        assert forall|r: int| 0 <= r < k implies v[r] == 0 by {
            lemma_dot_unit(v, k, r, k);
            assert(dot(e[r], v) == 0);
        }
        assert(v =~= zeros(k));
    }
}

proof fn lemma_swap_maps(m: Seq<Seq<u8>>, i: int, j: int, v: Seq<u8>)
    requires
        0 <= i < m.len(),
        0 <= j < m.len(),
        maps_to_zero(swapped(m, i, j), v),
    ensures
        maps_to_zero(m, v),
{
    let s = swapped(m, i, j);
    assert forall|r: int| 0 <= r < m.len() implies #[trigger] dot(m[r], v) == 0 by {
        if r == i {
            assert(dot(s[j], v) == 0);
        } else if r == j {
            assert(dot(s[i], v) == 0);
        } else {
            assert(dot(s[r], v) == 0);
        }
    }
}

proof fn lemma_swap(a: Seq<Seq<u8>>, m: Seq<Seq<u8>>, e: Seq<Seq<u8>>, i: int, j: int)
    requires
        reduced(a, m, e),
        0 <= i < a.len(),
        0 <= j < a.len(),
    ensures
        reduced(a, swapped(m, i, j), swapped(e, i, j)),
{
    let (m2, e2) = (swapped(m, i, j), swapped(e, i, j));
    assert forall|v: Seq<u8>, r: int| v.len() == a.len() && 0 <= r < a.len() implies #[trigger] dot(
        m2[r],
        v,
    ) == dot(e2[r], mat_vec(a, v)) by {
        assert(dot(m[i], v) == dot(e[i], mat_vec(a, v)));
        assert(dot(m[j], v) == dot(e[j], mat_vec(a, v)));
        assert(dot(m[r], v) == dot(e[r], mat_vec(a, v)));
    }
    assert forall|v: Seq<u8>| v.len() == a.len() && #[trigger] maps_to_zero(m2, v) implies
        maps_to_zero(a, v) by {
        lemma_swap_maps(m, i, j, v);
    }
    assert forall|v: Seq<u8>| v.len() == a.len() && #[trigger] maps_to_zero(e2, v) implies v
        == zeros(a.len()) by {
        lemma_swap_maps(e, i, j, v);
    }
}

proof fn lemma_scale_maps(m: Seq<Seq<u8>>, i: int, p: u8, v: Seq<u8>)
    requires
        0 <= i < m.len(),
        p != 0,
        maps_to_zero(m.update(i, scaled(m[i], p)), v),
    ensures
        maps_to_zero(m, v),
{
    let s = m.update(i, scaled(m[i], p));
    assert forall|r: int| 0 <= r < m.len() implies #[trigger] dot(m[r], v) == 0 by {
        assert(dot(s[r], v) == 0);
        if r == i {
            lemma_dot_scaled(m[i], p, v, m[i].len());
            lemma_no_zero_divisors(p, dot(m[i], v));
        }
    }
}

proof fn lemma_scale(a: Seq<Seq<u8>>, m: Seq<Seq<u8>>, e: Seq<Seq<u8>>, i: int, p: u8)
    requires
        reduced(a, m, e),
        0 <= i < a.len(),
        p != 0,
    ensures
        reduced(a, m.update(i, scaled(m[i], p)), e.update(i, scaled(e[i], p))),
{
    let (m2, e2) = (m.update(i, scaled(m[i], p)), e.update(i, scaled(e[i], p)));
    assert forall|v: Seq<u8>, r: int| v.len() == a.len() && 0 <= r < a.len() implies #[trigger] dot(
        m2[r],
        v,
    ) == dot(e2[r], mat_vec(a, v)) by {
        assert(dot(m[r], v) == dot(e[r], mat_vec(a, v)));
        if r == i {
            lemma_dot_scaled(m[i], p, v, a.len());
            lemma_dot_scaled(e[i], p, mat_vec(a, v), a.len());
        }
    }
    assert forall|v: Seq<u8>| v.len() == a.len() && #[trigger] maps_to_zero(m2, v) implies
        maps_to_zero(a, v) by {
        lemma_scale_maps(m, i, p, v);
    }
    assert forall|v: Seq<u8>| v.len() == a.len() && #[trigger] maps_to_zero(e2, v) implies v
        == zeros(a.len()) by {
        lemma_scale_maps(e, i, p, v);
    }
}

proof fn lemma_combine_maps(m: Seq<Seq<u8>>, r: int, f: u8, i: int, v: Seq<u8>)
    requires
        0 <= i < m.len(),
        0 <= r < m.len(),
        i != r,
        m[i].len() == m[r].len(),
        maps_to_zero(m.update(r, combined(m[r], f, m[i])), v),
    ensures
        maps_to_zero(m, v),
{
    let s = m.update(r, combined(m[r], f, m[i]));
    assert forall|q: int| 0 <= q < m.len() implies #[trigger] dot(m[q], v) == 0 by {
        assert(dot(s[q], v) == 0);
        if q == r {
            assert(dot(s[i], v) == 0);
            lemma_dot_combined(m[r], f, m[i], v, m[r].len());
            lemma_mul_zero_one(f);
            lemma_add(dot(m[r], v), 0, 0);
        }
    }
}

proof fn lemma_combine(a: Seq<Seq<u8>>, m: Seq<Seq<u8>>, e: Seq<Seq<u8>>, r: int, f: u8, i: int)
    requires
        reduced(a, m, e),
        0 <= i < a.len(),
        0 <= r < a.len(),
        i != r,
    ensures
        reduced(
            a,
            m.update(r, combined(m[r], f, m[i])),
            e.update(r, combined(e[r], f, e[i])),
        ),
{
    let m2 = m.update(r, combined(m[r], f, m[i]));
    let e2 = e.update(r, combined(e[r], f, e[i]));
    assert forall|v: Seq<u8>, q: int| v.len() == a.len() && 0 <= q < a.len() implies #[trigger] dot(
        m2[q],
        v,
    ) == dot(e2[q], mat_vec(a, v)) by {
        assert(dot(m[q], v) == dot(e[q], mat_vec(a, v)));
        if q == r {
            assert(dot(m[i], v) == dot(e[i], mat_vec(a, v)));
            lemma_dot_combined(m[r], f, m[i], v, a.len());
            lemma_dot_combined(e[r], f, e[i], mat_vec(a, v), a.len());
        }
    }
    assert forall|v: Seq<u8>| v.len() == a.len() && #[trigger] maps_to_zero(m2, v) implies
        maps_to_zero(a, v) by {
        lemma_combine_maps(m, r, f, i, v);
    }
    assert forall|v: Seq<u8>| v.len() == a.len() && #[trigger] maps_to_zero(e2, v) implies v
        == zeros(a.len()) by {
        lemma_combine_maps(e, r, f, i, v);
    }
}

/// The first `n` columns of `m` are those of the identity.
spec fn cleared(m: Seq<Seq<u8>>, n: int) -> bool {
    forall|r: int, c: int|
        #![trigger m[r][c]]
        0 <= r < m.len() && 0 <= c < n ==> m[r][c] == if r == c { 1u8 } else { 0u8 }
}

/// Without a pivot in column `col` the matrix is singular.
proof fn lemma_no_pivot(a: Seq<Seq<u8>>, m: Seq<Seq<u8>>, e: Seq<Seq<u8>>, col: int)
    requires
        reduced(a, m, e),
        0 <= col < a.len(),
        cleared(m, col),
        forall|r: int| col <= r < a.len() ==> #[trigger] m[r][col] == 0,
    ensures
        singular(a),
{
    let k = a.len();
    let v = Seq::new(
        k,
        |j: int|
            if j < col {
                m[j][col]
            } else if j == col {
                1u8
            } else {
                0u8
            },
    );
    assert forall|r: int| 0 <= r < k implies #[trigger] dot(m[r], v) == 0 by {
        lemma_no_pivot_row(m, v, col, r, k);
    }
    assert(maps_to_zero(m, v));
    assert(maps_to_zero(a, v));
    assert(mat_vec(a, v) =~= zeros(k));
    assert(v[col] != zeros(k)[col]);
}

proof fn lemma_no_pivot_row(m: Seq<Seq<u8>>, v: Seq<u8>, col: int, r: int, n: nat)
    requires
        square(m, m.len()),
        0 <= col < m.len(),
        0 <= r < m.len(),
        n <= m.len(),
        cleared(m, col),
        forall|q: int| col <= q < m.len() ==> #[trigger] m[q][col] == 0,
        v.len() == m.len(),
        forall|j: int|
            0 <= j < m.len() ==> #[trigger] v[j] == if j < col {
                m[j][col]
            } else if j == col {
                1u8
            } else {
                0u8
            },
    ensures
        dot_first(m[r], v, n) == if n <= col && r < n {
            m[r][col]
        } else {
            0u8
        },
    decreases n,
{
    if n > 0 {
        lemma_no_pivot_row(m, v, col, r, (n - 1) as nat);
        let x = m[r][n - 1];
        let y = v[n - 1];
        lemma_mul_zero_one(x);
        lemma_mul_zero_one(y);
        lemma_add(x, x, x);
        lemma_add(y, y, y);
        lemma_add(dot_first(m[r], v, (n - 1) as nat), 0, 0);
    }
}

/// Once every column is cleared, `e` is the inverse of `a`.
proof fn lemma_inverted(a: Seq<Seq<u8>>, m: Seq<Seq<u8>>, e: Seq<Seq<u8>>)
    requires
        reduced(a, m, e),
        cleared(m, a.len() as int),
    ensures
        inverse_of(e, a),
{
    let k = a.len();
    assert forall|v: Seq<u8>| v.len() == k implies mat_vec(e, #[trigger] mat_vec(a, v)) == v by {
        assert forall|r: int| 0 <= r < k implies dot(e[r], mat_vec(a, v)) == v[r] by {
            assert(dot(m[r], v) == dot(e[r], mat_vec(a, v)));
            assert(m[r] =~= unit(k, r));
            lemma_dot_unit(v, k, r, k);
        }
        assert(mat_vec(e, mat_vec(a, v)) =~= v);
    }
    assert forall|p: Seq<u8>| p.len() == k implies mat_vec(a, mat_vec(e, p)) == p by {
        let x = mat_vec(e, p);
        let q = mat_vec(a, x);
        assert(mat_vec(e, q) == x);
        let d = combined(q, 1, p);
        assert forall|r: int| 0 <= r < k implies #[trigger] dot(e[r], d) == 0 by {
            lemma_dot_commutes(e[r], d, k);
            lemma_dot_combined(q, 1, p, e[r], k);
            lemma_dot_commutes(q, e[r], k);
            lemma_dot_commutes(p, e[r], k);
            assert(mat_vec(e, q)[r] == dot(e[r], q));
            assert(mat_vec(e, p)[r] == dot(e[r], p));
            lemma_mul_zero_one(dot(e[r], p));
            lemma_add(x[r], x[r], 0);
        }
        assert(maps_to_zero(e, d));
        assert(d == zeros(k));
        assert forall|i: int| 0 <= i < k implies q[i] == p[i] by {
            assert(d[i] == 0);
            lemma_mul_zero_one(p[i]);
            lemma_add(q[i], p[i], 0);
        }
        assert(q =~= p);
    }
}

/// A matrix with an inverse is not singular.
pub proof fn lemma_inverse_not_singular(e: Seq<Seq<u8>>, a: Seq<Seq<u8>>)
    requires
        inverse_of(e, a),
    ensures
        !singular(a),
{
    let k = a.len();
    assert forall|v: Seq<u8>|
        v.len() == k && #[trigger] mat_vec(a, v) == zeros(k) implies v == zeros(k) by {
        let z = zeros(k);
        assert(mat_vec(e, mat_vec(a, v)) == v);
        assert forall|r: int| 0 <= r < k implies mat_vec(e, z)[r] == 0 by {
            lemma_dot_zeros(e[r], z, k);
        }
        assert(mat_vec(e, z) =~= z);
    }
}

/// A matrix that is not singular maps distinct vectors to distinct vectors.
pub proof fn lemma_not_singular_injective(m: Seq<Seq<u8>>, u: Seq<u8>, v: Seq<u8>)
    requires
        square(m, m.len()),
        !singular(m),
        u.len() == m.len(),
        v.len() == m.len(),
        mat_vec(m, u) == mat_vec(m, v),
    ensures
        u == v,
{
    let k = m.len();
    let d = combined(u, 1, v);
    assert forall|r: int| 0 <= r < k implies mat_vec(m, d)[r] == 0 by {
        lemma_dot_commutes(m[r], d, k);
        lemma_dot_combined(u, 1, v, m[r], k);
        lemma_dot_commutes(u, m[r], k);
        lemma_dot_commutes(v, m[r], k);
        assert(mat_vec(m, u)[r] == dot(m[r], u));
        assert(mat_vec(m, v)[r] == dot(m[r], v));
        lemma_mul_zero_one(dot(m[r], v));
        lemma_add(dot(m[r], u), dot(m[r], v), 0);
    }
    assert(mat_vec(m, d) =~= zeros(k));
    assert(d == zeros(k));
    assert forall|i: int| 0 <= i < k implies u[i] == v[i] by {
        assert(d[i] == 0);
        lemma_mul_zero_one(v[i]);
        lemma_add(u[i], v[i], 0);
    }
    assert(u =~= v);
}

/// Every entry multiplied by `p`.
fn scale_row(g: &Gf256, a: &Vec<u8>, p: u8) -> (r: Vec<u8>)
    ensures
        r@ == scaled(a@, p),
{
    let mut out: Vec<u8> = Vec::with_capacity(a.len());
    let mut i: usize = 0;
    while i < a.len()
        invariant
            i <= a.len(),
            out@ == scaled(a@, p).take(i as int),
        decreases a.len() - i,
    {
        out.push(g.mul(a[i], p));
        i += 1;
        assert(scaled(a@, p).take(i as int) =~= scaled(a@, p).take(i - 1).push(
            scaled(a@, p)[i - 1],
        ));
    }
    assert(scaled(a@, p).take(i as int) =~= scaled(a@, p));
    out
}

/// The sum of `a` and `f` times `b`.
fn combine_rows(g: &Gf256, a: &Vec<u8>, f: u8, b: &Vec<u8>) -> (r: Vec<u8>)
    requires
        a.len() == b.len(),
    ensures
        r@ == combined(a@, f, b@),
{
    let mut out: Vec<u8> = Vec::with_capacity(a.len());
    let mut i: usize = 0;
    while i < a.len()
        invariant
            i <= a.len(),
            a.len() == b.len(),
            out@ == combined(a@, f, b@).take(i as int),
        decreases a.len() - i,
    {
        out.push(a[i] ^ g.mul(f, b[i]));
        i += 1;
        assert(combined(a@, f, b@).take(i as int) =~= combined(a@, f, b@).take(i - 1).push(
            combined(a@, f, b@)[i - 1],
        ));
    }
    assert(combined(a@, f, b@).take(i as int) =~= combined(a@, f, b@));
    out
}

/// The unit vector of length `k` at place `i`.
pub fn unit_row(k: usize, i: usize) -> (r: Vec<u8>)
    ensures
        r@ == unit(k as nat, i as int),
{
    let mut out: Vec<u8> = Vec::with_capacity(k);
    let mut j: usize = 0;
    while j < k
        invariant
            j <= k,
            out@ == unit(k as nat, i as int).take(j as int),
        decreases k - j,
    {
        out.push(
            if j == i {
                1
            } else {
                0
            },
        );
        j += 1;
        assert(unit(k as nat, i as int).take(j as int) =~= unit(k as nat, i as int).take(
            j - 1,
        ).push(unit(k as nat, i as int)[j - 1]));
    }
    assert(unit(k as nat, i as int).take(j as int) =~= unit(k as nat, i as int));
    out
}

/// Exchange the rows `i` and `j`.
fn swap_rows(m: &mut Vec<Vec<u8>>, i: usize, j: usize)
    requires
        i < old(m).len(),
        j < old(m).len(),
    ensures
        rows(final(m)@) == swapped(rows(old(m)@), i as int, j as int),
{
    let a: Vec<u8> = m[i].clone();
    let b: Vec<u8> = m[j].clone();
    assert(a@ =~= rows(m@)[i as int]);
    assert(b@ =~= rows(m@)[j as int]);
    m[i] = b;
    m[j] = a;
    assert(rows(m@) =~= swapped(rows(old(m)@), i as int, j as int));
}

/// Replace row `i` of `m`.
fn set_row(m: &mut Vec<Vec<u8>>, i: usize, row: Vec<u8>)
    requires
        i < old(m).len(),
    ensures
        rows(final(m)@) == rows(old(m)@).update(i as int, row@),
{
    m[i] = row;
    assert(rows(m@) =~= rows(old(m)@).update(i as int, row@));
}

/// Add a last row to `m`.
pub fn push_row(m: &mut Vec<Vec<u8>>, row: Vec<u8>)
    ensures
        rows(final(m)@) == rows(old(m)@).push(row@),
        final(m).len() == old(m).len() + 1,
{
    m.push(row);
    assert(rows(m@) =~= rows(old(m)@).push(row@));
}

/// The inverse of a square matrix by Gauss-Jordan elimination; `None` if it is singular.
pub fn invert(g: &Gf256, a: &Vec<Vec<u8>>) -> (r: Option<Vec<Vec<u8>>>)
    requires
        square(rows(a@), a.len() as nat),
    ensures
        r is None <==> singular(rows(a@)),
        r matches Some(e) ==> inverse_of(rows(e@), rows(a@)),
{
    let k: usize = a.len();
    let ghost am = rows(a@);
    let mut m: Vec<Vec<u8>> = Vec::with_capacity(k);
    let mut e: Vec<Vec<u8>> = Vec::with_capacity(k);
    let mut i: usize = 0;
    while i < k
        invariant
            i <= k,
            k == a.len(),
            am == rows(a@),
            rows(m@) == am.take(i as int),
            e.len() == i,
            forall|j: int| 0 <= j < i ==> #[trigger] rows(e@)[j] == unit(k as nat, j),
        decreases k - i,
    {
        let row: Vec<u8> = a[i].clone();
        assert(row@ =~= am[i as int]);
        push_row(&mut m, row);
        let u: Vec<u8> = unit_row(k, i);
        push_row(&mut e, u);
        i += 1;
        assert(rows(m@) =~= am.take(i as int));
    }
    assert(am.take(k as int) =~= am);
    proof {
        lemma_start(am, rows(e@));
    }
    let mut col: usize = 0;
    while col < k
        invariant
            col <= k,
            k == am.len(),
            reduced(am, rows(m@), rows(e@)),
            cleared(rows(m@), col as int),
            m.len() == k,
            e.len() == k,
            am == rows(a@),
        decreases k - col,
    {
        let mut piv: usize = col;
        while piv < k && m[piv][col] == 0
            invariant
                col <= piv <= k,
                col < k,
                k == m.len(),
                square(rows(m@), k as nat),
                forall|r: int| 0 <= r < k ==> (#[trigger] m@[r])@ == rows(m@)[r],
                forall|r: int| col <= r < piv ==> #[trigger] rows(m@)[r][col as int] == 0,
            decreases k - piv,
        {
            assert(m@[piv as int]@ == rows(m@)[piv as int]);
            piv += 1;
        }
        if piv == k {
            proof {
                lemma_no_pivot(am, rows(m@), rows(e@), col as int);
            }
            return None;
        }
        assert(m@[piv as int]@ == rows(m@)[piv as int]);
        if piv != col {
            proof {
                lemma_swap(am, rows(m@), rows(e@), piv as int, col as int);
            }
            swap_rows(&mut m, piv, col);
            swap_rows(&mut e, piv, col);
        }
        assert(m@[col as int]@ == rows(m@)[col as int]);
        let pvi: u8 = g.inverse(m[col][col]);
        let ghost before = rows(m@);
        proof {
            lemma_inverse(before[col as int][col as int]);
            lemma_scale(am, rows(m@), rows(e@), col as int, pvi);
        }
        let mrow: Vec<u8> = scale_row(g, &m[col], pvi);
        let erow: Vec<u8> = scale_row(g, &e[col], pvi);
        set_row(&mut m, col, mrow);
        set_row(&mut e, col, erow);
        proof {
            assert forall|r: int, c: int|
                #![trigger rows(m@)[r][c]]
                0 <= r < k && 0 <= c < col implies rows(m@)[r][c] == if r == c {
                1u8
            } else {
                0u8
            } by {
                assert(before[r][c] == if r == c { 1u8 } else { 0u8 });
                lemma_mul_zero_one(pvi);
            }
        }
        let mut r: usize = 0;
        while r < k
            invariant
                r <= k,
                col < k,
                k == am.len(),
                reduced(am, rows(m@), rows(e@)),
                cleared(rows(m@), col as int),
                m.len() == k,
                e.len() == k,
                rows(m@)[col as int][col as int] == 1,
                forall|q: int|
                    0 <= q < r && q != col ==> #[trigger] rows(m@)[q][col as int] == 0,
            decreases k - r,
        {
            let ghost before = rows(m@);
            assert(m@[r as int]@ == rows(m@)[r as int]);
            assert(m@[col as int]@ == rows(m@)[col as int]);
            assert(e@[r as int]@ == rows(e@)[r as int]);
            assert(e@[col as int]@ == rows(e@)[col as int]);
            if r != col {
                let f: u8 = m[r][col];
                if f != 0 {
                    proof {
                        lemma_combine(am, rows(m@), rows(e@), r as int, f, col as int);
                    }
                    let mrow: Vec<u8> = combine_rows(g, &m[r], f, &m[col]);
                    let erow: Vec<u8> = combine_rows(g, &e[r], f, &e[col]);
                    set_row(&mut m, r, mrow);
                    set_row(&mut e, r, erow);
                    proof {
                        lemma_mul_zero_one(f);
                        lemma_add(f, f, f);
                        assert forall|q: int, c: int|
                            #![trigger rows(m@)[q][c]]
                            0 <= q < k && 0 <= c < col implies rows(m@)[q][c] == if q == c {
                            1u8
                        } else {
                            0u8
                        } by {
                            assert(before[q][c] == if q == c { 1u8 } else { 0u8 });
                            assert(before[col as int][c] == 0u8);
                            lemma_add(before[q][c], 0, 0);
                        }
                    }
                }
            }
            r += 1;
        }
        assert(cleared(rows(m@), col + 1)) by {
            assert forall|q: int, c: int|
                #![trigger rows(m@)[q][c]]
                0 <= q < k && 0 <= c < col + 1 implies rows(m@)[q][c] == if q == c {
                1u8
            } else {
                0u8
            } by {
                if c == col && q != col {
                    assert(rows(m@)[q][col as int] == 0);
                }
            }
        }
        col += 1;
    }
    proof {
        lemma_inverted(am, rows(m@), rows(e@));
        lemma_inverse_not_singular(rows(e@), am);
    }
    Some(e)
}

} // verus!
