//! The field GF(2^8) with reduction polynomial `x^8 + x^4 + x^3 + x^2 + 1`.
//!
//! Field elements are bytes, addition is exclusive or, and `2` generates the multiplicative
//! group. [`Gf256`] multiplies and inverts by logarithm tables.
use vstd::prelude::*;
use vstd::set_lib::*;

verus! {

/// The product of `a` and the polynomial `x`.
pub open spec fn xtime(a: u8) -> u8 {
    (a << 1) ^ (if a & 0x80 != 0 { 0x1du8 } else { 0u8 })
}

/// `a` if bit `n` of `b` is set, and zero otherwise.
pub open spec fn bit_select(b: u8, n: u8, a: u8) -> u8 {
    if (b >> n) & 1 != 0 { a } else { 0u8 }
}

/// The product of two field elements: the sum of `a * x^n` over the set bits `n` of `b`.
#[verifier::opaque]
pub open spec fn gf_mul(a: u8, b: u8) -> u8 {
    bit_select(b, 0, a)
        ^ bit_select(b, 1, xtime(a))
        ^ bit_select(b, 2, xtime(xtime(a)))
        ^ bit_select(b, 3, xtime(xtime(xtime(a))))
        ^ bit_select(b, 4, xtime(xtime(xtime(xtime(a)))))
        ^ bit_select(b, 5, xtime(xtime(xtime(xtime(xtime(a))))))
        ^ bit_select(b, 6, xtime(xtime(xtime(xtime(xtime(xtime(a)))))))
        ^ bit_select(b, 7, xtime(xtime(xtime(xtime(xtime(xtime(xtime(a))))))))
}

/// The multiplicative inverse of `a`; zero is given zero.
pub open spec fn gf_inv(a: u8) -> u8 {
    if a == 0 {
        0
    } else {
        choose|b: u8| gf_mul(a, b) == 1
    }
}

/// The `n`-th power of the generator `2`.
pub open spec fn gf_exp(n: nat) -> u8
    decreases n,
{
    if n == 0 {
        1
    } else {
        xtime(gf_exp((n - 1) as nat))
    }
}

/// Multiplying by `x` distributes over addition.
proof fn lemma_xtime_distributes(a: u8, b: u8)
    ensures
        xtime(a ^ b) == xtime(a) ^ xtime(b),
{
    assert(xtime(a ^ b) == xtime(a) ^ xtime(b)) by (bit_vector);
}

/// Multiplication distributes over addition in its first factor.
pub proof fn lemma_mul_distributes_left(a: u8, b: u8, c: u8)
    ensures
        gf_mul(a ^ b, c) == gf_mul(a, c) ^ gf_mul(b, c),
{
    reveal(gf_mul);
    let (a1, b1) = (xtime(a), xtime(b));
    let (a2, b2) = (xtime(a1), xtime(b1));
    let (a3, b3) = (xtime(a2), xtime(b2));
    let (a4, b4) = (xtime(a3), xtime(b3));
    let (a5, b5) = (xtime(a4), xtime(b4));
    let (a6, b6) = (xtime(a5), xtime(b5));
    let (a7, b7) = (xtime(a6), xtime(b6));
    lemma_xtime_distributes(a, b);
    lemma_xtime_distributes(a1, b1);
    lemma_xtime_distributes(a2, b2);
    lemma_xtime_distributes(a3, b3);
    lemma_xtime_distributes(a4, b4);
    lemma_xtime_distributes(a5, b5);
    lemma_xtime_distributes(a6, b6);
    assert(bit_select(c, 0, a ^ b) ^ bit_select(c, 1, a1 ^ b1) ^ bit_select(c, 2, a2 ^ b2)
        ^ bit_select(c, 3, a3 ^ b3) ^ bit_select(c, 4, a4 ^ b4) ^ bit_select(c, 5, a5 ^ b5)
        ^ bit_select(c, 6, a6 ^ b6) ^ bit_select(c, 7, a7 ^ b7) == (bit_select(c, 0, a)
        ^ bit_select(c, 1, a1) ^ bit_select(c, 2, a2) ^ bit_select(c, 3, a3) ^ bit_select(c, 4, a4)
        ^ bit_select(c, 5, a5) ^ bit_select(c, 6, a6) ^ bit_select(c, 7, a7)) ^ (bit_select(c, 0, b)
        ^ bit_select(c, 1, b1) ^ bit_select(c, 2, b2) ^ bit_select(c, 3, b3) ^ bit_select(c, 4, b4)
        ^ bit_select(c, 5, b5) ^ bit_select(c, 6, b6) ^ bit_select(c, 7, b7))) by (bit_vector);
}

/// Multiplication does not depend on the order of its factors.
pub proof fn lemma_mul_commutes(a: u8, b: u8)
    ensures
        gf_mul(a, b) == gf_mul(b, a),
{
    reveal(gf_mul);
    assert(gf_mul(0, a) == 0 && gf_mul(1, a) == a && gf_mul(2, a) == xtime(a) && gf_mul(4, a)
        == xtime(xtime(a)) && gf_mul(8, a) == xtime(xtime(xtime(a)))) by (bit_vector);
    assert(gf_mul(16, a) == xtime(xtime(xtime(xtime(a)))) && gf_mul(32, a) == xtime(
        xtime(xtime(xtime(xtime(a)))),
    )) by (bit_vector);
    assert(gf_mul(64, a) == xtime(xtime(xtime(xtime(xtime(xtime(a)))))) && gf_mul(128, a) == xtime(
        xtime(xtime(xtime(xtime(xtime(xtime(a)))))),
    )) by (bit_vector);
    let s0 = bit_select(b, 0, 1);
    let s1 = bit_select(b, 1, 2);
    let s2 = bit_select(b, 2, 4);
    let s3 = bit_select(b, 3, 8);
    let s4 = bit_select(b, 4, 16);
    let s5 = bit_select(b, 5, 32);
    let s6 = bit_select(b, 6, 64);
    let s7 = bit_select(b, 7, 128);
    assert(b == bit_select(b, 0, 1) ^ bit_select(b, 1, 2) ^ bit_select(b, 2, 4) ^ bit_select(
        b,
        3,
        8,
    ) ^ bit_select(b, 4, 16) ^ bit_select(b, 5, 32) ^ bit_select(b, 6, 64) ^ bit_select(b, 7, 128))
        by (bit_vector);
    lemma_mul_distributes_left(s0 ^ s1 ^ s2 ^ s3 ^ s4 ^ s5 ^ s6, s7, a);
    lemma_mul_distributes_left(s0 ^ s1 ^ s2 ^ s3 ^ s4 ^ s5, s6, a);
    lemma_mul_distributes_left(s0 ^ s1 ^ s2 ^ s3 ^ s4, s5, a);
    lemma_mul_distributes_left(s0 ^ s1 ^ s2 ^ s3, s4, a);
    lemma_mul_distributes_left(s0 ^ s1 ^ s2, s3, a);
    lemma_mul_distributes_left(s0 ^ s1, s2, a);
    lemma_mul_distributes_left(s0, s1, a);
}

/// Multiplication distributes over addition in its second factor.
pub proof fn lemma_mul_distributes(a: u8, b: u8, c: u8)
    ensures
        gf_mul(a, b ^ c) == gf_mul(a, b) ^ gf_mul(a, c),
{
    lemma_mul_commutes(a, b ^ c);
    lemma_mul_commutes(a, b);
    lemma_mul_commutes(a, c);
    lemma_mul_distributes_left(b, c, a);
}

/// Zero and one behave as in every field.
pub proof fn lemma_mul_zero_one(a: u8)
    ensures
        gf_mul(a, 0) == 0,
        gf_mul(0, a) == 0,
        gf_mul(a, 1) == a,
        gf_mul(1, a) == a,
{
    reveal(gf_mul);
    assert(gf_mul(a, 0) == 0 && gf_mul(a, 1) == a) by (bit_vector);
    lemma_mul_commutes(a, 0);
    lemma_mul_commutes(a, 1);
}

/// A product with `x * a` is `x` times the product with `a`.
proof fn lemma_xtime_mul(a: u8, b: u8)
    ensures
        gf_mul(xtime(a), b) == xtime(gf_mul(a, b)),
        gf_mul(b, xtime(a)) == xtime(gf_mul(b, a)),
{
    reveal(gf_mul);
    assert(gf_mul(xtime(a), b) == xtime(gf_mul(a, b))) by (bit_vector);
    lemma_mul_commutes(xtime(a), b);
    lemma_mul_commutes(a, b);
}

/// Multiplication is associative.
pub proof fn lemma_mul_associates(a: u8, b: u8, c: u8)
    ensures
        gf_mul(gf_mul(a, b), c) == gf_mul(a, gf_mul(b, c)),
{
    let b1 = xtime(b);
    let b2 = xtime(b1);
    let b3 = xtime(b2);
    let b4 = xtime(b3);
    let b5 = xtime(b4);
    let b6 = xtime(b5);
    let b7 = xtime(b6);
    lemma_xtime_mul(b, a);
    lemma_xtime_mul(b1, a);
    lemma_xtime_mul(b2, a);
    lemma_xtime_mul(b3, a);
    lemma_xtime_mul(b4, a);
    lemma_xtime_mul(b5, a);
    lemma_xtime_mul(b6, a);
    lemma_mul_zero_one(a);
    let s0 = bit_select(c, 0, b);
    let s1 = bit_select(c, 1, b1);
    let s2 = bit_select(c, 2, b2);
    let s3 = bit_select(c, 3, b3);
    let s4 = bit_select(c, 4, b4);
    let s5 = bit_select(c, 5, b5);
    let s6 = bit_select(c, 6, b6);
    let s7 = bit_select(c, 7, b7);
    lemma_mul_distributes(a, s0 ^ s1 ^ s2 ^ s3 ^ s4 ^ s5 ^ s6, s7);
    lemma_mul_distributes(a, s0 ^ s1 ^ s2 ^ s3 ^ s4 ^ s5, s6);
    lemma_mul_distributes(a, s0 ^ s1 ^ s2 ^ s3 ^ s4, s5);
    lemma_mul_distributes(a, s0 ^ s1 ^ s2 ^ s3, s4);
    lemma_mul_distributes(a, s0 ^ s1 ^ s2, s3);
    lemma_mul_distributes(a, s0 ^ s1, s2);
    lemma_mul_distributes(a, s0, s1);
    reveal(gf_mul);
}

/// Exclusive or is an addition in which every element is its own negative.
pub proof fn lemma_add(a: u8, b: u8, c: u8)
    ensures
        a ^ 0 == a,
        0 ^ a == a,
        a ^ a == 0,
        a ^ b == b ^ a,
        (a ^ b) ^ c == a ^ (b ^ c),
        a ^ b == 0 <==> a == b,
{
    assert(a ^ 0 == a && 0 ^ a == a && a ^ a == 0 && a ^ b == b ^ a && (a ^ b) ^ c == a ^ (b ^ c)
        && (a ^ b == 0 <==> a == b)) by (bit_vector);
}

/// Powers of the generator multiply by adding their exponents.
pub proof fn lemma_exp_add(i: nat, j: nat)
    ensures
        gf_mul(gf_exp(i), gf_exp(j)) == gf_exp(i + j),
    decreases i,
{
    if i == 0 {
        lemma_mul_zero_one(gf_exp(j));
    } else {
        lemma_exp_add((i - 1) as nat, j);
        lemma_xtime_mul(gf_exp((i - 1) as nat), gf_exp(j));
    }
}

/// The powers that decide the order of the generator.
proof fn lemma_exp_values()
    ensures
        gf_exp(1) != 1,
        gf_exp(3) != 1,
        gf_exp(5) != 1,
        gf_exp(15) != 1,
        gf_exp(17) != 1,
        gf_exp(51) != 1,
        gf_exp(85) != 1,
        gf_exp(255) == 1,
{
    reveal_with_fuel(gf_exp, 6);
    assert(xtime(1) == 2 && xtime(2) == 4 && xtime(4) == 8 && xtime(8) == 16 && xtime(16) == 32)
        by (bit_vector);
    assert(gf_exp(1) == 2 && gf_exp(2) == 4 && gf_exp(3) == 8 && gf_exp(4) == 16 && gf_exp(5)
        == 32);
    lemma_exp_add(5, 5);
    lemma_exp_add(10, 5);
    lemma_exp_add(15, 2);
    lemma_exp_add(17, 17);
    lemma_exp_add(34, 17);
    lemma_exp_add(51, 34);
    lemma_exp_add(85, 85);
    lemma_exp_add(170, 85);
    reveal(gf_mul);
    assert(gf_mul(32, 32) == 0x74 && gf_mul(0x74, 32) == 0x26 && gf_mul(0x26, 4) == 0x98 && gf_mul(
        0x98,
        0x98,
    ) == 0x4e && gf_mul(0x4e, 0x98) == 0x0a && gf_mul(0x0a, 0x4e) == 0xd6 && gf_mul(0xd6, 0xd6)
        == 0xd7 && gf_mul(0xd7, 0xd6) == 1) by (bit_vector);
}

/// If the `d`-th power is one, so is the power of every multiple of `d`.
proof fn lemma_exp_multiple(d: nat, q: nat)
    requires
        gf_exp(d) == 1,
    ensures
        gf_exp(q * d) == 1,
    decreases q,
{
    if q == 0 {
        assert(q * d == 0) by (nonlinear_arith)
            requires
                q == 0,
        ;
    } else {
        lemma_exp_multiple(d, (q - 1) as nat);
        assert(((q - 1) as nat) * d + d == q * d) by (nonlinear_arith)
            requires
                q > 0,
        ;
        lemma_exp_add(((q - 1) as nat) * d, d);
        lemma_mul_zero_one(1);
    }
}

/// The proper divisors of the group order.
proof fn lemma_divisors(q: nat, d: nat)
    requires
        q * d == 255,
        q > 1,
    ensures
        d == 1 || d == 3 || d == 5 || d == 15 || d == 17 || d == 51 || d == 85,
{
    assert(q <= 15 || d <= 15) by (nonlinear_arith)
        requires
            q * d == 255,
    ;
    if q <= 15 {
        assert(q == 2 || q == 3 || q == 4 || q == 5 || q == 6 || q == 7 || q == 8 || q == 9 || q
            == 10 || q == 11 || q == 12 || q == 13 || q == 14 || q == 15);
    } else {
        assert(d == 0 || d == 1 || d == 2 || d == 3 || d == 4 || d == 5 || d == 6 || d == 7 || d
            == 8 || d == 9 || d == 10 || d == 11 || d == 12 || d == 13 || d == 14 || d == 15);
        assert(q * d == d * q) by (nonlinear_arith);
    }
}

/// No power of the generator below the group order is one.
proof fn lemma_generator_order(d: nat)
    requires
        0 < d < 255,
    ensures
        gf_exp(d) != 1,
    decreases d,
{
    lemma_exp_values();
    if gf_exp(d) == 1 {
        let q = 255nat / d;
        let r = 255nat % d;
        assert(q * d + r == 255 && q > 0 && r < d) by (nonlinear_arith)
            requires
                0 < d < 255,
                q == 255nat / d,
                r == 255nat % d,
        ;
        if r == 0 {
            assert(q != 1) by (nonlinear_arith)
                requires
                    q * d == 255,
                    d < 255,
            ;
            lemma_divisors(q, d);
        } else {
            lemma_exp_multiple(d, q);
            lemma_exp_add(q * d, r);
            lemma_mul_zero_one(gf_exp(r));
            lemma_generator_order(r);
        }
    }
}

/// Powers of the generator are not zero, and repeat only after the group order.
proof fn lemma_exp_injective(i: nat, j: nat)
    requires
        i < j < 255,
    ensures
        gf_exp(i) != gf_exp(j),
{
    if gf_exp(i) == gf_exp(j) {
        lemma_exp_values();
        lemma_exp_add(i, (255 - i) as nat);
        lemma_exp_add(j, (255 - i) as nat);
        lemma_exp_add(255, (j - i) as nat);
        lemma_mul_zero_one(gf_exp((j - i) as nat));
        lemma_generator_order((j - i) as nat);
    }
}

/// No power of the generator is zero.
proof fn lemma_exp_nonzero(i: nat)
    requires
        i <= 255,
    ensures
        gf_exp(i) != 0,
{
    lemma_exp_values();
    lemma_exp_add(i, (255 - i) as nat);
    lemma_mul_zero_one(gf_exp((255 - i) as nat));
}

/// Every nonzero element is a power of the generator.
proof fn lemma_exp_surjective(a: u8) -> (i: nat)
    requires
        a != 0,
    ensures
        i < 255,
        gf_exp(i) == a,
{
    let powers = Seq::new(255, |i: int| gf_exp(i as nat) as int);
    let all = set_int_range(1, 256);
    lemma_int_range(1, 256);
    assert(powers.no_duplicates()) by {
        assert forall|i: int, j: int| 0 <= i < 255 && 0 <= j < 255 && i != j implies powers[i]
            != powers[j] by {
            if i < j {
                lemma_exp_injective(i as nat, j as nat);
            } else {
                lemma_exp_injective(j as nat, i as nat);
            }
        }
    }
    powers.unique_seq_to_set();
    assert(powers.to_set().subset_of(all)) by {
        assert forall|x: int| powers.to_set().contains(x) implies all.contains(x) by {
            let i = choose|i: int| 0 <= i < 255 && powers[i] == x;
            lemma_exp_nonzero(i as nat);
        }
    }
    lemma_subset_equality(powers.to_set(), all);
    assert(powers.to_set().contains(a as int));
    let i = choose|i: int| 0 <= i < 255 && powers[i] == a as int;
    i as nat
}

/// A nonzero element times its inverse is one.
pub proof fn lemma_inverse(a: u8)
    requires
        a != 0,
    ensures
        gf_mul(a, gf_inv(a)) == 1,
        gf_mul(gf_inv(a), a) == 1,
        gf_inv(a) != 0,
{
    let i = lemma_exp_surjective(a);
    lemma_exp_add(i, (255 - i) as nat);
    lemma_exp_values();
    assert(gf_mul(a, gf_exp((255 - i) as nat)) == 1);
    lemma_mul_commutes(a, gf_inv(a));
    lemma_mul_zero_one(a);
}

/// The only element whose product with `a` is one is the inverse of `a`.
pub proof fn lemma_inverse_unique(a: u8, b: u8)
    requires
        gf_mul(a, b) == 1,
    ensures
        a != 0,
        b == gf_inv(a),
{
    lemma_mul_zero_one(b);
    lemma_inverse(a);
    lemma_mul_associates(gf_inv(a), a, b);
    lemma_mul_zero_one(gf_inv(a));
}

/// A product is zero only if a factor is.
pub proof fn lemma_no_zero_divisors(a: u8, b: u8)
    ensures
        gf_mul(a, b) == 0 <==> a == 0 || b == 0,
{
    lemma_mul_zero_one(a);
    lemma_mul_zero_one(b);
    if gf_mul(a, b) == 0 && a != 0 {
        lemma_inverse(a);
        lemma_mul_associates(gf_inv(a), a, b);
        lemma_mul_zero_one(gf_inv(a));
    }
}

/// Logarithm tables of the field.
pub struct Gf256 {
    /// Powers of the generator, over two periods so that a sum of two logarithms needs no
    /// reduction.
    exp: [u8; 512],
    log: [u8; 256],
    /// Multiplicative inverses; zero is given zero.
    inv: [u8; 256],
}

impl Gf256 {
    #[verifier::type_invariant]
    spec fn tables_agree(self) -> bool {
        &&& forall|i: int| 0 <= i < 512 ==> #[trigger] self.exp@[i] == gf_exp(i as nat)
        &&& forall|a: int|
            0 < a < 256 ==> (#[trigger] self.log@[a]) < 255 && gf_exp(self.log@[a] as nat) == a
        &&& forall|a: int| 0 <= a < 256 ==> #[trigger] self.inv@[a] == gf_inv(a as u8)
    }

    /// Entry `i` of the table of powers of the generator.
    pub closed spec fn power(&self, i: int) -> u8 {
        self.exp@[i]
    }

    /// The entry for `a` in the table of logarithms.
    pub closed spec fn logarithm(&self, a: u8) -> u8 {
        self.log@[a as int]
    }

    /// The entry for `a` in the table of inverses.
    pub closed spec fn reciprocal(&self, a: u8) -> u8 {
        self.inv@[a as int]
    }

    /// Compute the tables.
    pub fn build() -> (r: Self)
        ensures
            forall|i: int| 0 <= i < 512 ==> #[trigger] r.power(i) == gf_exp(i as nat),
            forall|a: u8|
                a != 0 ==> (#[trigger] r.logarithm(a)) < 255 && gf_exp(r.logarithm(a) as nat) == a,
            forall|a: u8| #[trigger] r.reciprocal(a) == gf_inv(a),
    {
        let mut exp = [0u8;512];
        let mut log = [0u8;256];
        let mut x: u16 = 1;
        let mut i: usize = 0;
        while i < 255
            invariant
                i <= 255,
                x < 256,
                x == gf_exp(i as nat),
                forall|j: int| 0 <= j < i ==> #[trigger] exp@[j] == gf_exp(j as nat),
                forall|j: nat| j < i ==> log@[#[trigger] gf_exp(j) as int] == j,
            decreases 255 - i,
        {
            exp[i] = x as u8;
            log[x as usize] = i as u8;
            proof {
                assert forall|j: nat| j < i + 1 implies log@[#[trigger] gf_exp(j) as int]
                    == j by {
                    if j < i {
                        lemma_exp_injective(j, i as nat);
                    }
                }
            }
            let y: u16 = x << 1;
            let z: u16 = if y & 0x100 != 0 { y ^ 0x11d } else { y };
            proof {
                let b = x as u8;
                assert(z < 256 && z == xtime(b)) by (bit_vector)
                    requires
                        x < 256,
                        b == x as u8,
                        y == x << 1,
                        z == (if y & 0x100 != 0 { y ^ 0x11d } else { y }),
                ;
            }
            x = z;
            i += 1;
        }
        proof {
            assert forall|a: int| 0 < a < 256 implies (#[trigger] log@[a]) < 255 && gf_exp(
                log@[a] as nat,
            ) == a by {
                let j = lemma_exp_surjective(a as u8);
                assert(log@[gf_exp(j) as int] == j);
            }
        }
        while i < 512
            invariant
                255 <= i <= 512,
                forall|j: int| 0 <= j < i ==> #[trigger] exp@[j] == gf_exp(j as nat),
            decreases 512 - i,
        {
            proof {
                lemma_exp_values();
                lemma_exp_add((i - 255) as nat, 255);
                lemma_mul_zero_one(gf_exp((i - 255) as nat));
            }
            exp[i] = exp[i - 255];
            i += 1;
        }
        let mut inv = [0u8;256];
        let mut a: usize = 1;
        while a < 256
            invariant
                1 <= a <= 256,
                forall|j: int| 0 <= j < 512 ==> #[trigger] exp@[j] == gf_exp(j as nat),
                forall|j: int|
                    0 < j < 256 ==> (#[trigger] log@[j]) < 255 && gf_exp(log@[j] as nat) == j,
                forall|j: int| 0 <= j < a ==> #[trigger] inv@[j] == gf_inv(j as u8),
            decreases 256 - a,
        {
            inv[a] = exp[255 - log[a] as usize];
            proof {
                let l = log@[a as int] as nat;
                lemma_exp_values();
                lemma_exp_add(l, (255 - l) as nat);
                lemma_inverse_unique(a as u8, gf_exp((255 - l) as nat));
            }
            a += 1;
        }
        Gf256 { exp, log, inv }
    }

    /// The product of two elements.
    pub fn mul(&self, a: u8, b: u8) -> (r: u8)
        ensures
            r == gf_mul(a, b),
    {
        proof {
            use_type_invariant(self);
            lemma_mul_zero_one(a);
            lemma_mul_zero_one(b);
        }
        if a == 0 || b == 0 {
            0
        } else {
            proof {
                lemma_exp_add(self.log@[a as int] as nat, self.log@[b as int] as nat);
            }
            self.exp[self.log[a as usize] as usize + self.log[b as usize] as usize]
        }
    }

    /// The multiplicative inverse of `a`, and zero for zero.
    pub fn inverse(&self, a: u8) -> (r: u8)
        ensures
            r == gf_inv(a),
    {
        proof {
            use_type_invariant(self);
        }
        self.inv[a as usize]
    }
}

} // verus!
