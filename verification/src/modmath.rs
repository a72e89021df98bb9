//! Arithmetic modulo a natural number, as mathematics: the functions that the
//! field types' contracts are stated in, and the facts about them.

use vstd::arithmetic::div_mod::{
    lemma_fundamental_div_mod, lemma_mod_bound, lemma_mod_multiples_vanish, lemma_mul_mod_noop_left,
    lemma_mul_mod_noop_right, lemma_small_mod,
};
use vstd::arithmetic::power::{lemma_pow0, lemma_pow1, lemma_pow_adds, pow};
use vstd::prelude::*;

verus! {

/// `a + b` modulo `p`.
pub open spec fn mod_add(a: nat, b: nat, p: nat) -> nat {
    (a + b) % p
}

/// `a - b` modulo `p`, in `[0, p)`.
pub open spec fn mod_sub(a: nat, b: nat, p: nat) -> nat {
    ((a as int - b as int) % (p as int)) as nat
}

/// `-a` modulo `p`, in `[0, p)`.
pub open spec fn mod_neg(a: nat, p: nat) -> nat {
    mod_sub(0, a, p)
}

/// `a * b` modulo `p`.
pub open spec fn mod_mul(a: nat, b: nat, p: nat) -> nat {
    (a * b) % p
}

/// `a` to the power `e`, modulo `p`.
pub open spec fn mod_pow(a: nat, e: nat, p: nat) -> nat {
    (pow(a as int, e) % (p as int)) as nat
}

/// Whether `b` is the inverse of `a` modulo `p`.
pub open spec fn is_inverse(a: nat, b: nat, p: nat) -> bool {
    b < p && (a * b) % p == 1
}

/// Whether `a` has an inverse modulo `p`.
pub open spec fn has_inverse(a: nat, p: nat) -> bool {
    exists|b: nat| is_inverse(a, b, p)
}

/// The inverse of `a` modulo `p`, and 0 where `a` has none.
pub open spec fn mod_inv(a: nat, p: nat) -> nat {
    if has_inverse(a, p) {
        choose|b: nat| is_inverse(a, b, p)
    } else {
        0
    }
}

/// `a / b` modulo `p`: `a` times the inverse of `b`.
pub open spec fn mod_div(a: nat, b: nat, p: nat) -> nat {
    mod_mul(a, mod_inv(b, p), p)
}

/// `d` divides `n`.
pub open spec fn divides(d: nat, n: nat) -> bool {
    d > 0 && n % d == 0
}

/// `p` is a prime number.
pub open spec fn is_prime(p: nat) -> bool {
    p >= 2 && forall|d: nat| #[trigger] divides(d, p) ==> d == 1 || d == p
}

/// Of a number and its negative, the one that is not above half of `p`.
pub open spec fn lesser_root(c: nat, p: nat) -> nat {
    if 2 * c > p {
        mod_neg(c, p)
    } else {
        c
    }
}

/// A number minus itself is zero.
pub proof fn lemma_sub_self(a: nat, p: nat)
    requires
        p > 0,
    ensures
        mod_sub(a, a, p) == 0,
{
    lemma_small_mod(0, p);
}

/// Integers `x`, `y` and a common divisor `g` of `a` and `b` with
/// `x * a + y * b == g`.
pub proof fn lemma_bezout(a: nat, b: nat) -> (r: (int, int, nat))
    requires
        a > 0 || b > 0,
    ensures
        divides(r.2, a) || a == 0,
        divides(r.2, b) || b == 0,
        r.2 > 0,
        r.0 * a + r.1 * b == r.2,
    decreases b,
{
    if b == 0 {
        vstd::arithmetic::div_mod::lemma_mod_self_0(a as int);
        assert(1 * a + 0 * b == a);
        (1, 0, a)
    } else {
        lemma_mod_bound(a as int, b as int);
        let (x, y, g) = lemma_bezout(b, a % b);
        let q = (a / b) as int;
        lemma_fundamental_div_mod(a as int, b as int);
        assert(y * a + (x - y * q) * b == g) by (nonlinear_arith)
            requires
                x * b + y * (a % b) == g,
                a == b * q + a % b,
        ;
        if a > 0 {
            // g divides b and a % b, hence a
            let gi = g as int;
            lemma_mul_mod_noop_right(q, b as int, gi);
            assert(q * 0 == 0);
            lemma_small_mod(0, g);
            vstd::arithmetic::div_mod::lemma_add_mod_noop(q * b, (a % b) as int, gi);
            assert(q * b + a % b == a) by (nonlinear_arith)
                requires
                    a == b * q + a % b,
            ;
        }
        (y, x - y * q, g)
    }
}

/// Modulo a prime, every number that is not a multiple of the prime has an
/// inverse.
pub proof fn lemma_prime_has_inverse(a: nat, p: nat)
    requires
        is_prime(p),
        a % p != 0,
    ensures
        has_inverse(a, p),
{
    let m = p as int;
    let a0 = a % p;
    lemma_mod_bound(a as int, m);
    let (x, y, g) = lemma_bezout(a0, p);
    assert(divides(g, p));
    if g == p {
        // p would divide a0, which is below p
        lemma_small_mod(a0, p);
        assert(false);
    }
    assert(g == 1);
    let b = (x % m) as nat;
    lemma_mod_bound(x, m);
    // a * b == a0 * x == 1 - y * p == 1  (mod p)
    lemma_mul_mod_noop_left(a as int, b as int, m);
    lemma_mul_mod_noop_right(a0 as int, x, m);
    assert(a0 * x == 1 + (-y) * m) by (nonlinear_arith)
        requires
            x * a0 + y * m == 1,
    ;
    lemma_mod_unique(a0 * x, 1, -y, m);
    assert(is_inverse(a, b, p));
}

/// Whether `a` and `b` are congruent modulo `p`.
pub open spec fn cong(a: int, b: int, p: int) -> bool {
    (a - b) % p == 0
}

/// A number is congruent to its remainder.
pub proof fn lemma_cong_rem(x: int, p: int)
    requires
        p > 0,
    ensures
        cong(x % p, x, p),
{
    lemma_fundamental_div_mod(x, p);
    assert((-(x / p)) * p == -(p * (x / p))) by (nonlinear_arith);
    lemma_mod_unique(x % p - x, 0, -(x / p), p);
}

/// Every number is congruent to itself.
pub proof fn lemma_cong_refl(a: int, p: int)
    requires
        p > 0,
    ensures
        cong(a, a, p),
{
    lemma_small_mod(0, p as nat);
}

/// Congruence is symmetric.
pub proof fn lemma_cong_sym(a: int, b: int, p: int)
    requires
        p > 0,
        cong(a, b, p),
    ensures
        cong(b, a, p),
{
    lemma_cong_refl(0, p);
    lemma_cong_sub(0, 0, a - b, 0, p);
}

/// Congruence is transitive.
pub proof fn lemma_cong_trans(a: int, b: int, c: int, p: int)
    requires
        p > 0,
        cong(a, b, p),
        cong(b, c, p),
    ensures
        cong(a, c, p),
{
    vstd::arithmetic::div_mod::lemma_add_mod_noop(a - b, b - c, p);
    lemma_small_mod(0, p as nat);
}

/// Congruent numbers in `[0, p)` are equal.
pub proof fn lemma_cong_eq(a: int, b: int, p: int)
    requires
        p > 0,
        0 <= a < p,
        0 <= b < p,
        cong(a, b, p),
    ensures
        a == b,
{
    if a > b {
        lemma_small_mod((a - b) as nat, p as nat);
    } else if b > a {
        lemma_fundamental_div_mod(a - b, p);
        let q = (a - b) / p;
        assert(false) by (nonlinear_arith)
            requires
                a - b == p * q,
                -p < a - b < 0,
                p > 0,
        ;
    }
}

/// Sums of congruent numbers are congruent.
pub proof fn lemma_cong_add(a: int, ea: int, b: int, eb: int, p: int)
    requires
        p > 0,
        cong(a, ea, p),
        cong(b, eb, p),
    ensures
        cong(a + b, ea + eb, p),
{
    vstd::arithmetic::div_mod::lemma_add_mod_noop(a - ea, b - eb, p);
    lemma_small_mod(0, p as nat);
}

/// Differences of congruent numbers are congruent.
pub proof fn lemma_cong_sub(a: int, ea: int, b: int, eb: int, p: int)
    requires
        p > 0,
        cong(a, ea, p),
        cong(b, eb, p),
    ensures
        cong(a - b, ea - eb, p),
{
    vstd::arithmetic::div_mod::lemma_sub_mod_noop(a - ea, b - eb, p);
    lemma_small_mod(0, p as nat);
}

/// Products of congruent numbers are congruent.
pub proof fn lemma_cong_times(a: int, ea: int, b: int, eb: int, p: int)
    requires
        p > 0,
        cong(a, ea, p),
        cong(b, eb, p),
    ensures
        cong(a * b, ea * eb, p),
{
    // a * b - ea * eb == a * (b - eb) + eb * (a - ea)
    lemma_mul_mod_noop_right(a, b - eb, p);
    lemma_mul_mod_noop_right(eb, a - ea, p);
    assert(a * 0 == 0);
    assert(eb * 0 == 0);
    lemma_small_mod(0, p as nat);
    vstd::arithmetic::div_mod::lemma_add_mod_noop(a * (b - eb), eb * (a - ea), p);
    assert(a * b - ea * eb == a * (b - eb) + eb * (a - ea)) by (nonlinear_arith);
}

/// The sum modulo `p` of numbers congruent to `ea` and `eb` is congruent to
/// `ea + eb`; likewise the difference and the product.
pub proof fn lemma_mod_ops_cong(a: nat, ea: int, b: nat, eb: int, p: nat)
    requires
        p > 0,
        cong(a as int, ea, p as int),
        cong(b as int, eb, p as int),
    ensures
        cong(mod_add(a, b, p) as int, ea + eb, p as int),
        cong(mod_sub(a, b, p) as int, ea - eb, p as int),
        cong(mod_mul(a, b, p) as int, ea * eb, p as int),
{
    let m = p as int;
    lemma_mod_bound(a as int - b as int, m);
    lemma_cong_rem((a + b) as int, m);
    lemma_cong_rem(a as int - b as int, m);
    lemma_cong_rem((a * b) as int, m);
    lemma_cong_add(a as int, ea, b as int, eb, m);
    lemma_cong_sub(a as int, ea, b as int, eb, m);
    lemma_cong_times(a as int, ea, b as int, eb, m);
    lemma_cong_trans(mod_add(a, b, p) as int, (a + b) as int, ea + eb, m);
    lemma_cong_trans(mod_sub(a, b, p) as int, a as int - b as int, ea - eb, m);
    lemma_cong_trans(mod_mul(a, b, p) as int, (a * b) as int, ea * eb, m);
}

/// Congruent numbers stay congruent when both are multiplied by `z`.
pub proof fn lemma_cong_mul(x: int, y: int, z: int, m: int)
    requires
        m > 0,
        x % m == y % m,
    ensures
        (x * z) % m == (y * z) % m,
{
    lemma_mul_mod_noop_left(x, z, m);
    lemma_mul_mod_noop_left(y, z, m);
}

/// A common factor that has an inverse can be cancelled from a congruence.
pub proof fn lemma_cancel_unit(x: int, y: int, u: int, uinv: int, m: int)
    requires
        m > 0,
        (x * u) % m == (y * u) % m,
        (u * uinv) % m == 1,
    ensures
        x % m == y % m,
{
    lemma_cong_mul(x * u, y * u, uinv, m);
    assert((x * u) * uinv == x * (u * uinv)) by (nonlinear_arith);
    assert((y * u) * uinv == y * (u * uinv)) by (nonlinear_arith);
    lemma_mul_mod_noop_right(x, u * uinv, m);
    lemma_mul_mod_noop_right(y, u * uinv, m);
    assert(x * 1 == x);
    assert(y * 1 == y);
}

/// A number in `[0, m)` that differs from `x` by a multiple of `m` is `x % m`.
pub proof fn lemma_mod_unique(x: int, r: int, k: int, m: int)
    requires
        m > 0,
        0 <= r < m,
        x == r + k * m,
    ensures
        x % m == r,
{
    assert(m * k + r == r + k * m) by (nonlinear_arith);
    lemma_mod_multiples_vanish(k, r, m);
    lemma_small_mod(r as nat, m as nat);
}

/// An inverse modulo `p` is unique.
pub proof fn lemma_inverse_unique(a: nat, b1: nat, b2: nat, p: nat)
    requires
        is_inverse(a, b1, p),
        is_inverse(a, b2, p),
    ensures
        b1 == b2,
{
    let m = p as int;
    // b1 == b1 * (a * b2) == (b1 * a) * b2 == b2 (mod p)
    lemma_mul_mod_noop_right(b1 as int, (a * b2) as int, m);
    lemma_mul_mod_noop_right(b2 as int, (a * b1) as int, m);
    assert((b1 as int) * ((a * b2) as int) == (b2 as int) * ((a * b1) as int))
        by (nonlinear_arith);
    assert((b1 as int) * 1 == b1);
    assert((b2 as int) * 1 == b2);
    lemma_small_mod(b1, p);
    lemma_small_mod(b2, p);
}

/// `mod_inv` is the inverse wherever there is one.
pub proof fn lemma_mod_inv_is_inverse(a: nat, p: nat)
    requires
        has_inverse(a, p),
    ensures
        is_inverse(a, mod_inv(a, p), p),
{
}

/// Whatever inverse one exhibits, `mod_inv` is that one.
pub proof fn lemma_mod_inv_eq(a: nat, b: nat, p: nat)
    requires
        is_inverse(a, b, p),
    ensures
        has_inverse(a, p),
        mod_inv(a, p) == b,
{
    lemma_inverse_unique(a, b, mod_inv(a, p), p);
}

/// Zero has no inverse modulo `p`.
pub proof fn lemma_zero_has_no_inverse(p: nat)
    requires
        p > 0,
    ensures
        !has_inverse(0, p),
        mod_inv(0, p) == 0,
{
    assert forall|b: nat| !is_inverse(0, b, p) by {
        assert(0 * b == 0);
        lemma_small_mod(0, p);
    }
}

/// Multiplying and then dividing by a number that has an inverse gives the
/// number one started with.
pub proof fn lemma_mul_div_cancel(x: nat, y: nat, p: nat)
    requires
        p > 0,
        x < p,
        has_inverse(y, p),
    ensures
        mod_div(mod_mul(x, y, p), y, p) == x,
{
    let m = p as int;
    let yi = mod_inv(y, p);
    lemma_mod_inv_is_inverse(y, p);
    // ((x * y) % p * yi) % p == (x * y * yi) % p == (x * (y * yi)) % p == x
    lemma_mul_mod_noop_left((x * y) as int, yi as int, m);
    assert(((x * y) as int) * (yi as int) == (x as int) * ((y * yi) as int))
        by (nonlinear_arith);
    lemma_mul_mod_noop_right(x as int, (y * yi) as int, m);
    assert((x as int) * 1 == x);
    lemma_small_mod(x, p);
}

/// Adding and then subtracting the same number gives the number one started
/// with.
pub proof fn lemma_add_sub_cancel(x: nat, y: nat, p: nat)
    requires
        p > 0,
        x < p,
    ensures
        mod_sub(mod_add(x, y, p), y, p) == x,
{
    let m = p as int;
    let s = (x + y) as int;
    lemma_fundamental_div_mod(s, m);
    lemma_mod_bound(s, m);
    // s % m - y == x - (s / m) * m
    assert((-(s / m)) * m == -(m * (s / m))) by (nonlinear_arith);
    lemma_mod_unique(s % m - y, x as int, -(s / m), m);
}

/// The square of a negated number is the square of the number.
pub proof fn lemma_neg_square(x: nat, p: nat)
    requires
        p > 0,
        x < p,
    ensures
        mod_mul(mod_neg(x, p), mod_neg(x, p), p) == mod_mul(x, x, p),
{
    let m = p as int;
    let n = mod_neg(x, p) as int;
    lemma_mod_bound(-(x as int), m);
    lemma_fundamental_div_mod(-(x as int), m);
    let q = (-(x as int)) / m;
    // n == -x - q * m, so n * n == x * x + m * (...)
    assert(n == -(x as int) - m * q);
    assert(n * n == m * (q * q * m + 2 * q * (x as int)) + (x as int) * (x as int))
        by (nonlinear_arith)
        requires
            n == -(x as int) - m * q,
    ;
    lemma_mod_multiples_vanish(q * q * m + 2 * q * (x as int), (x as int) * (x as int), m);
}

/// The product of two negatives is the product.
pub proof fn lemma_neg_neg_mul(x: nat, y: nat, p: nat)
    requires
        p > 0,
    ensures
        mod_mul(mod_neg(x, p), mod_neg(y, p), p) == mod_mul(x, y, p),
{
    let m = p as int;
    let a = mod_neg(x, p) as int;
    let b = mod_neg(y, p) as int;
    lemma_mod_bound(-(x as int), m);
    lemma_mod_bound(-(y as int), m);
    lemma_fundamental_div_mod(-(x as int), m);
    lemma_fundamental_div_mod(-(y as int), m);
    let q = (-(x as int)) / m;
    let r = (-(y as int)) / m;
    assert(a * b == m * (q * r * m + q * (y as int) + r * (x as int)) + (x as int) * (y as int))
        by (nonlinear_arith)
        requires
            a == -(x as int) - m * q,
            b == -(y as int) - m * r,
    ;
    lemma_mod_multiples_vanish(
        q * r * m + q * (y as int) + r * (x as int),
        (x as int) * (y as int),
        m,
    );
}

/// The second power is the product with itself.
pub proof fn lemma_pow2_is_square(a: nat, p: nat)
    requires
        p > 0,
    ensures
        mod_pow(a, 2, p) == mod_mul(a, a, p),
{
    lemma_pow1(a as int);
    lemma_pow_adds(a as int, 1, 1);
}

/// The powers of a number: the zeroth is one, the next is one more factor.
pub proof fn lemma_mod_pow_step(a: nat, e: nat, p: nat)
    requires
        p > 0,
    ensures
        mod_pow(a, 0, p) == 1nat % p,
        mod_pow(a, e + 1, p) == mod_mul(mod_pow(a, e, p), a, p),
        mod_pow(a, 2 * e, p) == mod_mul(mod_pow(a, e, p), mod_pow(a, e, p), p),
{
    let m = p as int;
    let x = a as int;
    lemma_pow0(x);
    lemma_pow1(x);
    lemma_pow_adds(x, e, 1);
    lemma_pow_adds(x, e, e);
    lemma_pow_nonneg(a, e);
    lemma_mod_bound(pow(x, e), m);
    lemma_mul_mod_noop_left(pow(x, e), x, m);
    lemma_mul_mod_noop_left(pow(x, e), pow(x, e), m);
    lemma_mul_mod_noop_right(pow(x, e) % m, pow(x, e), m);
    assert(pow(x, e) * x >= 0) by (nonlinear_arith)
        requires
            pow(x, e) >= 0,
            x >= 0,
    ;
    assert(pow(x, e) * pow(x, e) >= 0) by (nonlinear_arith);
}

/// A power of a natural number is not negative.
pub proof fn lemma_pow_nonneg(a: nat, e: nat)
    ensures
        pow(a as int, e) >= 0,
    decreases e,
{
    reveal(pow);
    if e > 0 {
        lemma_pow_nonneg(a, (e - 1) as nat);
        assert((a as int) * pow(a as int, (e - 1) as nat) >= 0) by (nonlinear_arith)
            requires
                a >= 0,
                pow(a as int, (e - 1) as nat) >= 0,
        ;
    }
}

} // verus!
