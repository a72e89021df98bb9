//! Fermat's little theorem for a prime modulus, by the binomial theorem, and
//! what follows from it for square roots.

use crate::modmath::{
    cong, divides, is_prime, lemma_cong_add, lemma_cong_eq, lemma_cong_refl, lemma_cong_rem,
    lemma_cong_sub, lemma_cong_sym, lemma_cong_times, lemma_cong_trans, lemma_mod_inv_is_inverse,
    lemma_mod_unique, lemma_pow_nonneg, lemma_prime_has_inverse, mod_inv, mod_mul, mod_neg, mod_pow,
};
use vstd::arithmetic::div_mod::{
    lemma_mod_bound, lemma_mod_multiples_basic, lemma_mul_mod_noop_left, lemma_small_mod,
};
use vstd::arithmetic::power::{
    lemma1_pow, lemma_pow0, lemma_pow1, lemma_pow_adds, lemma_pow_multiplies, lemma_square_is_pow2,
    pow,
};
use vstd::prelude::*;

verus! {

/// The binomial coefficient `n` over `k`, by the rule of Pascal's triangle.
pub open spec fn binom(n: nat, k: nat) -> nat
    decreases n,
{
    if k == 0 {
        1
    } else if n == 0 {
        0
    } else {
        binom((n - 1) as nat, (k - 1) as nat) + binom((n - 1) as nat, k)
    }
}

/// Above the diagonal the coefficients are zero.
pub proof fn lemma_binom_above(n: nat, k: nat)
    requires
        k > n,
    ensures
        binom(n, k) == 0,
    decreases n,
{
    if n > 0 {
        lemma_binom_above((n - 1) as nat, (k - 1) as nat);
        lemma_binom_above((n - 1) as nat, k);
    }
}

/// On the diagonal the coefficients are one.
pub proof fn lemma_binom_diagonal(n: nat)
    ensures
        binom(n, n) == 1,
    decreases n,
{
    if n > 0 {
        lemma_binom_diagonal((n - 1) as nat);
        lemma_binom_above((n - 1) as nat, n);
    }
}

/// `k * binom(n, k) == n * binom(n - 1, k - 1)`.
pub proof fn lemma_binom_absorb(n: nat, k: nat)
    requires
        n >= 1,
        k >= 1,
    ensures
        k * binom(n, k) == n * binom((n - 1) as nat, (k - 1) as nat),
    decreases n,
{
    let n1 = (n - 1) as nat;
    let k1 = (k - 1) as nat;
    let up = binom(n1, k1);
    let right = binom(n1, k);
    assert(binom(n, k) == up + right);
    assert(k * (up + right) == k * up + k * right) by (nonlinear_arith);
    if n == 1 {
        assert(n1 == 0);
        if k == 1 {
            assert(up == 1 && right == 0);
            assert(k * (up + right) == 1) by (nonlinear_arith)
                requires
                    k == 1,
                    up + right == 1,
            ;
            assert(n * up == 1) by (nonlinear_arith)
                requires
                    n == 1,
                    up == 1,
            ;
        } else {
            assert(up == 0 && right == 0);
            assert(k * (up + right) == 0) by (nonlinear_arith)
                requires
                    up + right == 0,
            ;
            assert(n * up == 0) by (nonlinear_arith)
                requires
                    up == 0,
            ;
        }
    } else {
        let n2 = (n - 2) as nat;
        assert(n2 == (n1 - 1) as nat);
        lemma_binom_absorb(n1, k);
        let low = binom(n2, k1);
        assert(k * right == n1 * low);
        if k == 1 {
            assert(up == 1 && low == 1);
            assert(k * up == 1) by (nonlinear_arith)
                requires
                    k == 1,
                    up == 1,
            ;
            assert(n1 * low == n1) by (nonlinear_arith)
                requires
                    low == 1,
            ;
            assert(n * up == n) by (nonlinear_arith)
                requires
                    up == 1,
            ;
        } else {
            let k2 = (k - 2) as nat;
            assert(k2 == (k1 - 1) as nat);
            lemma_binom_absorb(n1, k1);
            let far = binom(n2, k2);
            assert(k1 * up == n1 * far);
            assert(up == far + low);
            assert(k * up == k1 * up + up) by (nonlinear_arith)
                requires
                    k == k1 + 1,
            ;
            assert(n1 * far + n1 * low == n1 * up) by (nonlinear_arith)
                requires
                    up == far + low,
            ;
            assert(n * up == n1 * up + up) by (nonlinear_arith)
                requires
                    n == n1 + 1,
            ;
        }
    }
}

/// The sum of the terms `binom(n, k) * a^k` for `k` from 0 to `j`.
pub open spec fn binom_sum(n: nat, a: int, j: nat) -> int
    decreases j,
{
    if j == 0 {
        binom(n, 0) * pow(a, 0)
    } else {
        binom_sum(n, a, (j - 1) as nat) + binom(n, j) * pow(a, j)
    }
}

/// One more factor `a + 1` takes the partial sums of row `n` to those of row
/// `n + 1`, up to the last term shifted.
proof fn lemma_binom_sum_step(n: nat, a: int, j: nat)
    ensures
        (a + 1) * binom_sum(n, a, j) == binom_sum(n + 1, a, j) + binom(n, j) * pow(a, j + 1),
    decreases j,
{
    lemma_pow0(a);
    lemma_pow1(a);
    lemma_pow_adds(a, j, 1);
    let t = binom(n, j) * pow(a, j);
    assert((binom(n, j) * pow(a, j)) * a == binom(n, j) * (pow(a, j) * a)) by (nonlinear_arith);
    if j == 0 {
        assert(binom(n, 0) == 1 && binom(n + 1, 0) == 1);
        assert((a + 1) * (1 * 1) == 1 * 1 + 1 * (1 * a)) by (nonlinear_arith);
    } else {
        let j1 = (j - 1) as nat;
        lemma_binom_sum_step(n, a, j1);
        let s = binom_sum(n, a, j1);
        assert((a + 1) * (s + t) == (a + 1) * s + t * a + t) by (nonlinear_arith);
        assert(binom(n + 1, j) == binom(n, j1) + binom(n, j));
        let pj = pow(a, j);
        assert((binom(n, j1) + binom(n, j)) * pj == binom(n, j1) * pj + binom(n, j) * pj)
            by (nonlinear_arith);
        assert(pow(a, j1 + 1) == pj);
    }
}

/// The binomial theorem: `(a + 1)^n` is the sum of the terms
/// `binom(n, k) * a^k`.
pub proof fn lemma_binomial(n: nat, a: int)
    ensures
        pow(a + 1, n) == binom_sum(n, a, n),
    decreases n,
{
    lemma_pow0(a);
    lemma_pow0(a + 1);
    if n == 0 {
        assert(binom(0, 0) == 1);
    } else {
        let n1 = (n - 1) as nat;
        lemma_binomial(n1, a);
        lemma_pow1(a + 1);
        lemma_pow_adds(a + 1, n1, 1);
        lemma_binom_sum_step(n1, a, n1);
        lemma_binom_diagonal(n1);
        lemma_binom_diagonal(n);
        assert(pow(a + 1, n1) * (a + 1) == (a + 1) * pow(a + 1, n1)) by (nonlinear_arith);
        // the last term of row n
        if n1 == 0 {
            assert(binom_sum(n, a, n) == binom_sum(n, a, 0) + binom(n, n) * pow(a, n));
        }
    }
}

/// In the row of a prime, every coefficient strictly inside is a multiple of
/// the prime.
pub proof fn lemma_binom_prime(p: nat, k: nat)
    requires
        is_prime(p),
        0 < k < p,
    ensures
        binom(p, k) % p == 0,
{
    let m = p as int;
    lemma_binom_absorb(p, k);
    lemma_small_mod(k, p);
    lemma_prime_has_inverse(k, p);
    lemma_mod_inv_is_inverse(k, p);
    let u = mod_inv(k, p);
    let c = binom(p, k) as int;
    let d = binom((p - 1) as nat, (k - 1) as nat) as int;
    // k * c is a multiple of p, and k * u is congruent to one
    assert(k * c == d * m) by (nonlinear_arith)
        requires
            k * c == m * d,
    ;
    lemma_mod_multiples_basic(d, m);
    assert(cong(k * c, 0, m));
    lemma_cong_rem((k * u) as int, m);
    lemma_cong_sym(((k * u) % p) as int, (k * u) as int, m);
    lemma_cong_refl(c, m);
    lemma_cong_times((k * u) as int, 1, c, c, m);
    lemma_cong_refl(u as int, m);
    lemma_cong_times(k * c, 0, u as int, u as int, m);
    assert((k * u) * c == (k * c) * u) by (nonlinear_arith);
    assert(0 * u == 0);
    assert(1 * c == c);
    lemma_cong_sym(((k * u) as int) * c, c, m);
    lemma_cong_trans(c, ((k * u) as int) * c, 0, m);
}

/// Modulo a prime `p`, the partial sums of row `p` below the last are one.
proof fn lemma_binom_sum_prime(p: nat, a: int, j: nat)
    requires
        is_prime(p),
        j < p,
    ensures
        cong(binom_sum(p, a, j), 1, p as int),
    decreases j,
{
    let m = p as int;
    lemma_pow0(a);
    if j == 0 {
        assert(binom(p, 0) == 1);
        assert(1 * 1 == 1);
        lemma_cong_refl(1, m);
    } else {
        lemma_binom_sum_prime(p, a, (j - 1) as nat);
        lemma_binom_prime(p, j);
        let c = binom(p, j) as int;
        assert(cong(c, 0, m));
        lemma_cong_refl(pow(a, j), m);
        lemma_cong_times(c, 0, pow(a, j), pow(a, j), m);
        assert(0 * pow(a, j) == 0);
        lemma_cong_add(binom_sum(p, a, (j - 1) as nat), 1, c * pow(a, j), 0, m);
    }
}

/// Modulo a prime `p`, the `p`-th power of `a + 1` is the `p`-th power of
/// `a`, plus one.
proof fn lemma_power_of_successor(p: nat, a: int)
    requires
        is_prime(p),
    ensures
        cong(pow(a + 1, p), pow(a, p) + 1, p as int),
{
    let m = p as int;
    lemma_binomial(p, a);
    lemma_binom_sum_prime(p, a, (p - 1) as nat);
    lemma_binom_diagonal(p);
    assert(1 * pow(a, p) == pow(a, p));
    lemma_cong_refl(pow(a, p), m);
    lemma_cong_add(binom_sum(p, a, (p - 1) as nat), 1, pow(a, p), pow(a, p), m);
}

/// Fermat's little theorem: modulo a prime `p`, the `p`-th power of a number
/// is the number.
pub proof fn lemma_fermat_power(a: nat, p: nat)
    requires
        is_prime(p),
    ensures
        cong(pow(a as int, p), a as int, p as int),
    decreases a,
{
    let m = p as int;
    if a == 0 {
        lemma_pow1(0);
        lemma_pow_adds(0, 1, (p - 1) as nat);
        assert(0 * pow(0, (p - 1) as nat) == 0);
        lemma_cong_refl(0, m);
    } else {
        let b = (a - 1) as nat;
        lemma_fermat_power(b, p);
        lemma_power_of_successor(p, b as int);
        lemma_cong_refl(1, m);
        lemma_cong_add(pow(b as int, p), b as int, 1, 1, m);
        lemma_cong_trans(pow(a as int, p), pow(b as int, p) + 1, a as int, m);
    }
}

/// Modulo a prime `p`, the power `p - 1` of a number that is no multiple of
/// `p` is one.
pub proof fn lemma_fermat(a: nat, p: nat)
    requires
        is_prime(p),
        a % p != 0,
    ensures
        mod_pow(a, (p - 1) as nat, p) == 1,
        cong(pow(a as int, (p - 1) as nat), 1, p as int),
{
    let m = p as int;
    let x = a as int;
    lemma_fermat_power(a, p);
    lemma_prime_has_inverse(a, p);
    lemma_mod_inv_is_inverse(a, p);
    let u = mod_inv(a, p) as int;
    let e = (p - 1) as nat;
    lemma_pow1(x);
    lemma_pow_adds(x, e, 1);
    // a^(p-1) == a^(p-1) * (a * u) == a^p * u == a * u == 1
    lemma_cong_rem(x * u, m);
    lemma_cong_sym((x * u) % m, x * u, m);
    let w = pow(x, e);
    lemma_cong_refl(w, m);
    lemma_cong_times(w, w, x * u, 1, m);
    assert(w * 1 == w);
    assert(w * (x * u) == (w * x) * u) by (nonlinear_arith);
    lemma_cong_refl(u, m);
    lemma_cong_times(pow(x, p), x, u, u, m);
    lemma_cong_sym(w * (x * u), w, m);
    lemma_cong_trans(w, (w * x) * u, x * u, m);
    lemma_cong_trans(w, x * u, 1, m);
    lemma_cong_rem(w, m);
    lemma_cong_trans(w % m, w, 1, m);
    lemma_mod_bound(w, m);
    lemma_cong_eq(w % m, 1, m);
}

/// Powers of congruent numbers are congruent.
pub proof fn lemma_pow_cong(a: int, b: int, n: nat, p: int)
    requires
        p > 0,
        cong(a, b, p),
    ensures
        cong(pow(a, n), pow(b, n), p),
    decreases n,
{
    lemma_pow0(a);
    lemma_pow0(b);
    if n == 0 {
        lemma_cong_refl(1, p);
    } else {
        let n1 = (n - 1) as nat;
        lemma_pow_cong(a, b, n1, p);
        lemma_pow1(a);
        lemma_pow1(b);
        lemma_pow_adds(a, n1, 1);
        lemma_pow_adds(b, n1, 1);
        lemma_cong_times(pow(a, n1), pow(b, n1), a, b, p);
    }
}

/// Modulo a prime, a product is zero only where a factor is.
pub proof fn lemma_prime_no_zero_divisors(a: nat, b: nat, p: nat)
    requires
        is_prime(p),
        (a * b) % p == 0,
    ensures
        a % p == 0 || b % p == 0,
{
    let m = p as int;
    if a % p != 0 {
        lemma_prime_has_inverse(a, p);
        lemma_mod_inv_is_inverse(a, p);
        let u = mod_inv(a, p) as int;
        let ai = a as int;
        let bi = b as int;
        // b == (u * a) * b == u * (a * b) == 0
        lemma_cong_rem(ai * u, m);
        lemma_cong_sym((ai * u) % m, ai * u, m);
        lemma_cong_refl(bi, m);
        lemma_cong_times(ai * u, 1, bi, bi, m);
        assert(cong(ai * bi, 0, m));
        lemma_cong_refl(u, m);
        lemma_cong_times(ai * bi, 0, u, u, m);
        assert((ai * u) * bi == (ai * bi) * u) by (nonlinear_arith);
        assert(0 * u == 0);
        assert(1 * bi == bi);
        lemma_cong_sym((ai * u) * bi, bi, m);
        lemma_cong_trans(bi, (ai * u) * bi, 0, m);
    }
}

/// Modulo a prime, numbers with one square are equal or opposite.
pub proof fn lemma_roots_agree(a: nat, b: nat, p: nat)
    requires
        is_prime(p),
        a < p,
        b < p,
        mod_mul(a, a, p) == mod_mul(b, b, p),
    ensures
        a == b || a == mod_neg(b, p),
{
    let m = p as int;
    let x = a as int;
    let y = b as int;
    // (a - b) * (a + b) == a * a - b * b, a multiple of p
    lemma_cong_rem(x * x, m);
    lemma_cong_rem(y * y, m);
    lemma_cong_sym((x * x) % m, x * x, m);
    lemma_cong_trans(x * x, (x * x) % m, y * y, m);
    let d = ((x - y) % m) as nat;
    let s = ((x + y) % m) as nat;
    lemma_mod_bound(x - y, m);
    lemma_mod_bound(x + y, m);
    lemma_cong_rem(x - y, m);
    lemma_cong_rem(x + y, m);
    lemma_cong_times(d as int, x - y, s as int, x + y, m);
    assert((x - y) * (x + y) == x * x - y * y) by (nonlinear_arith);
    lemma_cong_trans((d * s) as int, (x - y) * (x + y), 0, m);
    assert((d * s) % p == 0);
    lemma_prime_no_zero_divisors(d, s, p);
    lemma_small_mod(d, p);
    lemma_small_mod(s, p);
    if d == 0 {
        lemma_cong_refl(y, m);
        lemma_cong_eq(x, y, m);
    } else {
        // a + b is a multiple of p: a is the negative of b
        lemma_mod_bound(-y, m);
        lemma_cong_rem(-y, m);
        let nb = mod_neg(b, p) as int;
        assert(cong(x + y, 0, m));
        lemma_cong_refl(y, m);
        lemma_cong_sub(x + y, 0, y, y, m);
        lemma_cong_sym(nb, -y, m);
        lemma_cong_trans(x, -y, nb, m);
        lemma_cong_eq(x, nb, m);
    }
}

/// Modulo a prime that is 3 modulo 4, the power `(p + 1) / 4` of a square is
/// a square root of it.
pub proof fn lemma_root_of_square(x: nat, y: nat, p: nat)
    requires
        is_prime(p),
        p % 4 == 3,
        x < p,
        mod_mul(y, y, p) == x,
    ensures
        ({
            let c = mod_pow(x, (p + 1) / 4, p);
            mod_mul(c, c, p) == x
        }),
{
    let m = p as int;
    let e = (p + 1) / 4;
    let c = mod_pow(x, e, p);
    let xi = x as int;
    let yi = y as int;
    lemma_pow_nonneg(x, e);
    lemma_mod_bound(pow(xi, e), m);
    lemma_cong_rem(pow(xi, e), m);
    lemma_cong_times(c as int, pow(xi, e), c as int, pow(xi, e), m);
    lemma_pow_adds(xi, e, e);
    // c * c == x^(2 e)
    lemma_cong_rem(yi * yi, m);
    lemma_pow_cong(xi, yi * yi, 2 * e, m);
    lemma_square_is_pow2(yi);
    lemma_pow_multiplies(yi, 2, 2 * e);
    assert(2 * (2 * e) == (p - 1) + 2);
    lemma_pow_adds(yi, (p - 1) as nat, 2);
    // x^(2 e) == y^(p - 1) * y^2
    let w = pow(yi, (p - 1) as nat);
    lemma_cong_refl(yi * yi, m);
    lemma_cong_sym(xi, yi * yi, m);
    if y % p == 0 {
        // x is zero, and so is the power
        lemma_cong_rem(yi, m);
        lemma_cong_sym(yi % m, yi, m);
        lemma_cong_times(yi, 0, yi, 0, m);
        assert(0int * 0int == 0);
        lemma_cong_trans(xi, yi * yi, 0, m);
        lemma_cong_refl(0, m);
        lemma_cong_eq(xi, 0, m);
        lemma_pow1(0);
        lemma_pow_adds(0, 1, (e - 1) as nat);
        assert(0 * pow(0, (e - 1) as nat) == 0);
        lemma_small_mod(0, p);
        assert(c == 0);
        assert(0 * 0 == 0) by (nonlinear_arith);
    } else {
        lemma_fermat(y, p);
        lemma_cong_times(w, 1, yi * yi, yi * yi, m);
        assert(1 * (yi * yi) == yi * yi);
        // c * c == x^(2e) == (y y)^(2e) == y^(p+1) == w * (y y) == y y == x
        lemma_cong_trans((c * c) as int, pow(xi, e) * pow(xi, e), pow(yi * yi, 2 * e), m);
        lemma_cong_trans((c * c) as int, w * (yi * yi), yi * yi, m);
        lemma_cong_sym(xi, yi * yi, m);
        lemma_cong_trans((c * c) as int, yi * yi, xi, m);
        lemma_cong_rem((c * c) as int, m);
        lemma_cong_trans(mod_mul(c, c, p) as int, (c * c) as int, xi, m);
        lemma_mod_bound((c * c) as int, m);
        lemma_cong_eq(mod_mul(c, c, p) as int, xi, m);
    }
}

/// An odd power of minus one is minus one.
pub proof fn lemma_pow_minus_one(k: nat)
    requires
        k % 2 == 1,
    ensures
        pow(-1, k) == -1,
{
    let j = (k / 2) as nat;
    assert(k == 2 * j + 1);
    lemma_pow1(-1);
    lemma_pow_adds(-1, 2 * j, 1);
    lemma_square_is_pow2(-1);
    lemma_pow_multiplies(-1, 2, j);
    lemma1_pow(j);
    assert((-1) * (-1) == 1);
    assert(1 * (-1) == -1);
}

/// Modulo a prime that is 3 modulo 4, minus one is no square.
pub proof fn lemma_minus_one_is_no_square(t: nat, p: nat)
    requires
        is_prime(p),
        p % 4 == 3,
    ensures
        mod_mul(t, t, p) != p - 1,
{
    let m = p as int;
    let ti = t as int;
    if mod_mul(t, t, p) == p - 1 {
        if t % p == 0 {
            lemma_mul_mod_noop_left(ti, ti, m);
            assert(0 * ti == 0);
            lemma_small_mod(0, p);
        }
        lemma_fermat(t, p);
        let k = ((p - 1) / 2) as nat;
        assert(2 * k == p - 1);
        assert(k % 2 == 1);
        // t^(p-1) == (t t)^k == (-1)^k == -1
        lemma_cong_rem(ti * ti, m);
        lemma_cong_sym((ti * ti) % m, ti * ti, m);
        lemma_mod_unique(p - 1, p - 1, 0, m);
        lemma_cong_rem(-1, m);
        lemma_mod_unique(-1, p - 1, -1, m);
        lemma_cong_sym((-1int) % m, -1, m);
        lemma_cong_trans(ti * ti, (p - 1) as int, -1, m);
        lemma_pow_cong(ti * ti, -1, k, m);
        lemma_pow_minus_one(k);
        lemma_square_is_pow2(ti);
        lemma_pow_multiplies(ti, 2, k);
        lemma_cong_sym(pow(ti, (p - 1) as nat), 1, m);
        lemma_cong_trans(1, pow(ti, (p - 1) as nat), -1, m);
        // 1 == -1 modulo p: p divides 2
        lemma_small_mod(2, p);
        assert(false);
    }
}

/// Modulo a prime that is 3 modulo 4, the negative of the square of a number
/// that is no multiple of the prime is no square.
pub proof fn lemma_negative_square_is_no_square(u: nat, w: nat, p: nat)
    requires
        is_prime(p),
        p % 4 == 3,
        u % p != 0,
    ensures
        mod_mul(w, w, p) != mod_neg(mod_mul(u, u, p), p),
{
    let m = p as int;
    let ui = u as int;
    let wi = w as int;
    if mod_mul(w, w, p) == mod_neg(mod_mul(u, u, p), p) {
        lemma_prime_has_inverse(u, p);
        lemma_mod_inv_is_inverse(u, p);
        let v = mod_inv(u, p) as int;
        let t = ((w * mod_inv(u, p)) % p) as nat;
        // t t == (w v)(w v) == (w w)(v v) == -(u u)(v v) == -(u v)(u v) == -1
        lemma_mod_bound(wi * v, m);
        lemma_cong_rem(wi * v, m);
        lemma_cong_times(t as int, wi * v, t as int, wi * v, m);
        assert((wi * v) * (wi * v) == (wi * wi) * (v * v)) by (nonlinear_arith);
        lemma_cong_rem(wi * wi, m);
        lemma_cong_sym((wi * wi) % m, wi * wi, m);
        lemma_cong_rem(ui * ui, m);
        lemma_mod_bound(ui * ui, m);
        lemma_cong_rem(0 - (ui * ui) % m, m);
        lemma_cong_refl(0, m);
        lemma_cong_sub(0, 0, (ui * ui) % m, ui * ui, m);
        lemma_cong_trans(
            mod_neg(mod_mul(u, u, p), p) as int,
            0 - (ui * ui) % m,
            0 - ui * ui,
            m,
        );
        lemma_cong_trans(wi * wi, mod_mul(w, w, p) as int, 0 - ui * ui, m);
        lemma_cong_refl(v * v, m);
        lemma_cong_times(wi * wi, 0 - ui * ui, v * v, v * v, m);
        assert((0 - ui * ui) * (v * v) == 0 - (ui * v) * (ui * v)) by (nonlinear_arith);
        lemma_cong_rem(ui * v, m);
        lemma_cong_sym((ui * v) % m, ui * v, m);
        lemma_cong_times(ui * v, 1, ui * v, 1, m);
        lemma_cong_sub(0, 0, (ui * v) * (ui * v), 1int * 1int, m);
        lemma_cong_trans((t * t) as int, (wi * wi) * (v * v), 0 - (ui * v) * (ui * v), m);
        lemma_cong_trans((t * t) as int, 0 - (ui * v) * (ui * v), 0 - 1int * 1int, m);
        lemma_cong_rem((t * t) as int, m);
        lemma_cong_trans(mod_mul(t, t, p) as int, (t * t) as int, -1, m);
        lemma_mod_unique(-1, p - 1, -1, m);
        lemma_cong_rem(-1, m);
        lemma_cong_sym((-1int) % m, -1, m);
        lemma_cong_trans(mod_mul(t, t, p) as int, -1, (p - 1) as int, m);
        lemma_mod_bound((t * t) as int, m);
        lemma_cong_eq(mod_mul(t, t, p) as int, (p - 1) as int, m);
        lemma_minus_one_is_no_square(t, p);
    }
}

} // verus!
