//! Arithmetic modulo an odd multi-limb modulus: the engine under the prime
//! fields. Operands and results are plain (fully reduced) numbers.

use crate::limbs::{
    add_limbs, base, lemma_prefix_val_bound, lemma_radix_pos, limbs_val, prefix_val, radix,
    sub_limbs, zero_limbs,
};
use crate::modmath::{
    lemma_cancel_unit, lemma_mod_pow_step, lemma_mod_unique, mod_add, mod_mul, mod_neg, mod_pow,
    mod_sub,
};
use crate::montgomery::{mont_mul, mont_ok};
use vstd::arithmetic::div_mod::{
    lemma_mul_mod_noop_left, lemma_mul_mod_noop_right, lemma_small_mod,
};
use vstd::arithmetic::power::{lemma_pow_adds, pow};
use vstd::arithmetic::power2::{lemma2_to64, lemma_pow2_unfold, pow2};
use vstd::prelude::*;

verus! {

/// A modulus with the constants that multiplication needs.
pub struct Modulus<const N: usize> {
    /// The modulus.
    pub p: [u64; N],
    /// The negated inverse of the modulus, modulo the limb radix.
    pub n0: u64,
    /// `radix(N)` squared, modulo the modulus.
    pub r2: [u64; N],
    /// The inverse of `radix(N)` modulo the modulus.
    pub rinv: Ghost<nat>,
}

impl<const N: usize> Modulus<N> {
    /// The modulus as a number.
    pub open spec fn value(&self) -> nat {
        limbs_val(self.p@)
    }

    /// The constants belong to the modulus, which is odd and above 2.
    pub open spec fn wf(&self) -> bool {
        &&& mont_ok(self.p@, self.n0)
        &&& self.value() % 2 == 1
        &&& self.value() > 2
        &&& limbs_val(self.r2@) == (radix(N as nat) * radix(N as nat)) % self.value()
        &&& (radix(N as nat) * self.rinv@) % self.value() == 1
    }
}

/// The number 1.
pub fn one_limbs<const N: usize>(like: &[u64; N]) -> (r: [u64; N])
    requires
        N > 0,
    ensures
        limbs_val(r@) == 1,
{
    small_limbs(like, 1)
}

/// The number `v`, which fits one limb.
pub fn small_limbs<const N: usize>(like: &[u64; N], v: u64) -> (r: [u64; N])
    requires
        N > 0,
    ensures
        limbs_val(r@) == v,
        r[0] == v,
        forall|k: int| 1 <= k < N ==> r[k] == 0,
{
    let mut t = zero_limbs(like);
    t[0] = v;
    proof {
        lemma_single_limb(t@, N as nat);
    }
    t
}

/// A number whose limbs above the lowest are zero is its lowest limb.
pub proof fn lemma_single_limb(s: Seq<u64>, n: nat)
    requires
        1 <= n <= s.len(),
        forall|k: int| 1 <= k < n ==> s[k] == 0,
    ensures
        prefix_val(s, n) == s[0],
    decreases n,
{
    if n == 1 {
        let d = s[0] as nat;
        assert(prefix_val(s, 1) == prefix_val(s, 0) + d * radix(0));
        assert(prefix_val(s, 0) == 0);
        assert(d * radix(0) == d) by (nonlinear_arith)
            requires
                radix(0) == 1,
        ;
    } else {
        lemma_single_limb(s, (n - 1) as nat);
        assert(0 * radix((n - 1) as nat) == 0);
        assert(prefix_val(s, n) == prefix_val(s, (n - 1) as nat) + (s[n - 1] as nat) * radix(
            (n - 1) as nat,
        ));
    }
}

/// `a + b` modulo the modulus.
pub fn add_mod<const N: usize>(a: &[u64; N], b: &[u64; N], m: &Modulus<N>) -> (r: [u64; N])
    requires
        m.wf(),
        limbs_val(a@) < m.value(),
        limbs_val(b@) < m.value(),
    ensures
        limbs_val(r@) < m.value(),
        limbs_val(r@) == mod_add(limbs_val(a@), limbs_val(b@), m.value()),
{
    let (s, c) = add_limbs(a, b);
    proof {
        lemma_radix_pos(N as nat);
        assert(c == 0) by (nonlinear_arith)
            requires
                limbs_val(s@) + (c as nat) * radix(N as nat) < radix(N as nat),
                radix(N as nat) > 0,
        ;
        assert((c as nat) * radix(N as nat) == 0) by (nonlinear_arith)
            requires
                c == 0,
        ;
    }
    let (d, borrow) = sub_limbs(&s, &m.p);
    if borrow == 0 {
        proof {
            assert((borrow as int) * radix(N as nat) == 0) by (nonlinear_arith)
                requires
                    borrow == 0,
            ;
            lemma_mod_unique(
                (limbs_val(a@) + limbs_val(b@)) as int,
                limbs_val(d@) as int,
                1,
                m.value() as int,
            );
        }
        d
    } else {
        proof {
            lemma_small_mod(limbs_val(s@), m.value());
        }
        s
    }
}

/// `a - b` modulo the modulus.
pub fn sub_mod<const N: usize>(a: &[u64; N], b: &[u64; N], m: &Modulus<N>) -> (r: [u64; N])
    requires
        m.wf(),
        limbs_val(a@) < m.value(),
        limbs_val(b@) < m.value(),
    ensures
        limbs_val(r@) < m.value(),
        limbs_val(r@) == mod_sub(limbs_val(a@), limbs_val(b@), m.value()),
{
    let (d, borrow) = sub_limbs(a, b);
    if borrow == 0 {
        proof {
            assert((borrow as int) * radix(N as nat) == 0) by (nonlinear_arith)
                requires
                    borrow == 0,
            ;
            lemma_small_mod(limbs_val(d@), m.value());
        }
        d
    } else {
        let (r, c) = add_limbs(&d, &m.p);
        proof {
            let rn = radix(N as nat) as int;
            lemma_radix_pos(N as nat);
            lemma_prefix_val_bound(r@, N as nat);
            assert((borrow as int) * rn == rn) by (nonlinear_arith)
                requires
                    borrow == 1,
            ;
            assert(c == 1 && (c as int) * rn == rn) by (nonlinear_arith)
                requires
                    limbs_val(r@) as int + (c as int) * rn >= rn,
                    limbs_val(r@) < rn,
                    c <= 1,
                    rn > 0,
            ;
            lemma_mod_unique(
                limbs_val(a@) as int - limbs_val(b@) as int,
                limbs_val(r@) as int,
                -1,
                m.value() as int,
            );
        }
        r
    }
}

/// `-a` modulo the modulus.
pub fn neg_mod<const N: usize>(a: &[u64; N], m: &Modulus<N>) -> (r: [u64; N])
    requires
        m.wf(),
        limbs_val(a@) < m.value(),
    ensures
        limbs_val(r@) < m.value(),
        limbs_val(r@) == mod_neg(limbs_val(a@), m.value()),
{
    let z = zero_limbs(a);
    sub_mod(&z, a, m)
}

/// `a * b` modulo the modulus.
pub fn mul_mod<const N: usize>(a: &[u64; N], b: &[u64; N], m: &Modulus<N>) -> (r: [u64; N])
    requires
        m.wf(),
        limbs_val(a@) < m.value(),
    ensures
        limbs_val(r@) < m.value(),
        limbs_val(r@) == mod_mul(limbs_val(a@), limbs_val(b@), m.value()),
{
    let m1 = mont_mul(a, b, &m.p, m.n0);
    let m2 = mont_mul(&m1, &m.r2, &m.p, m.n0);
    proof {
        let p = m.value() as int;
        let rn = radix(N as nat) as int;
        let ab = (limbs_val(a@) * limbs_val(b@)) as int;
        let v1 = limbs_val(m1@) as int;
        let v2 = limbs_val(m2@) as int;
        // v2 * R == v1 * (R * R % p) == (v1 * R) * R == (a * b) * R  (mod p)
        lemma_mul_mod_noop_right(v1, rn * rn, p);
        assert(v1 * (rn * rn) == (v1 * rn) * rn) by (nonlinear_arith);
        lemma_mul_mod_noop_left(v1 * rn, rn, p);
        lemma_mul_mod_noop_left(ab, rn, p);
        assert((v2 * rn) % p == (ab * rn) % p);
        lemma_cancel_unit(v2, ab, rn, m.rinv@ as int, p);
        lemma_small_mod(v2 as nat, p as nat);
    }
    m2
}

/// `a` to the power `e` modulo the modulus.
pub fn pow_mod<const N: usize>(a: &[u64; N], e: &[u64; N], m: &Modulus<N>) -> (r: [u64; N])
    requires
        m.wf(),
        limbs_val(a@) < m.value(),
    ensures
        limbs_val(r@) < m.value(),
        limbs_val(r@) == mod_pow(limbs_val(a@), limbs_val(e@), m.value()),
{
    let mut acc: [u64; N] = one_limbs(a);
    let mut sq: [u64; N] = *a;
    let ghost av = limbs_val(a@);
    let ghost p = m.value();
    let mut k: usize = 0;
    proof {
        lemma_mod_pow_step(av, 0, p);
        lemma_small_mod(1, p);
        lemma_pow_adds(av as int, 0, 1);
        vstd::arithmetic::power::lemma_pow1(av as int);
        lemma_small_mod(av, p);
        assert(radix(0) == 1);
    }
    while k < N
        invariant
            k <= N,
            m.wf(),
            p == m.value(),
            av == limbs_val(a@),
            av < p,
            limbs_val(acc@) == mod_pow(av, prefix_val(e@, k as nat), p),
            limbs_val(sq@) == mod_pow(av, radix(k as nat), p),
            limbs_val(acc@) < p,
            limbs_val(sq@) < p,
        decreases N - k,
    {
        let mut w: u64 = e[k];
        let mut s: u32 = 0;
        let ghost mut low: nat = 0;
        let ghost pk = prefix_val(e@, k as nat);
        let ghost rk = radix(k as nat);
        proof {
            vstd::arithmetic::power2::lemma2_to64();
            assert(pow2(0) == 1);
            assert(0 * rk == 0);
            assert(1 * rk == rk);
            assert((w as nat) * 1 == w as nat);
        }
        while s < 64
            invariant
                s <= 64,
                k < N,
                m.wf(),
                p == m.value(),
                av < p,
                pk == prefix_val(e@, k as nat),
                rk == radix(k as nat),
                e[k as int] as nat == (w as nat) * pow2(s as nat) + low,
                low < pow2(s as nat),
                limbs_val(acc@) == mod_pow(av, pk + low * rk, p),
                limbs_val(sq@) == mod_pow(av, pow2(s as nat) * rk, p),
                limbs_val(acc@) < p,
                limbs_val(sq@) < p,
            decreases 64 - s,
        {
            let bit = w % 2;
            let ghost ws = pow2(s as nat);
            if bit == 1 {
                acc = mul_mod(&acc, &sq, m);
            }
            let sq2 = mul_mod(&sq, &sq, m);
            proof {
                lemma_pow2_unfold((s + 1) as nat);
                assert(pow2((s + 1) as nat) == 2 * ws);
                lemma_exp_step(av, p, pk + low * rk, ws * rk, bit as nat);
                assert((2 * ws) * rk == 2 * (ws * rk)) by (nonlinear_arith);
                assert((low + bit as nat * ws) * rk == low * rk + bit as nat * (ws * rk))
                    by (nonlinear_arith);
                assert(((w / 2) as nat) * (2 * ws) + (low + (bit as nat) * ws) == (w as nat) * ws
                    + low) by (nonlinear_arith)
                    requires
                        w as nat == 2 * ((w / 2) as nat) + bit as nat,
                ;
                assert(low + (bit as nat) * ws < 2 * ws) by (nonlinear_arith)
                    requires
                        low < ws,
                        bit <= 1,
                ;
                low = low + (bit as nat) * ws;
            }
            sq = sq2;
            w = w / 2;
            s = s + 1;
        }
        proof {
            lemma2_to64();
            assert(pow2(64) == base());
            assert(w == 0) by (nonlinear_arith)
                requires
                    e[k as int] as nat == (w as nat) * base() + low,
                    e[k as int] < base(),
            ;
            assert(prefix_val(e@, (k + 1) as nat) == pk + (e[k as int] as nat) * rk);
            assert(radix((k + 1) as nat) == base() * rk);
        }
        k = k + 1;
    }
    acc
}

/// One step of binary exponentiation: the accumulator takes the factor where
/// the exponent's bit is set, and the running square is squared.
proof fn lemma_exp_step(a: nat, p: nat, done: nat, weight: nat, bit: nat)
    requires
        p > 0,
        bit <= 1,
    ensures
        mod_pow(a, done + bit * weight, p) == if bit == 1 {
            mod_mul(mod_pow(a, done, p), mod_pow(a, weight, p), p)
        } else {
            mod_pow(a, done, p)
        },
        mod_pow(a, 2 * weight, p) == mod_mul(mod_pow(a, weight, p), mod_pow(a, weight, p), p),
{
    let x = a as int;
    let m = p as int;
    lemma_mod_pow_step(a, weight, p);
    if bit == 1 {
        assert(bit * weight == weight);
        lemma_pow_adds(x, done, weight);
        crate::modmath::lemma_pow_nonneg(a, done);
        crate::modmath::lemma_pow_nonneg(a, weight);
        lemma_mul_mod_noop_left(pow(x, done), pow(x, weight), m);
        lemma_mul_mod_noop_right(pow(x, done) % m, pow(x, weight), m);
        vstd::arithmetic::div_mod::lemma_mod_bound(pow(x, done), m);
        vstd::arithmetic::div_mod::lemma_mod_bound(pow(x, weight), m);
    } else {
        assert(bit * weight == 0);
    }
}

} // verus!
