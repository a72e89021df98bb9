//! Inversion modulo an odd modulus by the binary extended Euclidean algorithm.
//!
//! The algorithm needs no primality: it returns the inverse where one exists
//! and zero where none does.

use crate::limbs::{
    add_limbs, base, is_zero_limbs, lemma_prefix_val_ext, lemma_prefix_val_injective,
    lemma_radix_pos, less_than, limbs_val, prefix_val, radix, sub_limbs, zero_limbs,
};
use crate::modmath::{
    divides, has_inverse, is_inverse, lemma_cancel_unit, lemma_mod_inv_eq, lemma_mod_unique,
    lemma_zero_has_no_inverse, mod_inv,
};
use crate::modular::{one_limbs, sub_mod, Modulus};
use vstd::arithmetic::div_mod::{
    lemma_add_mod_noop, lemma_fundamental_div_mod, lemma_mod_self_0, lemma_mul_mod_noop_right,
    lemma_small_mod, lemma_sub_mod_noop,
};
use vstd::prelude::*;

verus! {

/// The parity of a number is the parity of its lowest limb.
pub proof fn lemma_parity(s: Seq<u64>, n: nat)
    requires
        n >= 1,
    ensures
        prefix_val(s, n) % 2 == (s[0] as nat) % 2,
    decreases n,
{
    if n == 1 {
        assert(prefix_val(s, 1) == prefix_val(s, 0) + (s[0] as nat) * radix(0));
        assert(radix(0) == 1);
        assert((s[0] as nat) * 1 == s[0] as nat);
    } else {
        lemma_parity(s, (n - 1) as nat);
        let r2 = radix((n - 2) as nat);
        let d = s[n - 1] as nat;
        let r1 = radix((n - 1) as nat);
        let k = d * 0x8000_0000_0000_0000 * r2;
        assert(r1 == base() * r2);
        assert(d * r1 == 2 * k) by (nonlinear_arith)
            requires
                r1 == 0x1_0000_0000_0000_0000 * r2,
                k == d * 0x8000_0000_0000_0000 * r2,
        ;
        assert(prefix_val(s, n) == prefix_val(s, (n - 1) as nat) + 2 * k);
    }
}

/// Whether two numbers are equal.
pub fn eq_limbs<const N: usize>(a: &[u64; N], b: &[u64; N]) -> (r: bool)
    ensures
        r == (limbs_val(a@) == limbs_val(b@)),
        r == (a@ == b@),
{
    let mut j: usize = 0;
    while j < N
        invariant
            j <= N,
            forall|k: int| 0 <= k < j ==> a[k] == b[k],
        decreases N - j,
    {
        if a[j] != b[j] {
            proof {
                if limbs_val(a@) == limbs_val(b@) {
                    lemma_prefix_val_injective(a@, b@, N as nat);
                }
            }
            return false;
        }
        j = j + 1;
    }
    proof {
        lemma_prefix_val_ext(a@, b@, N as nat);
        assert(a@ =~= b@);
    }
    true
}

proof fn lemma_shr_step(pt: int, tj: int, aj: int, hb: int, lb: int, rj: int, pa: int, a0: int)
    requires
        tj == aj / 2 + hb * 0x8000_0000_0000_0000,
        lb == aj % 2,
        2 * pt + a0 == pa + lb * rj,
    ensures
        2 * (pt + tj * rj) + a0 == (pa + aj * rj) + hb * (base() * rj),
{
    assert(aj == 2 * (aj / 2) + lb);
    assert(2 * (tj * rj) == (2 * (aj / 2)) * rj + hb * (base() * rj)) by (nonlinear_arith)
        requires
            tj == aj / 2 + hb * 0x8000_0000_0000_0000,
    ;
    assert((2 * (aj / 2) + lb) * rj == (2 * (aj / 2)) * rj + lb * rj) by (nonlinear_arith);
}

/// Half of `a`, rounded down.
pub fn shr1<const N: usize>(a: &[u64; N]) -> (r: [u64; N])
    requires
        N > 0,
    ensures
        2 * limbs_val(r@) + (a[0] as nat) % 2 == limbs_val(a@),
{
    let mut t: [u64; N] = *a;
    let mut j: usize = 0;
    proof {
        assert(radix(0) == 1);
        assert(((a[0] as nat) % 2) * 1 == (a[0] as nat) % 2);
    }
    while j < N
        invariant
            j <= N,
            N > 0,
            2 * prefix_val(t@, j as nat) + (a[0] as nat) % 2 == prefix_val(a@, j as nat) + (if j
                < N {
                (a[j as int] as nat) % 2
            } else {
                0
            }) * radix(j as nat),
        decreases N - j,
    {
        let hb: u64 = if j + 1 < N {
            a[j + 1] % 2
        } else {
            0
        };
        let x: u64 = a[j] / 2 + hb * 0x8000_0000_0000_0000;
        let ghost t0 = t@;
        t[j] = x;
        proof {
            lemma_prefix_val_ext(t0, t@, j as nat);
            lemma_shr_step(
                prefix_val(t0, j as nat) as int,
                x as int,
                a[j as int] as int,
                hb as int,
                (a[j as int] as int) % 2,
                radix(j as nat) as int,
                prefix_val(a@, j as nat) as int,
                ((a[0] as nat) % 2) as int,
            );
            assert(radix((j + 1) as nat) == base() * radix(j as nat));
            if j + 1 >= N {
                assert(0 * radix((j + 1) as nat) == 0);
                assert((hb as int) * (base() * radix(j as nat)) == 0) by (nonlinear_arith)
                    requires
                        hb == 0,
                ;
            }
        }
        j = j + 1;
    }
    proof {
        assert(0 * radix(N as nat) == 0);
    }
    t
}

/// Half of `x` modulo the modulus: the number whose double is `x`.
pub fn half_mod<const N: usize>(x: &[u64; N], m: &Modulus<N>) -> (r: [u64; N])
    requires
        m.wf(),
        limbs_val(x@) < m.value(),
    ensures
        limbs_val(r@) < m.value(),
        (2 * limbs_val(r@)) % m.value() == limbs_val(x@),
{
    proof {
        lemma_parity(x@, N as nat);
        lemma_parity(m.p@, N as nat);
    }
    if x[0] % 2 == 0 {
        let r = shr1(x);
        proof {
            lemma_small_mod(limbs_val(x@), m.value());
        }
        r
    } else {
        let (s, c) = add_limbs(x, &m.p);
        proof {
            lemma_radix_pos(N as nat);
            assert(c == 0 && (c as nat) * radix(N as nat) == 0) by (nonlinear_arith)
                requires
                    limbs_val(s@) + (c as nat) * radix(N as nat) < radix(N as nat),
                    radix(N as nat) > 0,
            ;
            lemma_parity(s@, N as nat);
        }
        let r = shr1(&s);
        proof {
            lemma_mod_unique(
                (2 * limbs_val(r@)) as int,
                limbs_val(x@) as int,
                1,
                m.value() as int,
            );
        }
        r
    }
}

proof fn lemma_halve_congruence(a: int, x: int, h: int, u: int, u2: int, p: int)
    requires
        p > 2,
        p % 2 == 1,
        (a * x) % p == u % p,
        u == 2 * u2,
        (2 * h) % p == x % p,
    ensures
        (a * h) % p == u2 % p,
{
    lemma_mul_mod_noop_right(a, 2 * h, p);
    lemma_mul_mod_noop_right(a, x, p);
    assert(a * (2 * h) == (a * h) * 2) by (nonlinear_arith);
    assert(2 * u2 == u2 * 2);
    let half = (p + 1) / 2;
    assert(2 * half == p + 1);
    lemma_mod_unique(2 * half, 1, 1, p);
    lemma_cancel_unit(a * h, u2, 2, half, p);
}

proof fn lemma_sub_congruence(a: int, x1: int, x2: int, d: int, u: int, v: int, p: int)
    requires
        p > 0,
        (a * x1) % p == u % p,
        (a * x2) % p == v % p,
        d == (x1 - x2) % p,
    ensures
        (a * d) % p == (u - v) % p,
{
    lemma_mul_mod_noop_right(a, x1 - x2, p);
    assert(a * (x1 - x2) == a * x1 - a * x2) by (nonlinear_arith);
    lemma_sub_mod_noop(a * x1, a * x2, p);
    lemma_sub_mod_noop(u, v, p);
}

proof fn lemma_divides_double(d: nat, n: nat)
    requires
        divides(d, n),
    ensures
        divides(d, 2 * n),
{
    lemma_mul_mod_noop_right(2, n as int, d as int);
    lemma_small_mod(0, d);
}

proof fn lemma_divides_sum(d: nat, x: nat, y: nat)
    requires
        divides(d, x),
        divides(d, y),
    ensures
        divides(d, x + y),
{
    lemma_add_mod_noop(x as int, y as int, d as int);
    lemma_small_mod(0, d);
}

/// A number that shares a divisor above 1 with the modulus has no inverse.
pub proof fn lemma_common_divisor_no_inverse(a: nat, p: nat, g: nat)
    requires
        g > 1,
        divides(g, a),
        divides(g, p),
        p > 0,
    ensures
        !has_inverse(a, p),
{
    assert forall|b: nat| !is_inverse(a, b, p) by {
        if is_inverse(a, b, p) {
            let ab = (a * b) as int;
            lemma_fundamental_div_mod(ab, p as int);
            lemma_fundamental_div_mod(a as int, g as int);
            lemma_fundamental_div_mod(p as int, g as int);
            let q = ab / (p as int);
            let a1 = (a as int) / (g as int);
            let p1 = (p as int) / (g as int);
            let gi = g as int;
            let k = a1 * (b as int) - p1 * q;
            assert(gi * k == 1) by (nonlinear_arith)
                requires
                    (a as int) * (b as int) == (p as int) * q + 1,
                    a as int == gi * a1,
                    p as int == gi * p1,
                    k == a1 * (b as int) - p1 * q,
            ;
            assert(false) by (nonlinear_arith)
                requires
                    gi * k == 1,
                    gi > 1,
            ;
        }
    }
}

/// The inverse of `a` modulo the modulus, and zero where `a` has none.
pub fn inv_mod<const N: usize>(a: &[u64; N], m: &Modulus<N>) -> (r: [u64; N])
    requires
        m.wf(),
        limbs_val(a@) < m.value(),
    ensures
        limbs_val(r@) < m.value(),
        limbs_val(r@) == mod_inv(limbs_val(a@), m.value()),
{
    let ghost av = limbs_val(a@);
    let ghost p = m.value();
    if is_zero_limbs(a) {
        proof {
            lemma_zero_has_no_inverse(p);
        }
        return zero_limbs(a);
    }
    let mut u: [u64; N] = *a;
    let mut v: [u64; N] = m.p;
    let mut x1: [u64; N] = one_limbs(a);
    let mut x2: [u64; N] = zero_limbs(a);
    proof {
        assert(av * 1 == av);
        assert(av * 0 == 0);
        lemma_mod_self_0(p as int);
        lemma_small_mod(0, p);
    }
    while !eq_limbs(&u, &v)
        invariant
            m.wf(),
            p == m.value(),
            av == limbs_val(a@),
            0 < limbs_val(u@) <= p,
            0 < limbs_val(v@) <= p,
            limbs_val(x1@) < p,
            limbs_val(x2@) < p,
            (av * limbs_val(x1@)) % p == limbs_val(u@) % p,
            (av * limbs_val(x2@)) % p == limbs_val(v@) % p,
            forall|d: nat|
                #![trigger divides(d, limbs_val(u@)), divides(d, limbs_val(v@))]
                divides(d, limbs_val(u@)) && divides(d, limbs_val(v@)) ==> divides(d, av)
                    && divides(d, p),
        decreases limbs_val(u@) + limbs_val(v@),
    {
        let ghost uv = limbs_val(u@);
        let ghost vv = limbs_val(v@);
        proof {
            lemma_parity(u@, N as nat);
            lemma_parity(v@, N as nat);
        }
        if u[0] % 2 == 0 {
            let u2 = shr1(&u);
            let h = half_mod(&x1, m);
            proof {
                lemma_small_mod(limbs_val(x1@), p);
                lemma_halve_congruence(
                    av as int,
                    limbs_val(x1@) as int,
                    limbs_val(h@) as int,
                    uv as int,
                    limbs_val(u2@) as int,
                    p as int,
                );
                assert forall|d: nat|
                    divides(d, limbs_val(u2@)) && divides(d, vv) implies divides(d, av) && divides(
                    d,
                    p,
                ) by {
                    lemma_divides_double(d, limbs_val(u2@));
                    assert(divides(d, uv));
                }
            }
            u = u2;
            x1 = h;
        } else if v[0] % 2 == 0 {
            let v2 = shr1(&v);
            let h = half_mod(&x2, m);
            proof {
                lemma_small_mod(limbs_val(x2@), p);
                lemma_halve_congruence(
                    av as int,
                    limbs_val(x2@) as int,
                    limbs_val(h@) as int,
                    vv as int,
                    limbs_val(v2@) as int,
                    p as int,
                );
                assert forall|d: nat|
                    divides(d, uv) && divides(d, limbs_val(v2@)) implies divides(d, av) && divides(
                    d,
                    p,
                ) by {
                    lemma_divides_double(d, limbs_val(v2@));
                    assert(divides(d, vv));
                }
            }
            v = v2;
            x2 = h;
        } else if less_than(&v, &u) {
            let (u2, borrow) = sub_limbs(&u, &v);
            let d12 = sub_mod(&x1, &x2, m);
            proof {
                assert((borrow as int) * radix(N as nat) == 0) by (nonlinear_arith)
                    requires
                        borrow == 0,
                ;
                lemma_sub_congruence(
                    av as int,
                    limbs_val(x1@) as int,
                    limbs_val(x2@) as int,
                    limbs_val(d12@) as int,
                    uv as int,
                    vv as int,
                    p as int,
                );
                assert forall|d: nat|
                    divides(d, limbs_val(u2@)) && divides(d, vv) implies divides(d, av) && divides(
                    d,
                    p,
                ) by {
                    lemma_divides_sum(d, limbs_val(u2@), vv);
                    assert(divides(d, uv));
                }
            }
            u = u2;
            x1 = d12;
        } else {
            let (v2, borrow) = sub_limbs(&v, &u);
            let d21 = sub_mod(&x2, &x1, m);
            proof {
                assert((borrow as int) * radix(N as nat) == 0) by (nonlinear_arith)
                    requires
                        borrow == 0,
                ;
                lemma_sub_congruence(
                    av as int,
                    limbs_val(x2@) as int,
                    limbs_val(x1@) as int,
                    limbs_val(d21@) as int,
                    vv as int,
                    uv as int,
                    p as int,
                );
                assert forall|d: nat|
                    divides(d, uv) && divides(d, limbs_val(v2@)) implies divides(d, av) && divides(
                    d,
                    p,
                ) by {
                    lemma_divides_sum(d, limbs_val(v2@), uv);
                    assert(divides(d, vv));
                }
            }
            v = v2;
            x2 = d21;
        }
    }
    let one = one_limbs(a);
    if eq_limbs(&u, &one) {
        proof {
            lemma_small_mod(1, p);
            assert(is_inverse(av, limbs_val(x1@), p));
            lemma_mod_inv_eq(av, limbs_val(x1@), p);
        }
        x1
    } else {
        proof {
            let g = limbs_val(u@);
            lemma_mod_self_0(g as int);
            assert(divides(g, limbs_val(u@)) && divides(g, limbs_val(v@)));
            lemma_common_divisor_no_inverse(av, p, g);
        }
        zero_limbs(a)
    }
}

} // verus!
