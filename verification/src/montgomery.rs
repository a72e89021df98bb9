//! Montgomery multiplication on multi-limb numbers.
//!
//! For an odd modulus `p` of `N` limbs with `2 * p <= radix(N)`, [`mont_mul`]
//! returns `a * b / radix(N)` modulo `p`. The field types build their plain
//! modular product from two such multiplications.

use crate::limbs::{
    base, lemma_chain_step, lemma_prefix_val_ext, lemma_radix_pos, limbs_val, mac, prefix_val,
    radix, split, sub_limbs, zero_limbs,
};
use vstd::arithmetic::div_mod::*;
use vstd::prelude::*;

verus! {

/// What Montgomery reduction needs of a modulus `p` and its limb constant `n0`:
/// `n0` is the negated inverse of `p` modulo the limb radix, and twice `p`
/// fits the limbs.
pub open spec fn mont_ok(p: Seq<u64>, n0: u64) -> bool {
    &&& p.len() > 0
    &&& limbs_val(p) > 0
    &&& 2 * limbs_val(p) <= radix(p.len())
    &&& ((p[0] as nat) * (n0 as nat)) % base() == base() - 1
}

proof fn lemma_addmul_step(
    lo: int,
    hi: int,
    tj: int,
    aj: int,
    b: int,
    c: int,
    rj: int,
    po: int,
    pt: int,
    pa: int,
)
    requires
        lo + hi * base() == tj + aj * b + c,
        po + c * rj == pt + pa * b,
    ensures
        (po + lo * rj) + hi * (base() * rj) == (pt + tj * rj) + (pa + aj * rj) * b,
{
    lemma_chain_step(lo, hi, tj + aj * b + c, rj);
    assert((tj + aj * b + c) * rj == tj * rj + (aj * rj) * b + c * rj) by (nonlinear_arith);
    assert((pa + aj * rj) * b == pa * b + (aj * rj) * b) by (nonlinear_arith);
}

/// `t + a * b` for a single limb `b`, with the limb carried out of the top.
pub fn addmul_row<const N: usize>(t: &[u64; N], a: &[u64; N], b: u64) -> (r: ([u64; N], u64))
    ensures
        limbs_val(r.0@) + (r.1 as nat) * radix(N as nat) == limbs_val(t@) + limbs_val(a@) * (
        b as nat),
{
    let mut out: [u64; N] = *t;
    let mut carry: u64 = 0;
    let mut j: usize = 0;
    proof {
        assert(prefix_val(a@, 0) * (b as nat) == 0) by (nonlinear_arith)
            requires
                prefix_val(a@, 0) == 0,
        ;
    }
    while j < N
        invariant
            j <= N,
            prefix_val(out@, j as nat) + (carry as nat) * radix(j as nat) == prefix_val(
                t@,
                j as nat,
            ) + prefix_val(a@, j as nat) * (b as nat),
            forall|k: int| j <= k < N ==> out[k] == t[k],
        decreases N - j,
    {
        let (lo, hi) = mac(out[j], a[j], b, carry);
        let ghost o0 = out@;
        out[j] = lo;
        proof {
            lemma_prefix_val_ext(o0, out@, j as nat);
            lemma_addmul_step(
                lo as int,
                hi as int,
                t[j as int] as int,
                a[j as int] as int,
                b as int,
                carry as int,
                radix(j as nat) as int,
                prefix_val(o0, j as nat) as int,
                prefix_val(t@, j as nat) as int,
                prefix_val(a@, j as nat) as int,
            );
        }
        carry = hi;
        j = j + 1;
    }
    (out, carry)
}

proof fn lemma_low_limb_vanishes(t0: int, n0: int, p0: int, m: int)
    requires
        0 <= t0,
        0 <= n0,
        0 <= p0,
        (p0 * n0) % (base() as int) == base() - 1,
        m == (t0 * n0) % (base() as int),
    ensures
        (t0 + m * p0) % (base() as int) == 0,
{
    let b = base() as int;
    lemma_mul_mod_noop_left(t0 * n0, p0, b);
    assert((t0 * n0) * p0 == t0 * (p0 * n0)) by (nonlinear_arith);
    lemma_mul_mod_noop_right(t0, p0 * n0, b);
    assert((m * p0) % b == (t0 * (b - 1)) % b);
    lemma_add_mod_noop_right(t0, m * p0, b);
    lemma_add_mod_noop_right(t0, t0 * (b - 1), b);
    assert(t0 + t0 * (b - 1) == t0 * b) by (nonlinear_arith);
    lemma_mod_multiples_basic(t0, b);
}

proof fn lemma_reduce_step(
    lo: int,
    hi: int,
    tj: int,
    m: int,
    pj: int,
    c: int,
    rj1: int,
    po: int,
    pt: int,
    pp: int,
)
    requires
        lo + hi * base() == tj + m * pj + c,
        po * base() + c * (base() * rj1) == pt + m * pp,
    ensures
        (po + lo * rj1) * base() + hi * (base() * (base() * rj1)) == (pt + tj * (base() * rj1)) + m
            * (pp + pj * (base() * rj1)),
{
    let rj = base() * rj1;
    lemma_chain_step(lo, hi, tj + m * pj + c, rj);
    assert((po + lo * rj1) * base() == po * base() + lo * rj) by (nonlinear_arith)
        requires
            rj == base() * rj1,
    ;
    assert((tj + m * pj + c) * rj == tj * rj + m * (pj * rj) + c * rj) by (nonlinear_arith);
    assert(m * (pp + pj * rj) == m * pp + m * (pj * rj)) by (nonlinear_arith);
}

proof fn lemma_reduce_top(lo: int, hi: int, top: int, c: int, rn1: int, po: int, rhs: int)
    requires
        lo + hi * base() == top + c,
        po * base() + c * (base() * rn1) == rhs,
    ensures
        ((po + lo * rn1) + hi * (base() * rn1)) * base() == rhs + top * (base() * rn1),
{
    let rn = base() * rn1;
    lemma_chain_step(lo, hi, top + c, rn);
    assert(((po + lo * rn1) + hi * rn) * base() == po * base() + lo * rn + hi * (base() * rn))
        by (nonlinear_arith)
        requires
            rn == base() * rn1,
    ;
    assert((top + c) * rn == top * rn + c * rn) by (nonlinear_arith);
}

/// One round of Montgomery reduction: adds the multiple `m * p` that clears the
/// lowest limb of `t + top * radix(N)` and drops that limb. Returns the new
/// limbs, the new top limb and the multiplier `m`.
pub fn reduce_row<const N: usize>(t: &[u64; N], top: u64, p: &[u64; N], n0: u64) -> (r: (
    [u64; N],
    u64,
    Ghost<nat>,
))
    requires
        N > 0,
        ((p[0] as nat) * (n0 as nat)) % base() == base() - 1,
    ensures
        (limbs_val(r.0@) + (r.1 as nat) * radix(N as nat)) * base() == limbs_val(t@) + (
        top as nat) * radix(N as nat) + r.2@ * limbs_val(p@),
        r.2@ < base(),
{
    let (m, mh) = mac(0, t[0], n0, 0);
    let (lo0, hi0) = mac(t[0], m, p[0], 0);
    proof {
        let b = base() as int;
        lemma_fundamental_div_mod_converse_mod(
            (t[0] as int) * (n0 as int),
            b,
            mh as int,
            m as int,
        );
        assert((p[0] as int) * (n0 as int) == ((p[0] as nat) * (n0 as nat)) as int);
        lemma_low_limb_vanishes(t[0] as int, n0 as int, p[0] as int, m as int);
        assert((t[0] as int) + (m as int) * (p[0] as int) == (hi0 as int) * b + (lo0 as int));
        lemma_fundamental_div_mod_converse_mod(
            (t[0] as int) + (m as int) * (p[0] as int),
            b,
            hi0 as int,
            lo0 as int,
        );
        assert(lo0 == 0);
        assert(radix(1) == base() * radix(0));
        assert(prefix_val(t@, 1) == prefix_val(t@, 0) + (t[0] as nat) * radix(0));
        assert(prefix_val(p@, 1) == prefix_val(p@, 0) + (p[0] as nat) * radix(0));
        assert((m as int) * ((p[0] as int) * 1) == (m as int) * (p[0] as int))
            by (nonlinear_arith);
    }
    let mut out: [u64; N] = *t;
    let mut carry: u64 = hi0;
    let mut j: usize = 1;
    while j < N
        invariant
            1 <= j <= N,
            prefix_val(out@, (j - 1) as nat) * base() + (carry as nat) * radix(j as nat)
                == prefix_val(t@, j as nat) + (m as nat) * prefix_val(p@, j as nat),
        decreases N - j,
    {
        let (lo, hi) = mac(t[j], m, p[j], carry);
        let ghost o0 = out@;
        out[j - 1] = lo;
        proof {
            lemma_prefix_val_ext(o0, out@, (j - 1) as nat);
            lemma_reduce_step(
                lo as int,
                hi as int,
                t[j as int] as int,
                m as int,
                p[j as int] as int,
                carry as int,
                radix((j - 1) as nat) as int,
                prefix_val(o0, (j - 1) as nat) as int,
                prefix_val(t@, j as nat) as int,
                prefix_val(p@, j as nat) as int,
            );
        }
        carry = hi;
        j = j + 1;
    }
    let s: u128 = (top as u128) + (carry as u128);
    let (lo, hi) = split(s);
    let ghost o0 = out@;
    out[N - 1] = lo;
    proof {
        lemma_prefix_val_ext(o0, out@, (N - 1) as nat);
        lemma_reduce_top(
            lo as int,
            hi as int,
            top as int,
            carry as int,
            radix((N - 1) as nat) as int,
            prefix_val(o0, (N - 1) as nat) as int,
            limbs_val(t@) as int + (m as int) * (limbs_val(p@) as int),
        );
    }
    (out, hi, Ghost(m as nat))
}

proof fn lemma_mont_round(
    v: int,
    v2: int,
    a: int,
    bi: int,
    m: int,
    p: int,
    ri: int,
    pb: int,
    k: int,
)
    requires
        0 <= v < 2 * p,
        0 <= a < p,
        0 <= bi < base(),
        0 <= m < base(),
        0 <= v2,
        v2 * base() == v + a * bi + m * p,
        v * ri == a * pb + k * p,
    ensures
        v2 < 2 * p,
        v2 * (base() * ri) == a * (pb + bi * ri) + (k + m * ri) * p,
{
    let b = base() as int;
    assert(a * bi <= (p - 1) * (b - 1)) by (nonlinear_arith)
        requires
            0 <= a <= p - 1,
            0 <= bi <= b - 1,
    ;
    assert(m * p <= (b - 1) * p) by (nonlinear_arith)
        requires
            0 <= m <= b - 1,
            0 <= p,
    ;
    assert((p - 1) * (b - 1) + (b - 1) * p + 2 * p - 1 < 2 * p * b) by (nonlinear_arith)
        requires
            b > 1,
            p > 0,
    ;
    assert(v2 < 2 * p) by (nonlinear_arith)
        requires
            v2 * b < 2 * p * b,
            b > 0,
    ;
    assert(v2 * (b * ri) == (v2 * b) * ri) by (nonlinear_arith);
    assert((v + a * bi + m * p) * ri == v * ri + a * (bi * ri) + (m * ri) * p)
        by (nonlinear_arith);
    assert(a * (pb + bi * ri) == a * pb + a * (bi * ri)) by (nonlinear_arith);
    assert((k + m * ri) * p == k * p + (m * ri) * p) by (nonlinear_arith);
}

/// Montgomery product: a number below `p` that is congruent to
/// `a * b / radix(N)` modulo `p`.
pub fn mont_mul<const N: usize>(a: &[u64; N], b: &[u64; N], p: &[u64; N], n0: u64) -> (r: [u64;
    N])
    requires
        mont_ok(p@, n0),
        limbs_val(a@) < limbs_val(p@),
    ensures
        limbs_val(r@) < limbs_val(p@),
        (limbs_val(r@) * radix(N as nat)) % limbs_val(p@) == (limbs_val(a@) * limbs_val(b@))
            % limbs_val(p@),
{
    let mut t: [u64; N] = zero_limbs(a);
    let mut i: usize = 0;
    let ghost mut k: int = 0;
    proof {
        assert(0 * radix(0) == 0);
        assert((limbs_val(a@) as int) * 0 + 0 * (limbs_val(p@) as int) == 0);
    }
    while i < N
        invariant
            i <= N,
            mont_ok(p@, n0),
            limbs_val(a@) < limbs_val(p@),
            limbs_val(t@) < 2 * limbs_val(p@),
            (limbs_val(t@) as int) * (radix(i as nat) as int) == (limbs_val(a@) as int) * (
            prefix_val(b@, i as nat) as int) + k * (limbs_val(p@) as int),
        decreases N - i,
    {
        let (t1, top1) = addmul_row(&t, a, b[i]);
        let (t2, top2, m) = reduce_row(&t1, top1, p, n0);
        proof {
            let rn = radix(N as nat) as int;
            lemma_radix_pos(N as nat);
            let v2 = limbs_val(t2@) as int + (top2 as int) * rn;
            assert((top2 as int) * rn >= 0) by (nonlinear_arith)
                requires
                    top2 >= 0,
                    rn > 0,
            ;
            lemma_mont_round(
                limbs_val(t@) as int,
                v2,
                limbs_val(a@) as int,
                b[i as int] as int,
                m@ as int,
                limbs_val(p@) as int,
                radix(i as nat) as int,
                prefix_val(b@, i as nat) as int,
                k,
            );
            assert(top2 == 0) by (nonlinear_arith)
                requires
                    limbs_val(t2@) as int + (top2 as int) * rn < rn,
                    rn > 0,
                    top2 >= 0,
            ;
            assert((top2 as int) * rn == 0) by (nonlinear_arith)
                requires
                    top2 == 0,
            ;
            assert(radix((i + 1) as nat) == base() * radix(i as nat));
            assert(prefix_val(b@, (i + 1) as nat) == prefix_val(b@, i as nat) + (b[i as int] as nat)
                * radix(i as nat));
            k = k + (m@ as int) * (radix(i as nat) as int);
        }
        t = t2;
        i = i + 1;
    }
    let (d, borrow) = sub_limbs(&t, p);
    let r = if borrow == 0 {
        d
    } else {
        t
    };
    proof {
        let pv = limbs_val(p@) as int;
        let rn = radix(N as nat) as int;
        let ab = (limbs_val(a@) as int) * (limbs_val(b@) as int);
        if borrow == 0 {
            assert(limbs_val(r@) as int == limbs_val(t@) as int - pv);
            assert((limbs_val(t@) as int - pv) * rn == (limbs_val(t@) as int) * rn - pv * rn)
                by (nonlinear_arith);
            assert(pv * (k - rn) + ab == ab + k * pv - pv * rn) by (nonlinear_arith);
            lemma_mod_multiples_vanish(k - rn, ab, pv);
        } else {
            assert(pv * k + ab == ab + k * pv) by (nonlinear_arith);
            lemma_mod_multiples_vanish(k, ab, pv);
        }
    }
    r
}

} // verus!
