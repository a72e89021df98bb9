//! Fixed-width multi-limb natural numbers.
//!
//! A number is a little-endian array of 64-bit limbs. Everything here is
//! stated over [`limbs_val`], the natural number that an array stands for.

use vstd::prelude::*;

verus! {

/// The limb radix, 2^64.
pub open spec fn base() -> nat {
    0x1_0000_0000_0000_0000
}

/// `base()` to the power `n`.
pub open spec fn radix(n: nat) -> nat
    decreases n,
{
    if n == 0 {
        1
    } else {
        base() * radix((n - 1) as nat)
    }
}

/// The value of the lowest `n` limbs of `s`, little-endian.
pub open spec fn prefix_val(s: Seq<u64>, n: nat) -> nat
    decreases n,
{
    if n == 0 {
        0
    } else {
        prefix_val(s, (n - 1) as nat) + (s[n - 1] as nat) * radix((n - 1) as nat)
    }
}

/// The value of a whole limb sequence.
pub open spec fn limbs_val(s: Seq<u64>) -> nat {
    prefix_val(s, s.len())
}

pub proof fn lemma_radix_pos(n: nat)
    ensures
        radix(n) > 0,
    decreases n,
{
    if n > 0 {
        lemma_radix_pos((n - 1) as nat);
        assert(base() * radix((n - 1) as nat) > 0) by (nonlinear_arith)
            requires
                radix((n - 1) as nat) > 0,
                base() > 0,
        ;
    }
}

/// Two sequences that agree on their lowest `n` limbs have the same prefix value.
pub proof fn lemma_prefix_val_ext(s1: Seq<u64>, s2: Seq<u64>, n: nat)
    requires
        forall|k: int| 0 <= k < n ==> s1[k] == s2[k],
    ensures
        prefix_val(s1, n) == prefix_val(s2, n),
    decreases n,
{
    if n > 0 {
        lemma_prefix_val_ext(s1, s2, (n - 1) as nat);
    }
}

/// `n` limbs hold a value below `radix(n)`.
pub proof fn lemma_prefix_val_bound(s: Seq<u64>, n: nat)
    ensures
        prefix_val(s, n) < radix(n),
    decreases n,
{
    if n > 0 {
        lemma_prefix_val_bound(s, (n - 1) as nat);
        let r = radix((n - 1) as nat);
        let d = s[n - 1] as nat;
        assert(d * r + r <= base() * r) by (nonlinear_arith)
            requires
                d + 1 <= base(),
        ;
    }
}

/// A value of all-zero limbs is zero.
pub proof fn lemma_prefix_val_zero(s: Seq<u64>, n: nat)
    requires
        forall|k: int| 0 <= k < n ==> s[k] == 0,
    ensures
        prefix_val(s, n) == 0,
    decreases n,
{
    if n > 0 {
        lemma_prefix_val_zero(s, (n - 1) as nat);
        assert(0 * radix((n - 1) as nat) == 0);
    }
}

/// Limb sequences of one length with one value are equal limb by limb.
pub proof fn lemma_prefix_val_injective(s1: Seq<u64>, s2: Seq<u64>, n: nat)
    requires
        prefix_val(s1, n) == prefix_val(s2, n),
    ensures
        forall|k: int| 0 <= k < n ==> s1[k] == s2[k],
    decreases n,
{
    if n > 0 {
        let m = (n - 1) as nat;
        let r = radix(m);
        lemma_radix_pos(m);
        lemma_prefix_val_bound(s1, m);
        lemma_prefix_val_bound(s2, m);
        let a = s1[n - 1] as int;
        let b = s2[n - 1] as int;
        let x = prefix_val(s1, m) as int;
        let y = prefix_val(s2, m) as int;
        assert(a == b) by (nonlinear_arith)
            requires
                x + a * r == y + b * r,
                0 <= x < r,
                0 <= y < r,
        ;
        lemma_prefix_val_injective(s1, s2, m);
    }
}

/// Splits a double limb into its low and high limbs.
pub fn split(x: u128) -> (r: (u64, u64))
    ensures
        r.0 as nat + (r.1 as nat) * base() == x as nat,
{
    let lo128: u128 = x & 0xFFFF_FFFF_FFFF_FFFFu128;
    let hi128: u128 = x >> 64;
    assert(lo128 <= 0xFFFF_FFFF_FFFF_FFFFu128 && hi128 <= 0xFFFF_FFFF_FFFF_FFFFu128 && x == hi128
        * 0x1_0000_0000_0000_0000u128 + lo128) by (bit_vector)
        requires
            lo128 == x & 0xFFFF_FFFF_FFFF_FFFFu128,
            hi128 == x >> 64,
    ;
    (lo128 as u64, hi128 as u64)
}

/// Multiply-accumulate on limbs: `a + b * c + d` as (low, high).
pub fn mac(a: u64, b: u64, c: u64, d: u64) -> (r: (u64, u64))
    ensures
        r.0 as nat + (r.1 as nat) * base() == a as nat + (b as nat) * (c as nat) + d as nat,
{
    assert((b as nat) * (c as nat) <= 0xFFFF_FFFF_FFFF_FFFF * 0xFFFF_FFFF_FFFF_FFFF)
        by (nonlinear_arith)
        requires
            b <= 0xFFFF_FFFF_FFFF_FFFF,
            c <= 0xFFFF_FFFF_FFFF_FFFF,
    ;
    let x: u128 = (a as u128) + (b as u128) * (c as u128) + (d as u128);
    split(x)
}

/// Used by every carry chain: folding one more limb into an accumulated prefix.
pub proof fn lemma_chain_step(lo: int, hi: int, w: int, rj: int)
    requires
        lo + hi * base() == w,
    ensures
        lo * rj + hi * (base() * rj) == w * rj,
{
    assert(lo * rj + hi * (base() * rj) == (lo + hi * base()) * rj) by (nonlinear_arith);
}

/// `a + b` with the carry out of the top limb.
pub fn add_limbs<const N: usize>(a: &[u64; N], b: &[u64; N]) -> (r: ([u64; N], u64))
    ensures
        limbs_val(r.0@) + (r.1 as nat) * radix(N as nat) == limbs_val(a@) + limbs_val(b@),
        r.1 <= 1,
{
    let mut t: [u64; N] = *a;
    let mut carry: u64 = 0;
    let mut j: usize = 0;
    while j < N
        invariant
            j <= N,
            carry <= 1,
            prefix_val(t@, j as nat) + (carry as nat) * radix(j as nat) == prefix_val(a@, j as nat)
                + prefix_val(b@, j as nat),
        decreases N - j,
    {
        let x: u128 = (a[j] as u128) + (b[j] as u128) + (carry as u128);
        let (lo, hi) = split(x);
        let ghost t0 = t@;
        t[j] = lo;
        proof {
            let rj = radix(j as nat) as int;
            lemma_prefix_val_ext(t0, t@, j as nat);
            lemma_chain_step(lo as int, hi as int, x as int, rj);
            let aj = a[j as int] as int;
            let bj = b[j as int] as int;
            assert((aj + bj + carry as int) * rj == aj * rj + bj * rj + carry as int * rj)
                by (nonlinear_arith);
            assert(hi <= 1) by (nonlinear_arith)
                requires
                    lo as int + hi as int * base() == x as int,
                    x < 2 * base(),
                    lo >= 0,
            ;
        }
        carry = hi;
        j = j + 1;
    }
    (t, carry)
}

/// `a - b` with the borrow out of the top limb: the result is `a - b` when the
/// borrow is 0 and `a - b + radix(N)` when it is 1.
pub fn sub_limbs<const N: usize>(a: &[u64; N], b: &[u64; N]) -> (r: ([u64; N], u64))
    ensures
        limbs_val(r.0@) as int - (r.1 as int) * radix(N as nat) == limbs_val(a@) as int - limbs_val(
            b@,
        ) as int,
        r.1 <= 1,
        (r.1 == 1) <==> limbs_val(a@) < limbs_val(b@),
{
    let mut t: [u64; N] = *a;
    let mut borrow: u64 = 0;
    let mut j: usize = 0;
    while j < N
        invariant
            j <= N,
            borrow <= 1,
            prefix_val(t@, j as nat) as int - (borrow as int) * radix(j as nat) == prefix_val(
                a@,
                j as nat,
            ) as int - prefix_val(b@, j as nat) as int,
        decreases N - j,
    {
        let x: u128 = (a[j] as u128) + 0x1_0000_0000_0000_0000u128 - (b[j] as u128) - (
        borrow as u128);
        let (lo, hi) = split(x);
        let ghost t0 = t@;
        t[j] = lo;
        proof {
            let rj = radix(j as nat) as int;
            lemma_prefix_val_ext(t0, t@, j as nat);
            lemma_chain_step(lo as int, hi as int, x as int, rj);
            let aj = a[j as int] as int;
            let bj = b[j as int] as int;
            assert((aj + base() - bj - borrow as int) * rj == aj * rj + base() * rj - bj * rj
                - borrow as int * rj) by (nonlinear_arith);
            assert(hi <= 1) by (nonlinear_arith)
                requires
                    lo as int + hi as int * base() == x as int,
                    x < 2 * base(),
                    lo >= 0,
            ;
            assert((1 - hi as int) * (base() * rj) == base() * rj - hi as int * (base() * rj))
                by (nonlinear_arith);
        }
        borrow = 1 - hi;
        j = j + 1;
    }
    proof {
        lemma_prefix_val_bound(t@, N as nat);
        lemma_prefix_val_bound(a@, N as nat);
        lemma_prefix_val_bound(b@, N as nat);
    }
    (t, borrow)
}

/// Whether `a < b` as numbers.
pub fn less_than<const N: usize>(a: &[u64; N], b: &[u64; N]) -> (r: bool)
    ensures
        r == (limbs_val(a@) < limbs_val(b@)),
{
    let (_, borrow) = sub_limbs(a, b);
    borrow == 1
}

/// Whether every limb is zero.
pub fn is_zero_limbs<const N: usize>(a: &[u64; N]) -> (r: bool)
    ensures
        r == (limbs_val(a@) == 0),
{
    let mut j: usize = 0;
    while j < N
        invariant
            j <= N,
            forall|k: int| 0 <= k < j ==> a[k] == 0,
        decreases N - j,
    {
        if a[j] != 0 {
            proof {
                lemma_nonzero_limb(a@, N as nat, j as int);
            }
            return false;
        }
        j = j + 1;
    }
    proof {
        lemma_prefix_val_zero(a@, N as nat);
    }
    true
}

/// A sequence with a non-zero limb has a non-zero value.
pub proof fn lemma_nonzero_limb(s: Seq<u64>, n: nat, k: int)
    requires
        0 <= k < n,
        s[k] != 0,
    ensures
        prefix_val(s, n) > 0,
    decreases n,
{
    if k == n - 1 {
        lemma_radix_pos((n - 1) as nat);
        assert((s[n - 1] as nat) * radix((n - 1) as nat) > 0) by (nonlinear_arith)
            requires
                s[n - 1] as nat > 0,
                radix((n - 1) as nat) > 0,
        ;
    } else {
        lemma_nonzero_limb(s, (n - 1) as nat, k);
    }
}

/// An array of zero limbs.
pub fn zero_limbs<const N: usize>(like: &[u64; N]) -> (r: [u64; N])
    ensures
        limbs_val(r@) == 0,
        forall|k: int| 0 <= k < N ==> r[k] == 0,
{
    let mut t: [u64; N] = *like;
    let mut j: usize = 0;
    while j < N
        invariant
            j <= N,
            forall|k: int| 0 <= k < j ==> t[k] == 0,
        decreases N - j,
    {
        t[j] = 0;
        j = j + 1;
    }
    proof {
        lemma_prefix_val_zero(t@, N as nat);
    }
    t
}

} // verus!
