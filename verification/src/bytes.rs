//! Little-endian byte strings and the numbers they stand for.

use crate::limbs::{
    base, lemma_prefix_val_bound, lemma_prefix_val_ext, limbs_val, prefix_val, radix, zero_limbs,
};
use crate::modular::{add_mod, mul_mod, small_limbs, Modulus};
use vstd::arithmetic::div_mod::{
    lemma_fundamental_div_mod, lemma_mod_breakdown, lemma_mod_multiples_vanish, lemma_small_mod,
};
use vstd::prelude::*;

verus! {

/// 256 to the power `n`.
pub open spec fn pow256(n: nat) -> nat
    decreases n,
{
    if n == 0 {
        1
    } else {
        256 * pow256((n - 1) as nat)
    }
}

/// The byte at index `i`, and 0 past the end.
pub open spec fn byte_at(s: Seq<u8>, i: int) -> nat {
    if 0 <= i < s.len() {
        s[i] as nat
    } else {
        0
    }
}

/// The little-endian value of the first `n` bytes of `s`, read as if `s` went
/// on with zero bytes.
pub open spec fn padded_val(s: Seq<u8>, n: nat) -> nat
    decreases n,
{
    if n == 0 {
        0
    } else {
        padded_val(s, (n - 1) as nat) + byte_at(s, n - 1) * pow256((n - 1) as nat)
    }
}

/// The little-endian value of a byte string.
pub open spec fn le_bytes_val(s: Seq<u8>) -> nat {
    padded_val(s, s.len())
}

/// The `n`-byte little-endian encoding of `v`.
pub open spec fn le_encode(v: nat, n: nat) -> Seq<u8> {
    Seq::new(n, |i: int| ((v / pow256(i as nat)) % 256) as u8)
}

pub proof fn lemma_pow256_pos(n: nat)
    ensures
        pow256(n) > 0,
    decreases n,
{
    if n > 0 {
        lemma_pow256_pos((n - 1) as nat);
    }
}

pub proof fn lemma_pow256_add(a: nat, b: nat)
    ensures
        pow256(a + b) == pow256(a) * pow256(b),
    decreases b,
{
    if b == 0 {
        assert(pow256(a) * 1 == pow256(a));
    } else {
        lemma_pow256_add(a, (b - 1) as nat);
        assert(pow256(a + b) == 256 * pow256((a + b - 1) as nat));
        assert(256 * (pow256(a) * pow256((b - 1) as nat)) == pow256(a) * (256 * pow256(
            (b - 1) as nat,
        ))) by (nonlinear_arith);
    }
}

/// The first powers of 256, up to the limb radix.
pub proof fn lemma_pow256_small(k: nat)
    requires
        k <= 8,
    ensures
        pow256(k) <= base(),
        k < 8 ==> pow256(k) <= 0x100_0000_0000_0000,
        k == 8 ==> pow256(k) == base(),
{
    reveal_with_fuel(pow256, 10);
}

/// Eight bytes make a limb.
pub proof fn lemma_pow256_radix(j: nat)
    ensures
        pow256(8 * j) == radix(j),
    decreases j,
{
    if j > 0 {
        lemma_pow256_radix((j - 1) as nat);
        lemma_pow256_add((8 * (j - 1)) as nat, 8);
        lemma_pow256_small(8);
        assert(radix(j) == base() * radix((j - 1) as nat));
        assert(radix((j - 1) as nat) * base() == base() * radix((j - 1) as nat))
            by (nonlinear_arith);
    }
}

/// The weight of byte `k` of limb `j`.
pub proof fn lemma_pow256_split(j: nat, k: nat)
    ensures
        pow256(8 * j + k) == pow256(k) * radix(j),
{
    lemma_pow256_add(8 * j, k);
    lemma_pow256_radix(j);
    assert(pow256(8 * j) * pow256(k) == pow256(k) * pow256(8 * j)) by (nonlinear_arith);
}

/// Byte strings that agree below index `n` have the same value there.
pub proof fn lemma_padded_ext(s1: Seq<u8>, s2: Seq<u8>, n: nat)
    requires
        forall|i: int| 0 <= i < n ==> byte_at(s1, i) == byte_at(s2, i),
    ensures
        padded_val(s1, n) == padded_val(s2, n),
    decreases n,
{
    if n > 0 {
        lemma_padded_ext(s1, s2, (n - 1) as nat);
    }
}

/// Zero bytes at the top do not change the value.
pub proof fn lemma_padded_tail_zero(s: Seq<u8>, n: nat, m: nat)
    requires
        n <= m,
        forall|i: int| n <= i < m ==> byte_at(s, i) == 0,
    ensures
        padded_val(s, m) == padded_val(s, n),
    decreases m,
{
    if m > n {
        lemma_padded_tail_zero(s, n, (m - 1) as nat);
        assert(0 * pow256((m - 1) as nat) == 0);
    }
}

/// A value is at least the contribution of any one of its bytes.
pub proof fn lemma_padded_lower_bound(s: Seq<u8>, n: nat, i: int)
    requires
        0 <= i < n,
    ensures
        padded_val(s, n) >= byte_at(s, i) * pow256(i as nat),
    decreases n,
{
    if i == n - 1 {
    } else {
        lemma_padded_lower_bound(s, (n - 1) as nat, i);
    }
}

/// `n` bytes hold a value below `pow256(n)`.
pub proof fn lemma_padded_bound(s: Seq<u8>, n: nat)
    ensures
        padded_val(s, n) < pow256(n),
    decreases n,
{
    if n > 0 {
        lemma_padded_bound(s, (n - 1) as nat);
        let w = pow256((n - 1) as nat);
        let b = byte_at(s, n - 1);
        assert(b * w + w <= 256 * w) by (nonlinear_arith)
            requires
                b <= 255,
        ;
    }
}

/// Byte strings of one length with one value are equal.
pub proof fn lemma_padded_injective(s1: Seq<u8>, s2: Seq<u8>, n: nat)
    requires
        padded_val(s1, n) == padded_val(s2, n),
    ensures
        forall|i: int| 0 <= i < n ==> byte_at(s1, i) == byte_at(s2, i),
    decreases n,
{
    if n > 0 {
        let m = (n - 1) as nat;
        let w = pow256(m) as int;
        lemma_pow256_pos(m);
        lemma_padded_bound(s1, m);
        lemma_padded_bound(s2, m);
        let a = byte_at(s1, n - 1) as int;
        let b = byte_at(s2, n - 1) as int;
        let x = padded_val(s1, m) as int;
        let y = padded_val(s2, m) as int;
        assert(a == b) by (nonlinear_arith)
            requires
                x + a * w == y + b * w,
                0 <= x < w,
                0 <= y < w,
        ;
        lemma_padded_injective(s1, s2, m);
    }
}

/// The lowest `k` bytes of an encoding of `v` hold `v` modulo `pow256(k)`.
pub proof fn lemma_le_encode_prefix(v: nat, n: nat, k: nat)
    requires
        k <= n,
    ensures
        padded_val(le_encode(v, n), k) == v % pow256(k),
    decreases k,
{
    if k > 0 {
        let w = pow256((k - 1) as nat);
        lemma_le_encode_prefix(v, n, (k - 1) as nat);
        lemma_pow256_pos((k - 1) as nat);
        lemma_mod_breakdown(v as int, w as int, 256);
        assert(w * 256 == pow256(k));
        assert(byte_at(le_encode(v, n), k - 1) == (v / w) % 256);
        assert(((v / w) % 256) * w == w * ((v / w) % 256)) by (nonlinear_arith);
    }
}

/// An encoding that is long enough stands for the number that was encoded.
pub proof fn lemma_le_encode_val(v: nat, n: nat)
    requires
        v < pow256(n),
    ensures
        le_encode(v, n).len() == n,
        le_bytes_val(le_encode(v, n)) == v,
{
    lemma_le_encode_prefix(v, n, n);
    lemma_small_mod(v, pow256(n));
}

/// A byte string is the encoding of its own value.
pub proof fn lemma_le_encode_unique(s: Seq<u8>)
    ensures
        s == le_encode(le_bytes_val(s), s.len()),
{
    let n = s.len();
    let v = le_bytes_val(s);
    lemma_padded_bound(s, n);
    lemma_le_encode_val(v, n);
    let e = le_encode(v, n);
    lemma_padded_injective(s, e, n);
    assert forall|i: int| 0 <= i < n implies s[i] == e[i] by {
        assert(byte_at(s, i) == byte_at(e, i));
    }
    assert(s =~= e);
}

proof fn lemma_to_bytes_step(
    aj: int,
    w: int,
    w2: int,
    byte: int,
    pk: int,
    low: int,
    rj: int,
    pa: int,
    padded: int,
)
    requires
        aj == w * pk + low,
        w == 256 * w2 + byte,
        padded == pa + low * rj,
    ensures
        aj == w2 * (256 * pk) + (low + byte * pk),
        padded + byte * (pk * rj) == pa + (low + byte * pk) * rj,
{
    assert((256 * w2 + byte) * pk == w2 * (256 * pk) + byte * pk) by (nonlinear_arith);
    assert((low + byte * pk) * rj == low * rj + byte * (pk * rj)) by (nonlinear_arith);
}

/// The little-endian bytes of a number, eight to a limb.
pub fn to_le_bytes<const N: usize>(a: &[u64; N]) -> (out: Vec<u8>)
    ensures
        out@.len() == 8 * N,
        le_bytes_val(out@) == limbs_val(a@),
        out@ == le_encode(limbs_val(a@), (8 * N) as nat),
{
    let mut out: Vec<u8> = Vec::new();
    let mut j: usize = 0;
    while j < N
        invariant
            j <= N,
            out@.len() == 8 * j,
            padded_val(out@, (8 * j) as nat) == prefix_val(a@, j as nat),
        decreases N - j,
    {
        let mut w: u64 = a[j];
        let mut k: usize = 0;
        let ghost mut low: nat = 0;
        let ghost rj = radix(j as nat);
        let ghost pa = prefix_val(a@, j as nat);
        proof {
            assert((w as nat) * 1 == w as nat);
            assert(0 * rj == 0);
        }
        while k < 8
            invariant
                k <= 8,
                j < N,
                rj == radix(j as nat),
                pa == prefix_val(a@, j as nat),
                out@.len() == 8 * j + k,
                a[j as int] as nat == (w as nat) * pow256(k as nat) + low,
                padded_val(out@, (8 * j + k) as nat) == pa + low * rj,
            decreases 8 - k,
        {
            let byte: u8 = (w % 256) as u8;
            let ghost o0 = out@;
            out.push(byte);
            proof {
                let idx = (8 * j + k) as nat;
                lemma_padded_ext(o0, out@, idx);
                lemma_pow256_split(j as nat, k as nat);
                assert(byte_at(out@, idx as int) == byte as nat);
                lemma_to_bytes_step(
                    a[j as int] as int,
                    w as int,
                    (w / 256) as int,
                    byte as int,
                    pow256(k as nat) as int,
                    low as int,
                    rj as int,
                    pa as int,
                    padded_val(o0, idx) as int,
                );
                low = low + (byte as nat) * pow256(k as nat);
            }
            w = w / 256;
            k = k + 1;
        }
        proof {
            lemma_pow256_small(8);
            assert(w == 0 && low == a[j as int] as nat) by (nonlinear_arith)
                requires
                    a[j as int] as nat == (w as nat) * base() + low,
                    a[j as int] < base(),
            ;
        }
        j = j + 1;
    }
    proof {
        lemma_le_encode_unique(out@);
    }
    out
}

proof fn lemma_from_bytes_step(w: int, b: int, pk: int, rj: int, pl: int, padded: int)
    requires
        padded == pl + w * rj,
        0 <= w < pk,
        0 <= b <= 255,
    ensures
        padded + b * (pk * rj) == pl + (w + b * pk) * rj,
        w + b * pk < 256 * pk,
{
    assert((w + b * pk) * rj == w * rj + b * (pk * rj)) by (nonlinear_arith);
    assert(b * pk + pk <= 256 * pk) by (nonlinear_arith)
        requires
            b <= 255,
            pk > 0,
    ;
}

/// The number that a little-endian byte string stands for, where it fits `N`
/// limbs.
pub fn from_le_bytes<const N: usize>(buf: &[u8], like: &[u64; N]) -> (r: Option<[u64; N]>)
    requires
        N <= 0x1000,
    ensures
        r is Some <==> le_bytes_val(buf@) < radix(N as nat),
        r is Some ==> limbs_val(r->0@) == le_bytes_val(buf@),
{
    let n = buf.len();
    let mut t: [u64; N] = zero_limbs(like);
    let mut j: usize = 0;
    while j < N
        invariant
            j <= N,
            N <= 0x1000,
            n == buf@.len(),
            padded_val(buf@, (8 * j) as nat) == prefix_val(t@, j as nat),
        decreases N - j,
    {
        let mut w: u64 = 0;
        let mut ws: u64 = 1;
        let mut k: usize = 0;
        let ghost rj = radix(j as nat);
        let ghost pl = prefix_val(t@, j as nat);
        proof {
            assert(0 * rj == 0);
        }
        while k < 8
            invariant
                k <= 8,
                j < N,
                N <= 0x1000,
                n == buf@.len(),
                rj == radix(j as nat),
                w < pow256(k as nat),
                k < 8 ==> ws == pow256(k as nat),
                padded_val(buf@, (8 * j + k) as nat) == pl + (w as nat) * rj,
            decreases 8 - k,
        {
            let idx = 8 * j + k;
            let b: u8 = if idx < n {
                buf[idx]
            } else {
                0
            };
            proof {
                lemma_pow256_split(j as nat, k as nat);
                lemma_pow256_small(k as nat);
                lemma_pow256_small((k + 1) as nat);
                lemma_from_bytes_step(
                    w as int,
                    b as int,
                    pow256(k as nat) as int,
                    rj as int,
                    pl as int,
                    padded_val(buf@, idx as nat) as int,
                );
                assert((b as nat) * (ws as nat) == (b as int) * (pow256(k as nat) as int));
            }
            w = w + (b as u64) * ws;
            k = k + 1;
            if k < 8 {
                ws = ws * 256;
            }
        }
        let ghost t0 = t@;
        t[j] = w;
        proof {
            lemma_prefix_val_ext(t0, t@, j as nat);
        }
        j = j + 1;
    }
    let mut i: usize = 8 * N;
    while i < n
        invariant
            8 * N <= i,
            n == buf@.len(),
            forall|q: int| 8 * N <= q < i ==> byte_at(buf@, q) == 0,
        decreases n - i,
    {
        if buf[i] != 0 {
            proof {
                lemma_padded_lower_bound(buf@, n as nat, i as int);
                lemma_pow256_add((8 * N) as nat, (i - 8 * N) as nat);
                lemma_pow256_radix(N as nat);
                lemma_pow256_pos((i - 8 * N) as nat);
                let x = pow256((i - 8 * N) as nat);
                let rn = radix(N as nat);
                let bi = buf[i as int] as nat;
                assert(bi * (rn * x) >= rn) by (nonlinear_arith)
                    requires
                        bi >= 1,
                        x >= 1,
                        rn >= 0,
                ;
            }
            return None;
        }
        i = i + 1;
    }
    proof {
        lemma_prefix_val_bound(t@, N as nat);
        if n >= 8 * N {
            lemma_padded_tail_zero(buf@, (8 * N) as nat, n as nat);
        } else {
            lemma_padded_tail_zero(buf@, n as nat, (8 * N) as nat);
        }
    }
    Some(t)
}

proof fn lemma_horner_mod(acc: int, byte: int, w: int, y: int, p: int)
    requires
        p > 0,
    ensures
        ((((acc * 256) % p + byte) % p) * w + y) % p == (acc * (256 * w) + byte * w + y) % p,
{
    let e1 = (acc * 256) % p;
    let k1 = (acc * 256) / p;
    lemma_fundamental_div_mod(acc * 256, p);
    let a = e1 + byte;
    let e2 = a % p;
    let k2 = a / p;
    lemma_fundamental_div_mod(a, p);
    let k = -((k1 + k2) * w);
    assert(e2 * w + y == p * k + (acc * (256 * w) + byte * w + y)) by (nonlinear_arith)
        requires
            acc * 256 == p * k1 + e1,
            e1 + byte == p * k2 + e2,
            k == -((k1 + k2) * w),
    ;
    lemma_mod_multiples_vanish(k, acc * (256 * w) + byte * w + y, p);
}

/// The little-endian value of a byte string of any length, modulo the modulus.
pub fn reduce_le_bytes<const N: usize>(buf: &[u8], m: &Modulus<N>) -> (r: [u64; N])
    requires
        m.wf(),
        m.value() > 255,
    ensures
        limbs_val(r@) < m.value(),
        limbs_val(r@) == le_bytes_val(buf@) % m.value(),
{
    let n = buf.len();
    let c256 = small_limbs(&m.p, 256);
    let mut acc: [u64; N] = zero_limbs(&m.p);
    let mut i: usize = n;
    let ghost p = m.value();
    proof {
        assert(0 * pow256(n as nat) == 0);
    }
    while i > 0
        invariant
            i <= n,
            n == buf@.len(),
            m.wf(),
            p == m.value(),
            p > 255,
            limbs_val(c256@) == 256,
            limbs_val(acc@) < p,
            (limbs_val(acc@) * pow256(i as nat) + padded_val(buf@, i as nat)) % p == padded_val(
                buf@,
                n as nat,
            ) % p,
        decreases i,
    {
        let byte = buf[i - 1];
        let t = mul_mod(&acc, &c256, m);
        let bl = small_limbs(&m.p, byte as u64);
        let next = add_mod(&t, &bl, m);
        proof {
            let w = pow256((i - 1) as nat) as int;
            let y = padded_val(buf@, (i - 1) as nat) as int;
            lemma_horner_mod(limbs_val(acc@) as int, byte as int, w, y, p as int);
            assert(pow256(i as nat) == 256 * pow256((i - 1) as nat));
            assert(byte_at(buf@, i - 1) == byte as nat);
        }
        acc = next;
        i = i - 1;
    }
    proof {
        assert(limbs_val(acc@) * 1 == limbs_val(acc@));
        lemma_small_mod(limbs_val(acc@), p);
    }
    acc
}

} // verus!
