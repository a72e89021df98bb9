//! The group G1: the points of order `r` of the curve `y^2 = x^3 + 4` over the base
//! field.

use crate::fp::fp_modulus;
use crate::fp::{
    fp_add, fp_decode, fp_encode, fp_format_list, fp_hash_point, fp_inv, fp_mul, fp_neg, fp_next,
    fp_parse_list, fp_sign, fp_sqrt, fp_sub, fp_values, lemma_fp_list_roundtrip, Fp,
};
use crate::fr::{fr_modulus, fr_params, Fr};
use crate::limbs::{base, limbs_val, prefix_val, radix};
use crate::modmath::is_prime;
use crate::modmath::{
    cong, has_inverse, is_inverse, lemma_cong_add, lemma_cong_eq, lemma_cong_refl, lemma_cong_rem,
    lemma_cong_sub, lemma_cong_sym, lemma_cong_times, lemma_cong_trans, lemma_mod_inv_eq,
    lemma_mod_inv_is_inverse, lemma_mod_ops_cong, mod_inv,
};
use crate::text::{
    is_single_char, lemma_words_join, lemma_words_single, split_words, views_of, words,
};
use vstd::arithmetic::div_mod::lemma_mul_mod_noop_left;
use vstd::arithmetic::div_mod::{lemma_mod_bound, lemma_small_mod};
use vstd::arithmetic::power2::{lemma2_to64, lemma_pow2_unfold, pow2};
use vstd::prelude::*;
use vstd::std_specs::cmp::PartialEqSpecImpl;
use vstd::string::StringExecFns;

verus! {

/// The values of the three coordinates of a point.
pub type G1Value = (nat, nat, nat);

/// The constant `b` of the curve equation `y^2 = x^3 + b`.
pub open spec fn g1_b() -> nat {
    4nat
}

/// The canonical value of the identity.
pub open spec fn g1_zero() -> G1Value {
    (0nat, 0nat, 0nat)
}

/// Whether the coordinates stand for the identity: `z` is zero.
pub open spec fn g1_is_zero(p: G1Value) -> bool {
    p.2 == 0nat
}

/// The double of a point, by the tangent rule in Jacobian coordinates.
pub open spec fn g1_dbl(p: G1Value) -> G1Value {
    if g1_is_zero(p) {
        p
    } else {
        let a = fp_mul(p.0, p.0);
        let b = fp_mul(p.1, p.1);
        let c = fp_mul(b, b);
        let t = fp_add(p.0, b);
        let d0 = fp_sub(fp_sub(fp_mul(t, t), a), c);
        let d = fp_add(d0, d0);
        let e = fp_add(fp_add(a, a), a);
        let f = fp_mul(e, e);
        let x3 = fp_sub(f, fp_add(d, d));
        let c2 = fp_add(c, c);
        let c4 = fp_add(c2, c2);
        let c8 = fp_add(c4, c4);
        let y3 = fp_sub(fp_mul(e, fp_sub(d, x3)), c8);
        let yz = fp_mul(p.1, p.2);
        (x3, y3, fp_add(yz, yz))
    }
}

/// The sum of two points, by the chord rule in Jacobian coordinates: the
/// other point where one is the identity, the double where both stand for one
/// point, the identity where they stand for opposite points.
pub open spec fn g1_add(p: G1Value, q: G1Value) -> G1Value {
    if g1_is_zero(p) {
        q
    } else if g1_is_zero(q) {
        p
    } else {
        let z1z1 = fp_mul(p.2, p.2);
        let z2z2 = fp_mul(q.2, q.2);
        let u1 = fp_mul(p.0, z2z2);
        let u2 = fp_mul(q.0, z1z1);
        let s1 = fp_mul(fp_mul(p.1, q.2), z2z2);
        let s2 = fp_mul(fp_mul(q.1, p.2), z1z1);
        let h = fp_sub(u2, u1);
        let r = fp_sub(s2, s1);
        if h == 0nat {
            if r == 0nat {
                g1_dbl(p)
            } else {
                g1_zero()
            }
        } else {
            let hh = fp_mul(h, h);
            let hhh = fp_mul(h, hh);
            let v = fp_mul(u1, hh);
            let x3 = fp_sub(fp_sub(fp_mul(r, r), hhh), fp_add(v, v));
            let y3 = fp_sub(fp_mul(r, fp_sub(v, x3)), fp_mul(s1, hhh));
            (x3, y3, fp_mul(fp_mul(p.2, q.2), h))
        }
    }
}

/// The opposite point.
pub open spec fn g1_neg(p: G1Value) -> G1Value {
    (p.0, fp_neg(p.1), p.2)
}

/// The difference: the sum with the opposite point.
pub open spec fn g1_sub(p: G1Value, q: G1Value) -> G1Value {
    g1_add(p, g1_neg(q))
}

/// The multiple `n * p`, by doubling and adding over the bits of `n` from
/// the top.
pub open spec fn g1_mul(p: G1Value, n: nat) -> G1Value
    decreases n,
{
    if n == 0 {
        g1_zero()
    } else {
        let d = g1_dbl(g1_mul(p, n / 2));
        if n % 2 == 1 {
            g1_add(d, p)
        } else {
            d
        }
    }
}

/// Whether two triples of coordinates stand for one point.
pub open spec fn g1_same(p: G1Value, q: G1Value) -> bool {
    if g1_is_zero(p) || g1_is_zero(q) {
        g1_is_zero(p) && g1_is_zero(q)
    } else {
        let z1z1 = fp_mul(p.2, p.2);
        let z2z2 = fp_mul(q.2, q.2);
        fp_mul(p.0, z2z2) == fp_mul(q.0, z1z1) && fp_mul(fp_mul(p.1, q.2), z2z2) == fp_mul(
            fp_mul(q.1, p.2),
            z1z1,
        )
    }
}

/// The point with `z` brought to one: its affine coordinates.
pub open spec fn g1_normalize(p: G1Value) -> G1Value {
    if g1_is_zero(p) {
        g1_zero()
    } else {
        let zi = fp_inv(p.2);
        let zi2 = fp_mul(zi, zi);
        (fp_mul(p.0, zi2), fp_mul(p.1, fp_mul(zi2, zi)), 1nat)
    }
}

/// Whether the coordinates satisfy the curve equation, which in Jacobian
/// coordinates reads `y^2 = x^3 + b * z^6`.
pub open spec fn g1_on_curve(p: G1Value) -> bool {
    if g1_is_zero(p) {
        true
    } else {
        let z2 = fp_mul(p.2, p.2);
        let z6 = fp_mul(fp_mul(z2, z2), z2);
        fp_mul(p.1, p.1) == fp_add(fp_mul(fp_mul(p.0, p.0), p.0), fp_mul(g1_b(), z6))
    }
}

/// Whether the point belongs to the group: it is on the curve, and its
/// multiple by the group order is the identity.
#[verifier::opaque]
pub open spec fn g1_valid(p: G1Value) -> bool {
    g1_on_curve(p) && g1_is_zero(g1_mul(p, fr_modulus()))
}

/// The sum of the first `n` products `scalars[i] * points[i]`, added up from
/// the identity in the order of the index.
pub open spec fn g1_sum(points: Seq<G1>, scalars: Seq<Fr>, n: nat) -> G1Value
    decreases n,
{
    if n == 0 {
        g1_zero()
    } else {
        g1_add(
            g1_sum(points, scalars, (n - 1) as nat),
            g1_mul(points[n - 1]@, scalars[n - 1]@),
        )
    }
}

/// The right side of the curve equation at the abscissa `x`: `x^3 + b`.
pub open spec fn g1_rhs(x: nat) -> nat {
    fp_add(fp_mul(fp_mul(x, x), x), g1_b())
}

/// The cofactor of the curve: the number of its points over the group order.
/// The multiple by it of any point of the curve is in the group.
pub open spec fn g1_cofactor() -> nat {
    0x396c8c005555e1568c00aaab0000aaabnat
}

/// The bytes of the identity: zero bytes, with the flag of the identity set
/// in the last.
pub open spec fn g1_zero_encoding() -> Seq<u8> {
    Seq::new(48, |i: int| 0u8).update(47, 0x40u8)
}

/// The bytes of a point: those of its affine abscissa, with the sign of its
/// ordinate in the top bit of the last byte; the identity has its own bytes.
pub open spec fn g1_encode(p: G1Value) -> Seq<u8> {
    if g1_is_zero(p) {
        g1_zero_encoding()
    } else {
        let n = g1_normalize(p);
        let b = fp_encode(n.0);
        if fp_sign(n.1) {
            b.update(47, b[47] | 0x80u8)
        } else {
            b
        }
    }
}

/// The point that a byte string stands for: the bytes of the identity stand
/// for the identity; else the bytes, their two flag bits cleared, are an
/// abscissa at which the curve has a point, the flag picks the ordinate by
/// its sign, and the point is of the group.
pub open spec fn g1_decode(b: Seq<u8>) -> Option<G1Value> {
    if b.len() != 48 {
        None
    } else if b[47] & 0x40u8 != 0 {
        if b == g1_zero_encoding() {
            Some(g1_zero())
        } else {
            None
        }
    } else {
        let sign = b[47] & 0x80u8 != 0;
        match fp_decode(b.update(47, b[47] & 0x3fu8)) {
            None => None,
            Some(x) => match fp_sqrt(g1_rhs(x)) {
                None => None,
                Some(y0) => {
                    let y = if fp_sign(y0) == sign {
                        y0
                    } else {
                        fp_neg(y0)
                    };
                    let p = (x, y, 1nat);
                    if fp_sign(y) == sign && g1_is_zero(g1_mul(p, fr_modulus())) {
                        Some(p)
                    } else {
                        None
                    }
                },
            },
        }
    }
}

/// The search for the point that a message hashes to: from the abscissa `x`
/// on, the first abscissa among `tries` at which the curve has a point whose
/// multiple by the cofactor is not the identity; that multiple is the result.
pub open spec fn g1_search(x: nat, tries: nat) -> Option<G1Value>
    decreases tries,
{
    if tries == 0 {
        None
    } else {
        match fp_sqrt(g1_rhs(x)) {
            Some(y) => {
                let p = g1_mul((x, y, 1nat), g1_cofactor());
                if g1_is_zero(p) {
                    g1_search(fp_next(x), (tries - 1) as nat)
                } else {
                    Some(p)
                }
            },
            None => g1_search(fp_next(x), (tries - 1) as nat),
        }
    }
}

/// The point that a message hashes to, where the search finds one among 256
/// abscissas.
pub open spec fn g1_hash(msg: Seq<u8>) -> Option<G1Value> {
    g1_search(fp_hash_point(msg), 256)
}

/// The coefficients over the base field of a point's affine coordinates, in
/// the order of their words.
pub open spec fn g1_coeffs(n: G1Value) -> Seq<nat> {
    seq![n.0, n.1]
}

/// The point with `z` at one whose affine coordinates have the given
/// coefficients.
pub open spec fn g1_from_coeffs(c: Seq<nat>) -> G1Value {
    (c[0], c[1], 1nat)
}

/// The text of a point: `0` for the identity; else `1` and the coefficients
/// of the affine coordinates, with spaces between.
pub open spec fn g1_format(p: G1Value, b: nat) -> Seq<char> {
    if g1_is_zero(p) {
        seq!['0']
    } else {
        seq!['1', ' '] + fp_format_list(g1_coeffs(g1_normalize(p)), b)
    }
}

/// The point that a text stands for in base 10 or 16: the word `0` stands for
/// the identity; else the word `1` and the coefficients of the affine
/// coordinates of a point of the group.
pub open spec fn g1_parse(s: Seq<char>, b: int) -> Option<G1Value> {
    let w = words(s);
    if w.len() == 1 && w[0] == seq!['0'] {
        Some(g1_zero())
    } else if w.len() == 3 && w[0] == seq!['1'] {
        match fp_parse_list(w.skip(1), b) {
            Some(c) => {
                let p = g1_from_coeffs(c);
                if g1_valid(p) {
                    Some(p)
                } else {
                    None
                }
            },
            None => None,
        }
    } else {
        None
    }
}

/// A point of G1 in Jacobian coordinates: `(x, y, z)` stands for the affine
/// point `(x / z^2, y / z^3)`, and for the identity where `z` is zero.
#[derive(Clone, Copy, Debug)]
pub struct G1 {
    pub x: Fp,
    pub y: Fp,
    pub z: Fp,
}

impl View for G1 {
    type V = G1Value;

    /// The values of the three coordinates.
    open spec fn view(&self) -> G1Value {
        (self.x@, self.y@, self.z@)
    }
}

impl PartialEq for G1 {
    /// Points are equal where their coordinates stand for one point.
    fn eq(&self, rhs: &Self) -> (r: bool) {
        if self.z.is_zero() || rhs.z.is_zero() {
            return self.z.is_zero() && rhs.z.is_zero();
        }
        if !self.is_reduced() || !rhs.is_reduced() {
            proof {
                if self@ == rhs@ {
                    Fp::lemma_view_injective(self.x, rhs.x);
                    Fp::lemma_view_injective(self.y, rhs.y);
                    Fp::lemma_view_injective(self.z, rhs.z);
                }
            }
            return self.x == rhs.x && self.y == rhs.y && self.z == rhs.z;
        }
        let z1z1 = self.z.squared();
        let z2z2 = rhs.z.squared();
        let u1 = self.x.times(&z2z2);
        let u2 = rhs.x.times(&z1z1);
        let s1 = self.y.times(&rhs.z).times(&z2z2);
        let s2 = rhs.y.times(&self.z).times(&z1z1);
        u1 == u2 && s1 == s2
    }
}

impl PartialEqSpecImpl for G1 {
    open spec fn obeys_eq_spec() -> bool {
        true
    }

    open spec fn eq_spec(&self, rhs: &Self) -> bool {
        if self.wf() && rhs.wf() {
            g1_same(self@, rhs@)
        } else if g1_is_zero(self@) || g1_is_zero(rhs@) {
            g1_is_zero(self@) && g1_is_zero(rhs@)
        } else {
            self@ == rhs@
        }
    }
}

impl Default for G1 {
    fn default() -> (r: G1)
        ensures
            r@ == g1_zero(),
            r.wf(),
    {
        G1::zero()
    }
}

impl G1 {
    /// The three coordinates are fully reduced.
    pub open spec fn wf(&self) -> bool {
        self.x.wf() && self.y.wf() && self.z.wf()
    }

    /// Points with the same coordinates are one triple.
    pub proof fn lemma_view_injective(x: G1, y: G1)
        requires
            x@ == y@,
        ensures
            x == y,
    {
        Fp::lemma_view_injective(x.x, y.x);
        Fp::lemma_view_injective(x.y, y.y);
        Fp::lemma_view_injective(x.z, y.z);
    }

    /// Whether the three coordinates are fully reduced.
    pub fn is_reduced(&self) -> (r: bool)
        ensures
            r == self.wf(),
    {
        self.x.is_valid() && self.y.is_valid() && self.z.is_valid()
    }

    /// The identity.
    pub fn zero() -> (r: G1)
        ensures
            r@ == g1_zero(),
            r.wf(),
    {
        G1 { x: Fp::zero(), y: Fp::zero(), z: Fp::zero() }
    }

    /// A placeholder for a value that is about to be overwritten: the
    /// identity.
    pub fn uninit() -> (r: G1)
        ensures
            r@ == g1_zero(),
            r.wf(),
    {
        G1::zero()
    }

    /// Sets the point to the identity.
    pub fn clear(&mut self)
        ensures
            final(self)@ == g1_zero(),
            final(self).wf(),
    {
        *self = G1::zero();
    }

    /// Whether the point is the identity.
    pub fn is_zero(&self) -> (r: bool)
        ensures
            r == g1_is_zero(self@),
    {
        self.z.is_zero()
    }

    /// The constant `b` of the curve equation.
    pub fn curve_b() -> (r: Fp)
        ensures
            r.wf(),
            r@ == g1_b(),
    {
        Fp::from_int(4)
    }

    /// Whether the point satisfies the curve equation.
    pub fn is_on_curve(&self) -> (r: bool)
        requires
            self.wf(),
        ensures
            r == g1_on_curve(self@),
    {
        if self.z.is_zero() {
            return true;
        }
        let z2 = self.z.squared();
        let z6 = z2.times(&z2).times(&z2);
        let lhs = self.y.squared();
        let rhs = self.x.squared().times(&self.x).plus(&G1::curve_b().times(&z6));
        lhs == rhs
    }

    /// Whether the point belongs to the group: its coordinates are fully
    /// reduced, it is on the curve, and the group order takes it to the
    /// identity.
    pub fn is_valid(&self) -> (r: bool)
        ensures
            r == (self.wf() && g1_valid(self@)),
    {
        proof {
            reveal(g1_valid);
        }
        if !self.is_reduced() {
            return false;
        }
        if !self.is_on_curve() {
            return false;
        }
        let m = fr_params();
        let t = G1::mul_by_limbs(self, &m.p);
        t.is_zero()
    }

    /// `2 * self`.
    pub fn doubled(&self) -> (r: G1)
        requires
            self.wf(),
        ensures
            r.wf(),
            r@ == g1_dbl(self@),
    {
        if self.z.is_zero() {
            return *self;
        }
        let a = self.x.squared();
        let b = self.y.squared();
        let c = b.squared();
        let t = self.x.plus(&b);
        let d0 = t.squared().minus(&a).minus(&c);
        let d = d0.plus(&d0);
        let e = a.plus(&a).plus(&a);
        let f = e.squared();
        let x3 = f.minus(&d.plus(&d));
        let c2 = c.plus(&c);
        let c4 = c2.plus(&c2);
        let c8 = c4.plus(&c4);
        let y3 = e.times(&d.minus(&x3)).minus(&c8);
        let yz = self.y.times(&self.z);
        G1 { x: x3, y: y3, z: yz.plus(&yz) }
    }

    /// `self + q`.
    pub fn plus(&self, q: &G1) -> (r: G1)
        requires
            self.wf(),
            q.wf(),
        ensures
            r.wf(),
            r@ == g1_add(self@, q@),
    {
        if self.z.is_zero() {
            return *q;
        }
        if q.z.is_zero() {
            return *self;
        }
        let z1z1 = self.z.squared();
        let z2z2 = q.z.squared();
        let u1 = self.x.times(&z2z2);
        let u2 = q.x.times(&z1z1);
        let s1 = self.y.times(&q.z).times(&z2z2);
        let s2 = q.y.times(&self.z).times(&z1z1);
        let h = u2.minus(&u1);
        let r = s2.minus(&s1);
        if h.is_zero() {
            if r.is_zero() {
                return self.doubled();
            }
            return G1::zero();
        }
        let hh = h.squared();
        let hhh = h.times(&hh);
        let v = u1.times(&hh);
        let x3 = r.squared().minus(&hhh).minus(&v.plus(&v));
        let y3 = r.times(&v.minus(&x3)).minus(&s1.times(&hhh));
        let z3 = self.z.times(&q.z).times(&h);
        G1 { x: x3, y: y3, z: z3 }
    }

    /// `-self`.
    pub fn negated(&self) -> (r: G1)
        requires
            self.wf(),
        ensures
            r.wf(),
            r@ == g1_neg(self@),
    {
        G1 { x: self.x, y: self.y.negated(), z: self.z }
    }

    /// `n * self` for a multi-limb number `n`. Every bit of `n` costs one
    /// doubling and one addition, whatever the bit is.
    pub fn mul_by_limbs<const M: usize>(p: &G1, n: &[u64; M]) -> (r: G1)
        requires
            p.wf(),
        ensures
            r.wf(),
            r@ == g1_mul(p@, limbs_val(n@)),
    {
        let mut acc = G1::zero();
        let mut k: usize = M;
        let ghost mut done: nat = 0;
        proof {
            assert(0 * radix(M as nat) == 0);
        }
        while k > 0
            invariant
                k <= M,
                p.wf(),
                acc.wf(),
                acc@ == g1_mul(p@, done),
                done * radix(k as nat) + prefix_val(n@, k as nat) == limbs_val(n@),
            decreases k,
        {
            let w: u64 = n[k - 1];
            let mut rem: u64 = w;
            let mut t: u64 = 0x8000_0000_0000_0000;
            let mut s: u32 = 64;
            let ghost d0 = done;
            proof {
                lemma2_to64();
                lemma_pow2_unfold(64);
            }
            while s > 0
                invariant
                    s <= 64,
                    p.wf(),
                    acc.wf(),
                    acc@ == g1_mul(p@, done),
                    s >= 1 ==> t == pow2((s - 1) as nat),
                    rem < pow2(s as nat),
                    done * pow2(s as nat) + rem == d0 * base() + w,
                decreases s,
            {
                let bit = rem >= t;
                let dbl = acc.doubled();
                let sum = dbl.plus(p);
                proof {
                    lemma_pow2_unfold(s as nat);
                    let b: nat = if bit {
                        1
                    } else {
                        0
                    };
                    let nd = 2 * done + b;
                    assert(nd / 2 == done && nd % 2 == b);
                    assert((2 * done + b) * pow2((s - 1) as nat) == done * (2 * pow2(
                        (s - 1) as nat,
                    )) + b * pow2((s - 1) as nat)) by (nonlinear_arith);
                    if s >= 2 {
                        lemma_pow2_unfold((s - 1) as nat);
                    }
                    done = nd;
                }
                if bit {
                    acc = sum;
                    rem = rem - t;
                } else {
                    acc = dbl;
                }
                t = t / 2;
                s = s - 1;
            }
            proof {
                lemma2_to64();
                assert(done * pow2(0) == done) by (nonlinear_arith)
                    requires
                        pow2(0) == 1,
                ;
                assert(done == d0 * base() + w);
                assert(radix(k as nat) == base() * radix((k - 1) as nat));
                assert(done * radix((k - 1) as nat) == d0 * (base() * radix((k - 1) as nat)) + w
                    * radix((k - 1) as nat)) by (nonlinear_arith)
                    requires
                        done == d0 * base() + w,
                ;
                assert(prefix_val(n@, k as nat) == prefix_val(n@, (k - 1) as nat) + (n[k
                    - 1] as nat) * radix((k - 1) as nat));
            }
            k = k - 1;
        }
        proof {
            assert(done * radix(0) == done) by (nonlinear_arith)
                requires
                    radix(0) == 1,
            ;
        }
        acc
    }

    /// The point with `z` brought to one.
    pub fn normalized(&self) -> (r: G1)
        requires
            self.wf(),
        ensures
            r.wf(),
            r@ == g1_normalize(self@),
    {
        if self.z.is_zero() {
            return G1::zero();
        }
        let zi = self.z.inverse();
        let zi2 = zi.squared();
        G1 { x: self.x.times(&zi2), y: self.y.times(&zi2.times(&zi)), z: Fp::one() }
    }

    /// `z = x + y`.
    pub fn add(z: &mut G1, x: &G1, y: &G1)
        requires
            x.wf(),
            y.wf(),
        ensures
            final(z).wf(),
            final(z)@ == g1_add(x@, y@),
    {
        *z = x.plus(y);
    }

    /// `z = x - y`.
    pub fn sub(z: &mut G1, x: &G1, y: &G1)
        requires
            x.wf(),
            y.wf(),
        ensures
            final(z).wf(),
            final(z)@ == g1_sub(x@, y@),
    {
        *z = x.plus(&y.negated());
    }

    /// `y = -x`.
    pub fn neg(y: &mut G1, x: &G1)
        requires
            x.wf(),
        ensures
            final(y).wf(),
            final(y)@ == g1_neg(x@),
    {
        *y = x.negated();
    }

    /// `y = 2 * x`.
    pub fn dbl(y: &mut G1, x: &G1)
        requires
            x.wf(),
        ensures
            final(y).wf(),
            final(y)@ == g1_dbl(x@),
    {
        *y = x.doubled();
    }

    /// `z = y * x`: the multiple of the point `x` by the scalar `y`.
    pub fn mul(z: &mut G1, x: &G1, y: &Fr)
        requires
            x.wf(),
        ensures
            final(z).wf(),
            final(z)@ == g1_mul(x@, y@),
    {
        let n = y.to_limbs();
        *z = G1::mul_by_limbs(x, &n);
    }

    /// `z` = the sum of the products `ys[i] * xs[i]`; the identity where there
    /// are none.
    pub fn mul_vec(z: &mut G1, xs: &[G1], ys: &[Fr])
        requires
            xs@.len() == ys@.len(),
            forall|i: int| 0 <= i < xs@.len() ==> (#[trigger] xs@[i]).wf(),
        ensures
            final(z).wf(),
            final(z)@ == g1_sum(xs@, ys@, xs@.len()),
    {
        let mut acc = G1::zero();
        let mut i: usize = 0;
        while i < xs.len()
            invariant
                i <= xs@.len(),
                xs@.len() == ys@.len(),
                forall|j: int| 0 <= j < xs@.len() ==> (#[trigger] xs@[j]).wf(),
                acc.wf(),
                acc@ == g1_sum(xs@, ys@, i as nat),
            decreases xs@.len() - i,
        {
            let n = ys[i].to_limbs();
            let t = G1::mul_by_limbs(&xs[i], &n);
            acc = acc.plus(&t);
            i = i + 1;
        }
        *z = acc;
    }

    /// `y` = `x` with `z` brought to one.
    pub fn normalize(y: &mut G1, x: &G1)
        requires
            x.wf(),
        ensures
            final(y).wf(),
            final(y)@ == g1_normalize(x@),
    {
        *y = x.normalized();
    }

    /// The cofactor of the curve, in limbs.
    pub fn cofactor_limbs() -> (h: [u64; 2])
        ensures
            limbs_val(h@) == g1_cofactor(),
    {
        let h: [u64; 2] = [
            0x8c00aaab0000aaab,
            0x396c8c005555e156,
        ];
        proof {
            reveal_with_fuel(prefix_val, 2);
            reveal_with_fuel(radix, 2);
            assert(radix(0) == 1);
            assert(prefix_val(h@, 0) == 0);
            assert(radix(1) == 0x10000000000000000nat);
            assert(prefix_val(h@, 1) == 0x8c00aaab0000aaabnat);
            assert(radix(2) == 0x100000000000000000000000000000000nat);
            assert(prefix_val(h@, 2) == 0x396c8c005555e1568c00aaab0000aaabnat);
        }
        h
    }

    /// The right side of the curve equation at the abscissa `x`.
    pub fn curve_rhs(x: &Fp) -> (r: Fp)
        requires
            x.wf(),
        ensures
            r.wf(),
            r@ == g1_rhs(x@),
    {
        x.squared().times(x).plus(&G1::curve_b())
    }

    /// The point's bytes.
    pub fn serialize(&self) -> (out: Vec<u8>)
        requires
            self.wf(),
        ensures
            out@ == g1_encode(self@),
    {
        if self.z.is_zero() {
            let mut out: Vec<u8> = vec![0u8; 48];
            out.set(47, 0x40);
            proof {
                assert(out@ =~= g1_zero_encoding());
            }
            return out;
        }
        let n = self.normalized();
        let mut out = n.x.serialize();
        proof {
            assert(out@.len() == 48);
        }
        if n.y.sign_bit() {
            let top: u8 = out[47] | 0x80;
            out.set(47, top);
        }
        out
    }

    /// Whether the bytes are those of the identity.
    fn is_zero_encoding(buf: &[u8]) -> (r: bool)
        ensures
            r == (buf@ == g1_zero_encoding()),
    {
        if buf.len() != 48 {
            return false;
        }
        let mut i: usize = 0;
        while i < 48
            invariant
                i <= 48,
                buf@.len() == 48,
                forall|j: int| 0 <= j < i ==> buf@[j] == g1_zero_encoding()[j],
            decreases 48 - i,
        {
            let want: u8 = if i == 47 {
                0x40
            } else {
                0
            };
            if buf[i] != want {
                return false;
            }
            i = i + 1;
        }
        proof {
            assert(buf@ =~= g1_zero_encoding());
        }
        true
    }

    /// Sets the point from its bytes. Where the bytes stand for no point of
    /// the group, the point is left as it was.
    pub fn deserialize(&mut self, buf: &[u8]) -> (ok: bool)
        ensures
            ok <==> g1_decode(buf@) is Some,
            ok ==> final(self).wf() && g1_decode(buf@) == Some(final(self)@),
            !ok ==> *final(self) == *old(self),
    {
        if buf.len() != 48 {
            return false;
        }
        if buf[47] & 0x40 != 0 {
            if G1::is_zero_encoding(buf) {
                *self = G1::zero();
                return true;
            }
            return false;
        }
        let sign = buf[47] & 0x80 != 0;
        let mut xb: Vec<u8> = Vec::new();
        xb.extend_from_slice(buf);
        let top: u8 = buf[47] & 0x3f;
        xb.set(47, top);
        proof {
            assert(xb@ =~= buf@.update(47, buf@[47] & 0x3fu8));
        }
        let mut x = Fp::zero();
        if !x.deserialize(xb.as_slice()) {
            return false;
        }
        let y0 = match G1::curve_rhs(&x).sqrt() {
            Some(v) => v,
            None => {
                return false;
            },
        };
        let y = if y0.sign_bit() == sign {
            y0
        } else {
            y0.negated()
        };
        if y.sign_bit() != sign {
            return false;
        }
        let p = G1 { x, y, z: Fp::one() };
        let m = fr_params();
        if !G1::mul_by_limbs(&p, &m.p).is_zero() {
            return false;
        }
        *self = p;
        true
    }

    /// Sets the point to the one that the search from the abscissa `x` finds:
    /// the search goes from `x` over the next abscissas until the curve has a
    /// point there whose multiple by the cofactor is not the identity, and
    /// takes that multiple. Where 256 abscissas do not suffice, the call
    /// fails and the point is left as it was.
    pub fn set_from_abscissa(&mut self, x: &Fp) -> (ok: bool)
        requires
            x.wf(),
        ensures
            ok <==> g1_search(x@, 256) is Some,
            ok ==> final(self).wf() && g1_search(x@, 256) == Some(final(self)@),
            !ok ==> *final(self) == *old(self),
    {
        let h = G1::cofactor_limbs();
        let ghost found = g1_search(x@, 256);
        let mut cur = *x;
        let mut tries: u32 = 256;
        while tries > 0
            invariant
                cur.wf(),
                limbs_val(h@) == g1_cofactor(),
                *self == *old(self),
                found == g1_search(x@, 256),
                found == g1_search(cur@, tries as nat),
            decreases tries,
        {
            match G1::curve_rhs(&cur).sqrt() {
                Some(y) => {
                    let p = G1 { x: cur, y, z: Fp::one() };
                    let q = G1::mul_by_limbs(&p, &h);
                    if !q.is_zero() {
                        *self = q;
                        return true;
                    }
                },
                None => {},
            }
            cur = cur.successor();
            tries = tries - 1;
        }
        false
    }

    /// Sets the point to the one that the message hashes to: the one that the
    /// search finds from the abscissa that the message hashes to. Where the
    /// search fails, the call fails and the point is left as it was.
    pub fn set_hash_of(&mut self, buf: &[u8]) -> (ok: bool)
        ensures
            ok <==> g1_hash(buf@) is Some,
            ok ==> final(self).wf() && g1_hash(buf@) == Some(final(self)@),
            !ok ==> *final(self) == *old(self),
    {
        let x = Fp::hash_point(buf);
        self.set_from_abscissa(&x)
    }

    /// The point's text in base 10 or 16.
    pub fn get_str(&self, io_mode: i32) -> (s: String)
        requires
            self.wf(),
            io_mode == 10 || io_mode == 16,
        ensures
            s@ == g1_format(self@, io_mode as nat),
    {
        if self.z.is_zero() {
            proof {
                reveal_strlit("0");
                assert("0"@ =~= seq!['0']);
            }
            return String::from_str("0");
        }
        let n = self.normalized();
        let c: [Fp; 2] = [n.x, n.y];
        proof {
            reveal_strlit("1 ");
            assert("1 "@ =~= seq!['1', ' ']);
            assert(fp_values(c@) =~= g1_coeffs(n@));
        }
        let mut s = String::from_str("1 ");
        let t = Fp::format_list(c.as_slice(), io_mode);
        s.append(t.as_str());
        s
    }

    /// Sets the point from text in base 10 or 16. Where the text stands for no
    /// point of the group, the point is left as it was.
    pub fn set_str(&mut self, s: &str, base: i32) -> (ok: bool)
        ensures
            ok <==> g1_parse(s@, base as int) is Some,
            ok ==> final(self).wf() && g1_parse(s@, base as int) == Some(final(self)@),
            !ok ==> *final(self) == *old(self),
    {
        let ws = split_words(s);
        proof {
            assert(views_of(ws@)[0] == ws@[0]@);
        }
        if ws.len() == 1 && is_single_char(ws[0], '0') {
            *self = G1::zero();
            return true;
        }
        if ws.len() != 3 || !is_single_char(ws[0], '1') {
            return false;
        }
        match G1::parse_affine(&ws, base) {
            Some(p) => {
                *self = p;
                true
            },
            None => false,
        }
    }

    /// The point of the group whose affine coordinates the words after the
    /// first stand for, if there is one.
    fn parse_affine(ws: &Vec<&str>, base: i32) -> (r: Option<G1>)
        requires
            ws@.len() == 3,
        ensures
            r is Some <==> (fp_parse_list(views_of(ws@).skip(1), base as int) matches Some(c)
                && g1_valid(g1_from_coeffs(c))),
            r matches Some(p) ==> p.wf() && p@ == g1_from_coeffs(
                fp_parse_list(views_of(ws@).skip(1), base as int)->0,
            ),
    {
        match Fp::parse_list(ws, 1, base) {
            Some(v) => {
                let p = G1 { x: v[0], y: v[1], z: Fp::one() };
                proof {
                    assert(p@ == g1_from_coeffs(fp_values(v@)));
                }
                if !p.is_valid() {
                    return None;
                }
                Some(p)
            },
            None => None,
        }
    }

    /// The point that the text stands for, if it stands for one.
    pub fn from_str(s: &str, base: i32) -> (r: Option<G1>)
        ensures
            r is Some <==> g1_parse(s@, base as int) is Some,
            r matches Some(v) ==> v.wf() && g1_parse(s@, base as int) == Some(v@),
    {
        let mut v = G1::zero();
        if v.set_str(s, base) {
            Some(v)
        } else {
            None
        }
    }

}

/// The affine coordinates of a point that is not the identity.
pub open spec fn g1_affine(p: G1Value) -> (nat, nat) {
    let n = g1_normalize(p);
    (n.0, n.1)
}

/// The chord rule: the third point of the curve on the line through two
/// points with different abscissas, reflected in the x axis.
pub open spec fn g1_chord(p: (nat, nat), q: (nat, nat)) -> (nat, nat) {
    let lam = fp_mul(fp_sub(q.1, p.1), fp_inv(fp_sub(q.0, p.0)));
    let x3 = fp_sub(fp_sub(fp_mul(lam, lam), p.0), q.0);
    (x3, fp_sub(fp_mul(lam, fp_sub(p.0, x3)), p.1))
}

/// The tangent rule: the second point of the curve on the tangent at a
/// point, reflected in the x axis.
pub open spec fn g1_tangent(p: (nat, nat)) -> (nat, nat) {
    let lam = fp_mul(fp_mul(3, fp_mul(p.0, p.0)), fp_inv(fp_add(p.1, p.1)));
    let x3 = fp_sub(fp_mul(lam, lam), fp_add(p.0, p.0));
    (x3, fp_sub(fp_mul(lam, fp_sub(p.0, x3)), p.1))
}

/// A factor that is congruent to one can be left out.
proof fn lemma_absorb(x: int, t: int, w: int, p: int)
    requires
        p > 0,
        x == t * w,
        cong(w, 1, p),
    ensures
        cong(x, t, p),
{
    lemma_cong_refl(t, p);
    lemma_cong_times(t, t, w, 1, p);
    assert(t * 1 == t);
}

/// Two products multiplied: the factors can be paired the other way.
proof fn lemma_swap(x: int, y: int, z: int, w: int)
    ensures
        (x * y) * (z * w) == (x * z) * (y * w),
{
    assert((x * y) * (z * w) == (x * z) * (y * w)) by (nonlinear_arith);
}

/// Products of numbers that are congruent to one are congruent to one.
proof fn lemma_units(w1: int, w2: int, p: int)
    requires
        p > 0,
        cong(w1, 1, p),
        cong(w2, 1, p),
    ensures
        cong(w1 * w2, 1, p),
{
    lemma_cong_times(w1, 1, w2, 1, p);
}

/// The algebra under the chord rule. With `a`, `b` and `c` the inverses of
/// `z1`, `z2` and of the difference `h` of the abscissas brought to one
/// denominator, `zi` is the inverse of the sum's `z`, `ci` is the inverse of
/// the difference of the affine abscissas, and the coordinates of the
/// Jacobian sum over the powers of its `z` are those of the chord rule.
proof fn lemma_g1_chord_algebra(
    x1: int,
    y1: int,
    z1: int,
    x2: int,
    y2: int,
    z2: int,
    a: int,
    b: int,
    c: int,
    p: int,
)
    requires
        p > 0,
        cong(z1 * a, 1, p),
        cong(z2 * b, 1, p),
        cong((x2 * (z1 * z1) - x1 * (z2 * z2)) * c, 1, p),
    ensures
        ({
            let z11 = z1 * z1;
            let z22 = z2 * z2;
            let u1 = x1 * z22;
            let u2 = x2 * z11;
            let s1 = (y1 * z2) * z22;
            let s2 = (y2 * z1) * z11;
            let h = u2 - u1;
            let r = s2 - s1;
            let hh = h * h;
            let hhh = h * hh;
            let v = u1 * hh;
            let ex = r * r - hhh - (v + v);
            let ey = r * (v - ex) - s1 * hhh;
            let ez = (z1 * z2) * h;
            let zi = (a * b) * c;
            let aa = a * a;
            let bb = b * b;
            let x1p = x1 * aa;
            let y1p = y1 * (aa * a);
            let x2p = x2 * bb;
            let y2p = y2 * (bb * b);
            let ci = c * (z11 * z22);
            let lam = (y2p - y1p) * ci;
            let x3 = lam * lam - x1p - x2p;
            let y3 = lam * (x1p - x3) - y1p;
            &&& cong(ez * zi, 1, p)
            &&& cong((x2p - x1p) * ci, 1, p)
            &&& cong(ex * (zi * zi), x3, p)
            &&& cong(ey * ((zi * zi) * zi), y3, p)
        }),
{
    let z11 = z1 * z1;
    let z22 = z2 * z2;
    let u1 = x1 * z22;
    let u2 = x2 * z11;
    let s1 = (y1 * z2) * z22;
    let s2 = (y2 * z1) * z11;
    let h = u2 - u1;
    let r = s2 - s1;
    let hh = h * h;
    let hhh = h * hh;
    let v = u1 * hh;
    let ex = r * r - hhh - (v + v);
    let ey = r * (v - ex) - s1 * hhh;
    let ez = (z1 * z2) * h;
    let zi = (a * b) * c;
    let aa = a * a;
    let bb = b * b;
    let x1p = x1 * aa;
    let y1p = y1 * (aa * a);
    let x2p = x2 * bb;
    let y2p = y2 * (bb * b);
    let ci = c * (z11 * z22);
    let lam = (y2p - y1p) * ci;
    let x3 = lam * lam - x1p - x2p;
    let y3 = lam * (x1p - x3) - y1p;
    // the units and their powers
    let wa = z1 * a;
    let wb = z2 * b;
    let wc = h * c;
    let wa2 = wa * wa;
    let wb2 = wb * wb;
    let wb3 = wb * wb2;
    let wc2 = wc * wc;
    let wc3 = wc * wc2;
    lemma_units(wa, wa, p);
    lemma_units(wb, wb, p);
    lemma_units(wb, wb2, p);
    lemma_units(wc, wc, p);
    lemma_units(wc, wc2, p);
    let ab = a * b;
    let ab2 = ab * ab;
    let ab3 = ab * ab2;
    // the inverse of the sum's z
    assert(ez * zi == (wa * wb) * wc) by (nonlinear_arith)
        requires
            ez == (z1 * z2) * h,
            zi == (a * b) * c,
            wa == z1 * a,
            wb == z2 * b,
            wc == h * c,
    ;
    lemma_units(wa, wb, p);
    lemma_units(wa * wb, wc, p);
    // the affine abscissas and ordinates from the Jacobian ones
    assert(aa * z11 == wa2) by (nonlinear_arith)
        requires
            aa == a * a,
            z11 == z1 * z1,
            wa == z1 * a,
            wa2 == wa * wa,
    ;
    assert(bb * z22 == wb2) by (nonlinear_arith)
        requires
            bb == b * b,
            z22 == z2 * z2,
            wb == z2 * b,
            wb2 == wb * wb,
    ;
    // u2 * (a b)^2 == x2p * wa^2, u1 * (a b)^2 == x1p * wb^2
    assert(ab2 == aa * bb) by (nonlinear_arith)
        requires
            ab == a * b,
            ab2 == ab * ab,
            aa == a * a,
            bb == b * b,
    ;
    let u2ab = u2 * ab2;
    let u1ab = u1 * ab2;
    assert(u2ab == x2p * wa2) by (nonlinear_arith)
        requires
            u2ab == u2 * ab2,
            u2 == x2 * z11,
            ab2 == aa * bb,
            x2p == x2 * bb,
            aa * z11 == wa2,
    ;
    assert(u1ab == x1p * wb2) by (nonlinear_arith)
        requires
            u1ab == u1 * ab2,
            u1 == x1 * z22,
            ab2 == aa * bb,
            x1p == x1 * aa,
            bb * z22 == wb2,
    ;
    lemma_absorb(u2ab, x2p, wa2, p);
    lemma_absorb(u1ab, x1p, wb2, p);
    // the inverse of the difference of the affine abscissas
    let zz = z11 * z22;
    let dz = (x2p - x1p) * zz;
    let bz = bb * z22;
    let az = aa * z11;
    assert(x2p * zz == u2 * bz) by (nonlinear_arith)
        requires
            zz == z11 * z22,
            x2p == x2 * bb,
            u2 == x2 * z11,
            bz == bb * z22,
    ;
    assert(x1p * zz == u1 * az) by (nonlinear_arith)
        requires
            zz == z11 * z22,
            x1p == x1 * aa,
            u1 == x1 * z22,
            az == aa * z11,
    ;
    assert(dz == x2p * zz - x1p * zz) by (nonlinear_arith)
        requires
            dz == (x2p - x1p) * zz,
    ;
    assert(dz == u2 * wb2 - u1 * wa2);
    lemma_absorb(u2 * wb2, u2, wb2, p);
    lemma_absorb(u1 * wa2, u1, wa2, p);
    lemma_cong_sub(u2 * wb2, u2, u1 * wa2, u1, p);
    lemma_cong_refl(c, p);
    lemma_cong_times(dz, h, c, c, p);
    assert((x2p - x1p) * ci == dz * c) by (nonlinear_arith)
        requires
            dz == (x2p - x1p) * zz,
            ci == c * zz,
    ;
    lemma_cong_trans(dz * c, wc, 1, p);
    // the slope
    let l = r * zi;
    let m2 = ((y2 * z11) * b) * c;
    let m1 = ((y1 * z22) * a) * c;
    let k2 = y2 * z11;
    let k1 = y1 * z22;
    let ac = a * c;
    let bc = b * c;
    assert(s2 == k2 * z1) by (nonlinear_arith)
        requires
            s2 == (y2 * z1) * z11,
            k2 == y2 * z11,
    ;
    assert(s1 == k1 * z2) by (nonlinear_arith)
        requires
            s1 == (y1 * z2) * z22,
            k1 == y1 * z22,
    ;
    assert(zi == bc * a) by (nonlinear_arith)
        requires
            zi == (a * b) * c,
            bc == b * c,
    ;
    assert(zi == ac * b) by (nonlinear_arith)
        requires
            zi == (a * b) * c,
            ac == a * c,
    ;
    assert(m2 == k2 * bc) by (nonlinear_arith)
        requires
            m2 == ((y2 * z11) * b) * c,
            k2 == y2 * z11,
            bc == b * c,
    ;
    assert(m1 == k1 * ac) by (nonlinear_arith)
        requires
            m1 == ((y1 * z22) * a) * c,
            k1 == y1 * z22,
            ac == a * c,
    ;
    lemma_swap(k2, z1, bc, a);
    lemma_swap(k1, z2, ac, b);
    assert(s2 * zi == m2 * wa);
    assert(s1 * zi == m1 * wb);
    let yb = y2 * b;
    let ya = y1 * a;
    let cz1 = c * z11;
    let cz2 = c * z22;
    assert(y2p == yb * bb) by (nonlinear_arith)
        requires
            y2p == y2 * (bb * b),
            yb == y2 * b,
    ;
    assert(y1p == ya * aa) by (nonlinear_arith)
        requires
            y1p == y1 * (aa * a),
            ya == y1 * a,
    ;
    assert(ci == cz1 * z22) by (nonlinear_arith)
        requires
            ci == c * (z11 * z22),
            cz1 == c * z11,
    ;
    assert(ci == cz2 * z11) by (nonlinear_arith)
        requires
            ci == c * (z11 * z22),
            cz2 == c * z22,
    ;
    assert(yb * cz1 == k2 * bc) by (nonlinear_arith)
        requires
            yb == y2 * b,
            cz1 == c * z11,
            k2 == y2 * z11,
            bc == b * c,
    ;
    assert(ya * cz2 == k1 * ac) by (nonlinear_arith)
        requires
            ya == y1 * a,
            cz2 == c * z22,
            k1 == y1 * z22,
            ac == a * c,
    ;
    lemma_swap(yb, bb, cz1, z22);
    lemma_swap(ya, aa, cz2, z11);
    assert(y2p * ci == m2 * wb2);
    assert(y1p * ci == m1 * wa2);
    lemma_absorb(s2 * zi, m2, wa, p);
    lemma_absorb(s1 * zi, m1, wb, p);
    lemma_absorb(y2p * ci, m2, wb2, p);
    lemma_absorb(y1p * ci, m1, wa2, p);
    lemma_cong_sub(s2 * zi, m2, s1 * zi, m1, p);
    lemma_cong_sub(y2p * ci, m2, y1p * ci, m1, p);
    assert(l == s2 * zi - s1 * zi) by (nonlinear_arith)
        requires
            l == r * zi,
            r == s2 - s1,
    ;
    assert(lam == y2p * ci - y1p * ci) by (nonlinear_arith)
        requires
            lam == (y2p - y1p) * ci,
    ;
    lemma_cong_sym(lam, m2 - m1, p);
    lemma_cong_trans(l, m2 - m1, lam, p);
    lemma_cong_times(l, lam, l, lam, p);
    // the abscissa
    let zi2 = zi * zi;
    let zi3 = zi2 * zi;
    assert(zi2 == ab2 * (c * c)) by (nonlinear_arith)
        requires
            zi == ab * c,
            zi2 == zi * zi,
            ab2 == ab * ab,
    ;
    assert((r * r) * zi2 == l * l) by (nonlinear_arith)
        requires
            l == r * zi,
            zi2 == zi * zi,
    ;
    assert(hh * zi2 == wc2 * ab2) by (nonlinear_arith)
        requires
            hh == h * h,
            zi2 == ab2 * (c * c),
            wc == h * c,
            wc2 == wc * wc,
    ;
    let hab = h * ab2;
    assert(hhh * zi2 == hab * wc2) by (nonlinear_arith)
        requires
            hhh == h * hh,
            hh * zi2 == wc2 * ab2,
            hab == h * ab2,
    ;
    assert(v * zi2 == u1ab * wc2) by (nonlinear_arith)
        requires
            v == u1 * hh,
            hh * zi2 == wc2 * ab2,
            u1ab == u1 * ab2,
    ;
    lemma_absorb(hhh * zi2, hab, wc2, p);
    lemma_absorb(v * zi2, u1ab, wc2, p);
    lemma_cong_trans(v * zi2, u1ab, x1p, p);
    assert(hab == u2ab - u1ab) by (nonlinear_arith)
        requires
            hab == h * ab2,
            h == u2 - u1,
            u2ab == u2 * ab2,
            u1ab == u1 * ab2,
    ;
    lemma_cong_sub(u2ab, x2p, u1ab, x1p, p);
    lemma_cong_trans(hhh * zi2, hab, x2p - x1p, p);
    let rr = r * r;
    assert((rr - hhh - (v + v)) * zi2 == rr * zi2 - hhh * zi2 - (v * zi2 + v * zi2))
        by (nonlinear_arith);
    let exz = ex * zi2;
    assert(exz == l * l - hhh * zi2 - (v * zi2 + v * zi2));
    lemma_cong_sub(l * l, lam * lam, hhh * zi2, x2p - x1p, p);
    lemma_cong_add(v * zi2, x1p, v * zi2, x1p, p);
    lemma_cong_sub(
        l * l - hhh * zi2,
        lam * lam - (x2p - x1p),
        v * zi2 + v * zi2,
        x1p + x1p,
        p,
    );
    assert(lam * lam - (x2p - x1p) - (x1p + x1p) == x3);
    // the ordinate
    let t = v - ex;
    assert((r * t) * zi3 == l * (t * zi2)) by (nonlinear_arith)
        requires
            l == r * zi,
            zi3 == zi2 * zi,
    ;
    assert(t * zi2 == v * zi2 - exz) by (nonlinear_arith)
        requires
            t == v - ex,
            exz == ex * zi2,
    ;
    assert(zi3 == ab3 * ((c * c) * c)) by (nonlinear_arith)
        requires
            zi3 == zi2 * zi,
            zi2 == ab2 * (c * c),
            zi == ab * c,
            ab3 == ab * ab2,
    ;
    assert(hhh * zi3 == wc3 * ab3) by (nonlinear_arith)
        requires
            hhh == h * hh,
            hh == h * h,
            zi3 == ab3 * ((c * c) * c),
            wc == h * c,
            wc2 == wc * wc,
            wc3 == wc * wc2,
    ;
    let s1ab = s1 * ab3;
    assert((s1 * hhh) * zi3 == s1ab * wc3) by (nonlinear_arith)
        requires
            hhh * zi3 == wc3 * ab3,
            s1ab == s1 * ab3,
    ;
    assert(ab3 == (aa * a) * (bb * b)) by (nonlinear_arith)
        requires
            ab == a * b,
            ab2 == ab * ab,
            ab3 == ab * ab2,
            aa == a * a,
            bb == b * b,
    ;
    assert((bb * b) * (z2 * z22) == wb3) by (nonlinear_arith)
        requires
            bb == b * b,
            z22 == z2 * z2,
            wb == z2 * b,
            wb2 == wb * wb,
            wb3 == wb * wb2,
    ;
    assert(s1ab == y1p * wb3) by (nonlinear_arith)
        requires
            s1ab == s1 * ab3,
            s1 == (y1 * z2) * z22,
            ab3 == (aa * a) * (bb * b),
            y1p == y1 * (aa * a),
            (bb * b) * (z2 * z22) == wb3,
    ;
    lemma_absorb((s1 * hhh) * zi3, s1ab, wc3, p);
    lemma_absorb(s1ab, y1p, wb3, p);
    lemma_cong_trans((s1 * hhh) * zi3, s1ab, y1p, p);
    let b1 = r * t;
    let b2 = s1 * hhh;
    assert((b1 - b2) * zi3 == b1 * zi3 - b2 * zi3) by (nonlinear_arith);
    assert(ey * zi3 == l * (v * zi2 - exz) - b2 * zi3);
    lemma_cong_sub(v * zi2, x1p, exz, x3, p);
    lemma_cong_times(l, lam, v * zi2 - exz, x1p - x3, p);
    lemma_cong_sub(l * (v * zi2 - exz), lam * (x1p - x3), b2 * zi3, y1p, p);
}

/// A number that is congruent to one leaves the remainder one.
proof fn lemma_cong_one(v: int, p: int)
    requires
        p > 1,
        cong(v, 1, p),
    ensures
        v % p == 1,
{
    lemma_cong_rem(v, p);
    lemma_cong_trans(v % p, v, 1, p);
    lemma_mod_bound(v, p);
    lemma_cong_eq(v % p, 1, p);
}

/// A number times its inverse is congruent to one.
proof fn lemma_inverse_cong(x: nat, p: nat)
    requires
        p > 1,
        has_inverse(x, p),
    ensures
        cong((x * mod_inv(x, p)) as int, 1, p as int),
        mod_inv(x, p) < p,
        x % p != 0,
{
    lemma_mod_inv_is_inverse(x, p);
    let v = (x * mod_inv(x, p)) as int;
    lemma_cong_rem(v, p as int);
    lemma_cong_sym(v % (p as int), v, p as int);
    if x % p == 0 {
        lemma_mul_mod_noop_left(x as int, mod_inv(x, p) as int, p as int);
        assert(0 * mod_inv(x, p) == 0);
        lemma_small_mod(0, p);
    }
}

/// The difference of the abscissas of two points, brought to one
/// denominator: zero where the points have one abscissa.
pub open spec fn g1_gap(p: G1Value, q: G1Value) -> nat {
    fp_sub(fp_mul(q.0, fp_mul(p.2, p.2)), fp_mul(p.0, fp_mul(q.2, q.2)))
}

/// The sum of two points with different abscissas is what the chord rule
/// gives for their affine forms, wherever the `z` of both and the difference
/// of the abscissas have inverses.
pub proof fn lemma_g1_add_is_chord(p: G1, q: G1)
    requires
        p.wf(),
        q.wf(),
        has_inverse(p@.2, fp_modulus()),
        has_inverse(q@.2, fp_modulus()),
        has_inverse(g1_gap(p@, q@), fp_modulus()),
    ensures
        !g1_is_zero(g1_add(p@, q@)),
        g1_affine(g1_add(p@, q@)) == g1_chord(g1_affine(p@), g1_affine(q@)),
{
    let m = fp_modulus();
    let mi = m as int;
    let x1 = p@.0;
    let y1 = p@.1;
    let z1 = p@.2;
    let x2 = q@.0;
    let y2 = q@.1;
    let z2 = q@.2;
    lemma_small_mod(z1, m);
    lemma_small_mod(z2, m);
    lemma_inverse_cong(z1, m);
    lemma_inverse_cong(z2, m);
    let a = fp_inv(z1);
    let b = fp_inv(z2);
    // the Jacobian sum
    let z11 = fp_mul(z1, z1);
    let z22 = fp_mul(z2, z2);
    let u1 = fp_mul(x1, z22);
    let u2 = fp_mul(x2, z11);
    let s1 = fp_mul(fp_mul(y1, z2), z22);
    let s2 = fp_mul(fp_mul(y2, z1), z11);
    let h = fp_sub(u2, u1);
    let r = fp_sub(s2, s1);
    assert(h == g1_gap(p@, q@));
    lemma_mod_bound(u2 as int - u1 as int, mi);
    lemma_small_mod(h, m);
    lemma_inverse_cong(h, m);
    let c = fp_inv(h);
    let hh = fp_mul(h, h);
    let hhh = fp_mul(h, hh);
    let v = fp_mul(u1, hh);
    let bx = fp_sub(fp_sub(fp_mul(r, r), hhh), fp_add(v, v));
    let by = fp_sub(fp_mul(r, fp_sub(v, bx)), fp_mul(s1, hhh));
    let bz = fp_mul(fp_mul(z1, z2), h);
    assert(g1_add(p@, q@) == (bx, by, bz));
    // the same in the integers
    let ix1 = x1 as int;
    let iy1 = y1 as int;
    let iz1 = z1 as int;
    let ix2 = x2 as int;
    let iy2 = y2 as int;
    let iz2 = z2 as int;
    let ia = a as int;
    let ib = b as int;
    let ic = c as int;
    let iz11 = iz1 * iz1;
    let iz22 = iz2 * iz2;
    let iu1 = ix1 * iz22;
    let iu2 = ix2 * iz11;
    let is1 = (iy1 * iz2) * iz22;
    let is2 = (iy2 * iz1) * iz11;
    let ih = iu2 - iu1;
    let ir = is2 - is1;
    let ihh = ih * ih;
    let ihhh = ih * ihh;
    let iv = iu1 * ihh;
    let iex = ir * ir - ihhh - (iv + iv);
    let iey = ir * (iv - iex) - is1 * ihhh;
    let iez = (iz1 * iz2) * ih;
    let izi = (ia * ib) * ic;
    let iaa = ia * ia;
    let ibb = ib * ib;
    let ix1p = ix1 * iaa;
    let iy1p = iy1 * (iaa * ia);
    let ix2p = ix2 * ibb;
    let iy2p = iy2 * (ibb * ib);
    let ici = ic * (iz11 * iz22);
    let ilam = (iy2p - iy1p) * ici;
    let ix3 = ilam * ilam - ix1p - ix2p;
    let iy3 = ilam * (ix1p - ix3) - iy1p;
    lemma_cong_refl(ix1, mi);
    lemma_cong_refl(iy1, mi);
    lemma_cong_refl(iz1, mi);
    lemma_cong_refl(ix2, mi);
    lemma_cong_refl(iy2, mi);
    lemma_cong_refl(iz2, mi);
    lemma_cong_refl(ia, mi);
    lemma_cong_refl(ib, mi);
    lemma_cong_refl(ic, mi);
    lemma_mod_ops_cong(z1, iz1, z1, iz1, m);
    lemma_mod_ops_cong(z2, iz2, z2, iz2, m);
    lemma_mod_ops_cong(x1, ix1, z22, iz22, m);
    lemma_mod_ops_cong(x2, ix2, z11, iz11, m);
    lemma_mod_ops_cong(y1, iy1, z2, iz2, m);
    lemma_mod_ops_cong(y2, iy2, z1, iz1, m);
    lemma_mod_ops_cong(fp_mul(y1, z2), iy1 * iz2, z22, iz22, m);
    lemma_mod_ops_cong(fp_mul(y2, z1), iy2 * iz1, z11, iz11, m);
    lemma_mod_ops_cong(u2, iu2, u1, iu1, m);
    lemma_mod_ops_cong(s2, is2, s1, is1, m);
    lemma_mod_ops_cong(h, ih, h, ih, m);
    lemma_mod_ops_cong(h, ih, hh, ihh, m);
    lemma_mod_ops_cong(u1, iu1, hh, ihh, m);
    lemma_mod_ops_cong(r, ir, r, ir, m);
    lemma_mod_ops_cong(fp_mul(r, r), ir * ir, hhh, ihhh, m);
    lemma_mod_ops_cong(v, iv, v, iv, m);
    lemma_mod_ops_cong(fp_sub(fp_mul(r, r), hhh), ir * ir - ihhh, fp_add(v, v), iv + iv, m);
    lemma_mod_ops_cong(v, iv, bx, iex, m);
    lemma_mod_ops_cong(r, ir, fp_sub(v, bx), iv - iex, m);
    lemma_mod_ops_cong(s1, is1, hhh, ihhh, m);
    lemma_mod_ops_cong(
        fp_mul(r, fp_sub(v, bx)),
        ir * (iv - iex),
        fp_mul(s1, hhh),
        is1 * ihhh,
        m,
    );
    lemma_mod_ops_cong(z1, iz1, z2, iz2, m);
    lemma_mod_ops_cong(fp_mul(z1, z2), iz1 * iz2, h, ih, m);
    // the inverses
    lemma_mod_ops_cong(h, ih, c, ic, m);
    lemma_cong_rem((h * c) as int, mi);
    lemma_cong_sym(fp_mul(h, c) as int, (h * c) as int, mi);
    lemma_cong_sym(fp_mul(h, c) as int, ih * ic, mi);
    lemma_cong_trans(ih * ic, fp_mul(h, c) as int, (h * c) as int, mi);
    lemma_cong_trans(ih * ic, (h * c) as int, 1, mi);
    lemma_g1_chord_algebra(ix1, iy1, iz1, ix2, iy2, iz2, ia, ib, ic, mi);
    let zi = fp_mul(fp_mul(a, b), c);
    lemma_mod_ops_cong(a, ia, b, ib, m);
    lemma_mod_ops_cong(fp_mul(a, b), ia * ib, c, ic, m);
    lemma_cong_times(bz as int, iez, zi as int, izi, mi);
    lemma_cong_trans((bz as int) * (zi as int), iez * izi, 1, mi);
    lemma_cong_one((bz as int) * (zi as int), mi);
    lemma_mod_bound(((a * b) % m * c) as int, mi);
    assert(is_inverse(bz, zi, m));
    lemma_mod_inv_eq(bz, zi, m);
    lemma_inverse_cong(bz, m);
    lemma_mod_bound((fp_mul(z1, z2) * h) as int, mi);
    lemma_small_mod(bz, m);
    assert(bz != 0);
    let zi2 = fp_mul(zi, zi);
    let zi3 = fp_mul(zi2, zi);
    let xa = fp_mul(bx, zi2);
    let ya = fp_mul(by, zi3);
    assert(g1_affine(g1_add(p@, q@)) == (xa, ya));
    lemma_mod_ops_cong(zi, izi, zi, izi, m);
    lemma_mod_ops_cong(zi2, izi * izi, zi, izi, m);
    lemma_mod_ops_cong(bx, iex, zi2, izi * izi, m);
    lemma_mod_ops_cong(by, iey, zi3, (izi * izi) * izi, m);
    // the affine forms and the chord rule
    let aa = fp_mul(a, a);
    let bb = fp_mul(b, b);
    let x1p = fp_mul(x1, aa);
    let y1p = fp_mul(y1, fp_mul(aa, a));
    let x2p = fp_mul(x2, bb);
    let y2p = fp_mul(y2, fp_mul(bb, b));
    assert(g1_affine(p@) == (x1p, y1p));
    assert(g1_affine(q@) == (x2p, y2p));
    lemma_mod_ops_cong(a, ia, a, ia, m);
    lemma_mod_ops_cong(b, ib, b, ib, m);
    lemma_mod_ops_cong(aa, iaa, a, ia, m);
    lemma_mod_ops_cong(bb, ibb, b, ib, m);
    lemma_mod_ops_cong(x1, ix1, aa, iaa, m);
    lemma_mod_ops_cong(x2, ix2, bb, ibb, m);
    lemma_mod_ops_cong(y1, iy1, fp_mul(aa, a), iaa * ia, m);
    lemma_mod_ops_cong(y2, iy2, fp_mul(bb, b), ibb * ib, m);
    let gap = fp_sub(x2p, x1p);
    let ci = fp_mul(c, fp_mul(z11, z22));
    lemma_mod_ops_cong(x2p, ix2p, x1p, ix1p, m);
    lemma_mod_ops_cong(z11, iz11, z22, iz22, m);
    lemma_mod_ops_cong(c, ic, fp_mul(z11, z22), iz11 * iz22, m);
    lemma_cong_times(gap as int, ix2p - ix1p, ci as int, ici, mi);
    lemma_cong_trans((gap as int) * (ci as int), (ix2p - ix1p) * ici, 1, mi);
    lemma_cong_one((gap as int) * (ci as int), mi);
    lemma_mod_bound((c * fp_mul(z11, z22)) as int, mi);
    assert(is_inverse(gap, ci, m));
    lemma_mod_inv_eq(gap, ci, m);
    let lam = fp_mul(fp_sub(y2p, y1p), ci);
    let x3 = fp_sub(fp_sub(fp_mul(lam, lam), x1p), x2p);
    let y3 = fp_sub(fp_mul(lam, fp_sub(x1p, x3)), y1p);
    assert(g1_chord((x1p, y1p), (x2p, y2p)) == (x3, y3));
    lemma_mod_ops_cong(y2p, iy2p, y1p, iy1p, m);
    lemma_mod_ops_cong(fp_sub(y2p, y1p), iy2p - iy1p, ci, ici, m);
    lemma_mod_ops_cong(lam, ilam, lam, ilam, m);
    lemma_mod_ops_cong(fp_mul(lam, lam), ilam * ilam, x1p, ix1p, m);
    lemma_mod_ops_cong(fp_sub(fp_mul(lam, lam), x1p), ilam * ilam - ix1p, x2p, ix2p, m);
    lemma_mod_ops_cong(x1p, ix1p, x3, ix3, m);
    lemma_mod_ops_cong(lam, ilam, fp_sub(x1p, x3), ix1p - ix3, m);
    lemma_mod_ops_cong(fp_mul(lam, fp_sub(x1p, x3)), ilam * (ix1p - ix3), y1p, iy1p, m);
    // both sides are congruent, and fully reduced
    lemma_cong_trans(xa as int, iex * (izi * izi), ix3, mi);
    lemma_cong_sym(x3 as int, ix3, mi);
    lemma_cong_trans(xa as int, ix3, x3 as int, mi);
    lemma_cong_trans(ya as int, iey * ((izi * izi) * izi), iy3, mi);
    lemma_cong_sym(y3 as int, iy3, mi);
    lemma_cong_trans(ya as int, iy3, y3 as int, mi);
    lemma_mod_bound((bx * zi2) as int, mi);
    lemma_mod_bound((by * zi3) as int, mi);
    lemma_mod_bound(fp_sub(fp_mul(lam, lam), x1p) as int - x2p as int, mi);
    lemma_mod_bound(fp_mul(lam, fp_sub(x1p, x3)) as int - y1p as int, mi);
    lemma_cong_eq(xa as int, x3 as int, mi);
    lemma_cong_eq(ya as int, y3 as int, mi);
}

/// The algebra under the tangent rule. With `a` and `d` the inverses of `z`
/// and of the double's `z`, `ci` is the inverse of twice the affine ordinate,
/// and the coordinates of the Jacobian double over the powers of its `z` are
/// those of the tangent rule.
proof fn lemma_g1_tangent_algebra(x: int, y: int, z: int, a: int, d: int, p: int)
    requires
        p > 0,
        cong(z * a, 1, p),
        cong((y * z + y * z) * d, 1, p),
    ensures
        ({
            let ca = x * x;
            let cb = y * y;
            let cc = cb * cb;
            let t = x + cb;
            let d0 = t * t - ca - cc;
            let dd = d0 + d0;
            let e = ca + ca + ca;
            let ex = e * e - (dd + dd);
            let c2 = cc + cc;
            let c4 = c2 + c2;
            let c8 = c4 + c4;
            let ey = e * (dd - ex) - c8;
            let aa = a * a;
            let xp = x * aa;
            let yp = y * (aa * a);
            let zz = z * z;
            let ci = d * (zz * zz);
            let lam = (3 * (xp * xp)) * ci;
            let x3 = lam * lam - (xp + xp);
            let y3 = lam * (xp - x3) - yp;
            &&& cong((yp + yp) * ci, 1, p)
            &&& cong(ex * (d * d), x3, p)
            &&& cong(ey * ((d * d) * d), y3, p)
        }),
{
    let ca = x * x;
    let cb = y * y;
    let cc = cb * cb;
    let t = x + cb;
    let d0 = t * t - ca - cc;
    let dd = d0 + d0;
    let e = ca + ca + ca;
    let ex = e * e - (dd + dd);
    let c8 = 8 * cc;
    let ey = e * (dd - ex) - c8;
    let aa = a * a;
    let xp = x * aa;
    let yp = y * (aa * a);
    let zz = z * z;
    let ci = d * (zz * zz);
    let lam = (3 * (xp * xp)) * ci;
    let x3 = lam * lam - (xp + xp);
    let y3 = lam * (xp - x3) - yp;
    // the units and their powers
    let wa = z * a;
    let wd = (y * z + y * z) * d;
    let wa2 = wa * wa;
    let wa3 = wa * wa2;
    let wa4 = wa2 * wa2;
    lemma_units(wa, wa, p);
    lemma_units(wa, wa2, p);
    lemma_units(wa2, wa2, p);
    assert(aa * zz == wa2) by (nonlinear_arith)
        requires
            aa == a * a,
            zz == z * z,
            wa == z * a,
            wa2 == wa * wa,
    ;
    // the inverse of twice the affine ordinate
    let a3 = aa * a;
    let z3 = z * zz;
    assert(a3 * z3 == wa3) by (nonlinear_arith)
        requires
            a3 == aa * a,
            z3 == z * zz,
            aa * zz == wa2,
            wa == z * a,
            wa3 == wa * wa2,
    ;
    let yz2 = y * z + y * z;
    let ya = y * a3;
    let yzd = (y * z) * d;
    assert(zz * zz == z * z3) by (nonlinear_arith)
        requires
            zz == z * z,
            z3 == z * zz,
    ;
    assert(ya * ci == (ya * d) * (z * z3)) by (nonlinear_arith)
        requires
            ci == d * (zz * zz),
            zz * zz == z * z3,
    ;
    assert(ya * d == (y * d) * a3) by (nonlinear_arith)
        requires
            ya == y * a3,
    ;
    lemma_swap(y * d, a3, z, z3);
    assert((y * d) * z == yzd) by (nonlinear_arith)
        requires
            yzd == (y * z) * d,
    ;
    assert(ya * ci == yzd * (a3 * z3));
    assert(yz2 * d == yzd + yzd) by (nonlinear_arith)
        requires
            yz2 == y * z + y * z,
            yzd == (y * z) * d,
    ;
    let w3 = a3 * z3;
    assert((yp + yp) * ci == (yz2 * d) * w3) by (nonlinear_arith)
        requires
            yp == ya,
            ya * ci == yzd * w3,
            yz2 * d == yzd + yzd,
    ;
    lemma_units(wd, wa3, p);
    // the slope
    let l = e * d;
    let xx = xp * xp;
    assert(xx == ca * (aa * aa)) by (nonlinear_arith)
        requires
            xx == xp * xp,
            xp == x * aa,
            ca == x * x,
    ;
    assert((aa * aa) * (zz * zz) == wa4) by (nonlinear_arith)
        requires
            aa * zz == wa2,
            wa4 == wa2 * wa2,
    ;
    assert(lam == l * wa4) by (nonlinear_arith)
        requires
            lam == (3 * xx) * ci,
            xx == ca * (aa * aa),
            ci == d * (zz * zz),
            l == e * d,
            e == ca + ca + ca,
            (aa * aa) * (zz * zz) == wa4,
    ;
    lemma_absorb(lam, l, wa4, p);
    lemma_cong_sym(lam, l, p);
    lemma_cong_times(l, lam, l, lam, p);
    // twice the ordinate over the double's z is the inverse of z
    let g = (y + y) * d;
    assert(g * wa == wd * a) by (nonlinear_arith)
        requires
            g == (y + y) * d,
            wa == z * a,
            wd == (y * z + y * z) * d,
    ;
    lemma_absorb(g * wa, g, wa, p);
    lemma_absorb(wd * a, a, wd, p);
    lemma_cong_sym(g * wa, g, p);
    lemma_cong_trans(g, g * wa, a, p);
    let gg = g * g;
    let ggg = gg * g;
    lemma_cong_times(g, a, g, a, p);
    lemma_cong_times(gg, aa, g, a, p);
    // the abscissa
    let q = d * d;
    let qd = q * d;
    let xb = x * cb;
    assert(d0 == 2 * xb) by (nonlinear_arith)
        requires
            d0 == t * t - ca - cc,
            t == x + cb,
            ca == x * x,
            cc == cb * cb,
            xb == x * cb,
    ;
    assert((e * e) * q == l * l) by (nonlinear_arith)
        requires
            l == e * d,
            q == d * d,
    ;
    let bq = cb * q;
    assert(gg == 4 * bq) by (nonlinear_arith)
        requires
            g == (y + y) * d,
            gg == g * g,
            cb == y * y,
            q == d * d,
            bq == cb * q,
    ;
    assert(xb * q == x * bq) by (nonlinear_arith)
        requires
            xb == x * cb,
            bq == cb * q,
    ;
    assert(dd * q == x * gg) by (nonlinear_arith)
        requires
            dd == 4 * xb,
            gg == 4 * bq,
            xb * q == x * bq,
    ;
    let ee = e * e;
    assert((ee - (dd + dd)) * q == ee * q - (dd * q + dd * q)) by (nonlinear_arith);
    let exq = ex * q;
    assert(exq == l * l - (x * gg + x * gg));
    lemma_cong_refl(x, p);
    lemma_cong_refl(y, p);
    lemma_cong_times(x, x, gg, aa, p);
    lemma_cong_add(x * gg, xp, x * gg, xp, p);
    lemma_cong_sub(l * l, lam * lam, x * gg + x * gg, xp + xp, p);
    // the ordinate
    let td = dd - ex;
    assert((e * td) * qd == l * (td * q)) by (nonlinear_arith)
        requires
            l == e * d,
            qd == q * d,
    ;
    assert(td * q == x * gg - exq) by (nonlinear_arith)
        requires
            td == dd - ex,
            dd * q == x * gg,
            exq == ex * q,
    ;
    let yd = y * d;
    assert(g == 2 * yd) by (nonlinear_arith)
        requires
            g == (y + y) * d,
            yd == y * d,
    ;
    assert(cc * qd == (y * yd) * (yd * yd)) by (nonlinear_arith)
        requires
            cc == cb * cb,
            cb == y * y,
            qd == q * d,
            q == d * d,
            yd == y * d,
    ;
    assert(y * ggg == 8 * ((y * yd) * (yd * yd))) by (nonlinear_arith)
        requires
            ggg == gg * g,
            gg == g * g,
            g == 2 * yd,
    ;
    let b1 = e * td;
    assert((b1 - c8) * qd == b1 * qd - 8 * (cc * qd)) by (nonlinear_arith)
        requires
            c8 == 8 * cc,
    ;
    assert(ey * qd == l * (x * gg - exq) - y * ggg);
    lemma_cong_times(y, y, ggg, aa * a, p);
    lemma_cong_sub(x * gg, xp, exq, x3, p);
    lemma_cong_times(l, lam, x * gg - exq, xp - x3, p);
    lemma_cong_sub(l * (x * gg - exq), lam * (xp - x3), y * ggg, yp, p);
}

/// The `z` of the double of a point: twice the product of its `y` and `z`.
pub open spec fn g1_double_z(p: G1Value) -> nat {
    fp_add(fp_mul(p.1, p.2), fp_mul(p.1, p.2))
}

/// The double of a point is what the tangent rule gives for its affine form,
/// wherever its `z` and the `z` of its double have inverses.
pub proof fn lemma_g1_dbl_is_tangent(p: G1)
    requires
        p.wf(),
        has_inverse(p@.2, fp_modulus()),
        has_inverse(g1_double_z(p@), fp_modulus()),
    ensures
        !g1_is_zero(g1_dbl(p@)),
        g1_affine(g1_dbl(p@)) == g1_tangent(g1_affine(p@)),
{
    let m = fp_modulus();
    let mi = m as int;
    let x = p@.0;
    let y = p@.1;
    let z = p@.2;
    lemma_small_mod(z, m);
    lemma_inverse_cong(z, m);
    let a = fp_inv(z);
    let yz = fp_mul(y, z);
    let z3 = fp_add(yz, yz);
    assert(z3 == g1_double_z(p@));
    lemma_mod_bound((yz + yz) as int, mi);
    lemma_small_mod(z3, m);
    lemma_inverse_cong(z3, m);
    let d = fp_inv(z3);
    // the Jacobian double
    let ca = fp_mul(x, x);
    let cb = fp_mul(y, y);
    let cc = fp_mul(cb, cb);
    let t = fp_add(x, cb);
    let d0 = fp_sub(fp_sub(fp_mul(t, t), ca), cc);
    let dd = fp_add(d0, d0);
    let e = fp_add(fp_add(ca, ca), ca);
    let f = fp_mul(e, e);
    let bx = fp_sub(f, fp_add(dd, dd));
    let c2 = fp_add(cc, cc);
    let c4 = fp_add(c2, c2);
    let c8 = fp_add(c4, c4);
    let by = fp_sub(fp_mul(e, fp_sub(dd, bx)), c8);
    assert(g1_dbl(p@) == (bx, by, z3));
    let q = fp_mul(d, d);
    let qd = fp_mul(q, d);
    let xa = fp_mul(bx, q);
    let ya = fp_mul(by, qd);
    assert(g1_affine(g1_dbl(p@)) == (xa, ya));
    // the same in the integers
    let ix = x as int;
    let iy = y as int;
    let iz = z as int;
    let ia = a as int;
    let id = d as int;
    let ica = ix * ix;
    let icb = iy * iy;
    let icc = icb * icb;
    let it = ix + icb;
    let id0 = it * it - ica - icc;
    let idd = id0 + id0;
    let ie = ica + ica + ica;
    let iex = ie * ie - (idd + idd);
    let ic2 = icc + icc;
    let ic4 = ic2 + ic2;
    let ic8 = ic4 + ic4;
    let iey = ie * (idd - iex) - ic8;
    let iaa = ia * ia;
    let ixp = ix * iaa;
    let iyp = iy * (iaa * ia);
    let izz = iz * iz;
    let ici = id * (izz * izz);
    let ilam = (3 * (ixp * ixp)) * ici;
    let ix3 = ilam * ilam - (ixp + ixp);
    let iy3 = ilam * (ixp - ix3) - iyp;
    lemma_cong_refl(ix, mi);
    lemma_cong_refl(iy, mi);
    lemma_cong_refl(iz, mi);
    lemma_cong_refl(ia, mi);
    lemma_cong_refl(id, mi);
    lemma_cong_refl(3, mi);
    lemma_mod_ops_cong(x, ix, x, ix, m);
    lemma_mod_ops_cong(y, iy, y, iy, m);
    lemma_mod_ops_cong(cb, icb, cb, icb, m);
    lemma_mod_ops_cong(x, ix, cb, icb, m);
    lemma_mod_ops_cong(t, it, t, it, m);
    lemma_mod_ops_cong(fp_mul(t, t), it * it, ca, ica, m);
    lemma_mod_ops_cong(fp_sub(fp_mul(t, t), ca), it * it - ica, cc, icc, m);
    lemma_mod_ops_cong(d0, id0, d0, id0, m);
    lemma_mod_ops_cong(ca, ica, ca, ica, m);
    lemma_mod_ops_cong(fp_add(ca, ca), ica + ica, ca, ica, m);
    lemma_mod_ops_cong(e, ie, e, ie, m);
    lemma_mod_ops_cong(dd, idd, dd, idd, m);
    lemma_mod_ops_cong(f, ie * ie, fp_add(dd, dd), idd + idd, m);
    lemma_mod_ops_cong(cc, icc, cc, icc, m);
    lemma_mod_ops_cong(c2, ic2, c2, ic2, m);
    lemma_mod_ops_cong(c4, ic4, c4, ic4, m);
    lemma_mod_ops_cong(dd, idd, bx, iex, m);
    lemma_mod_ops_cong(e, ie, fp_sub(dd, bx), idd - iex, m);
    lemma_mod_ops_cong(fp_mul(e, fp_sub(dd, bx)), ie * (idd - iex), c8, ic8, m);
    lemma_mod_ops_cong(d, id, d, id, m);
    lemma_mod_ops_cong(q, id * id, d, id, m);
    lemma_mod_ops_cong(bx, iex, q, id * id, m);
    lemma_mod_ops_cong(by, iey, qd, (id * id) * id, m);
    // the inverses
    lemma_mod_ops_cong(y, iy, z, iz, m);
    lemma_mod_ops_cong(yz, iy * iz, yz, iy * iz, m);
    lemma_mod_ops_cong(z3, iy * iz + iy * iz, d, id, m);
    lemma_cong_rem((z3 * d) as int, mi);
    lemma_cong_sym(fp_mul(z3, d) as int, (z3 * d) as int, mi);
    lemma_cong_sym(fp_mul(z3, d) as int, (iy * iz + iy * iz) * id, mi);
    lemma_cong_trans((iy * iz + iy * iz) * id, fp_mul(z3, d) as int, (z3 * d) as int, mi);
    lemma_cong_trans((iy * iz + iy * iz) * id, (z3 * d) as int, 1, mi);
    lemma_g1_tangent_algebra(ix, iy, iz, ia, id, mi);
    // the affine form and the tangent rule
    let aa = fp_mul(a, a);
    let xp = fp_mul(x, aa);
    let yp = fp_mul(y, fp_mul(aa, a));
    assert(g1_affine(p@) == (xp, yp));
    let zz = fp_mul(z, z);
    let ci = fp_mul(d, fp_mul(zz, zz));
    lemma_mod_ops_cong(a, ia, a, ia, m);
    lemma_mod_ops_cong(aa, iaa, a, ia, m);
    lemma_mod_ops_cong(x, ix, aa, iaa, m);
    lemma_mod_ops_cong(y, iy, fp_mul(aa, a), iaa * ia, m);
    lemma_mod_ops_cong(z, iz, z, iz, m);
    lemma_mod_ops_cong(zz, izz, zz, izz, m);
    lemma_mod_ops_cong(d, id, fp_mul(zz, zz), izz * izz, m);
    let twice = fp_add(yp, yp);
    lemma_mod_ops_cong(yp, iyp, yp, iyp, m);
    lemma_cong_times(twice as int, iyp + iyp, ci as int, ici, mi);
    lemma_cong_trans((twice as int) * (ci as int), (iyp + iyp) * ici, 1, mi);
    lemma_cong_one((twice as int) * (ci as int), mi);
    lemma_mod_bound((d * fp_mul(zz, zz)) as int, mi);
    assert(is_inverse(twice, ci, m));
    lemma_mod_inv_eq(twice, ci, m);
    lemma_small_mod(3, m);
    let lam = fp_mul(fp_mul(3, fp_mul(xp, xp)), ci);
    let x3 = fp_sub(fp_mul(lam, lam), fp_add(xp, xp));
    let y3 = fp_sub(fp_mul(lam, fp_sub(xp, x3)), yp);
    assert(g1_tangent((xp, yp)) == (x3, y3));
    lemma_mod_ops_cong(xp, ixp, xp, ixp, m);
    lemma_mod_ops_cong(3, 3, fp_mul(xp, xp), ixp * ixp, m);
    lemma_mod_ops_cong(fp_mul(3, fp_mul(xp, xp)), 3 * (ixp * ixp), ci, ici, m);
    lemma_mod_ops_cong(lam, ilam, lam, ilam, m);
    lemma_mod_ops_cong(fp_mul(lam, lam), ilam * ilam, fp_add(xp, xp), ixp + ixp, m);
    lemma_mod_ops_cong(xp, ixp, x3, ix3, m);
    lemma_mod_ops_cong(lam, ilam, fp_sub(xp, x3), ixp - ix3, m);
    lemma_mod_ops_cong(fp_mul(lam, fp_sub(xp, x3)), ilam * (ixp - ix3), yp, iyp, m);
    // both sides are congruent, and fully reduced
    lemma_cong_trans(xa as int, iex * (id * id), ix3, mi);
    lemma_cong_sym(x3 as int, ix3, mi);
    lemma_cong_trans(xa as int, ix3, x3 as int, mi);
    lemma_cong_trans(ya as int, iey * ((id * id) * id), iy3, mi);
    lemma_cong_sym(y3 as int, iy3, mi);
    lemma_cong_trans(ya as int, iy3, y3 as int, mi);
    lemma_mod_bound((bx * q) as int, mi);
    lemma_mod_bound((by * qd) as int, mi);
    lemma_mod_bound(fp_mul(lam, lam) as int - fp_add(xp, xp) as int, mi);
    lemma_mod_bound(fp_mul(lam, fp_sub(xp, x3)) as int - yp as int, mi);
    lemma_cong_eq(xa as int, x3 as int, mi);
    lemma_cong_eq(ya as int, y3 as int, mi);
}

/// What the flag bits of the last byte of an encoding do to a byte that
/// leaves them free.
proof fn lemma_g1_flag_bits(t: u8)
    requires
        t < 0x20,
    ensures
        t & 0x40 == 0,
        t & 0x80 == 0,
        t & 0x3f == t,
        (t | 0x80) & 0x40 == 0,
        (t | 0x80) & 0x80 != 0,
        (t | 0x80) & 0x3f == t,
        0x40u8 & 0x40 != 0,
{
    assert(t & 0x40 == 0 && t & 0x80 == 0 && t & 0x3f == t && (t | 0x80) & 0x40 == 0 && (t | 0x80)
        & 0x80 != 0 && (t | 0x80) & 0x3f == t) by (bit_vector)
        requires
            t < 0x20,
    ;
    assert(0x40u8 & 0x40 != 0) by (bit_vector);
}

/// The flags and the abscissa in the bytes of a point in affine form.
proof fn lemma_g1_encoding_parts(p: G1Value)
    requires
        p.0 < fp_modulus(),
        p.1 < fp_modulus(),
        p.2 < fp_modulus(),
        p.2 == 1,
    ensures
        ({
            let b = g1_encode(p);
            &&& b.len() == 48
            &&& b[47] & 0x40 == 0
            &&& (b[47] & 0x80 != 0) == fp_sign(p.1)
            &&& b.update(47, b[47] & 0x3f) == fp_encode(p.0)
        }),
{
    lemma_g1_normalize_affine(p);
    let e = fp_encode(p.0);
    crate::fp::lemma_fp_top_byte(p.0);
    lemma_g1_flag_bits(e[47]);
    let b = g1_encode(p);
    assert(b.update(47, b[47] & 0x3f) =~= e);
}

/// Where the order is prime, the ordinate that is picked by its sign among
/// the square roots of the right side of the curve equation is the ordinate
/// of the point.
proof fn lemma_g1_ordinate(x: nat, y: nat)
    requires
        x < fp_modulus(),
        y < fp_modulus(),
        is_prime(fp_modulus()),
        fp_mul(y, y) == g1_rhs(x),
    ensures
        fp_sqrt(g1_rhs(x)) is Some,
        ({
            let y0 = fp_sqrt(g1_rhs(x))->0;
            let picked = if fp_sign(y0) == fp_sign(y) {
                y0
            } else {
                fp_neg(y0)
            };
            picked == y
        }),
{
    let m = fp_modulus();
    lemma_mod_bound((fp_mul(fp_mul(x, x), x) + 4) as int, m as int);
    crate::fp::lemma_fp_sqrt_of_square(g1_rhs(x), y);
    crate::fp::lemma_fp_lesser_root_of_negative(y);
    let y0 = crate::modmath::lesser_root(y, m);
    if y0 != y {
        assert(y != 0);
        assert(y0 == m - y);
        crate::fp::lemma_fp_lesser_root_of_negative(y0);
    }
}

/// The curve equation of a point in affine form.
proof fn lemma_g1_affine_equation(p: G1Value)
    requires
        p.0 < fp_modulus(),
        p.1 < fp_modulus(),
        p.2 < fp_modulus(),
        p.2 == 1,
        g1_on_curve(p),
    ensures
        fp_mul(p.1, p.1) == g1_rhs(p.0),
{
    let m = fp_modulus();
    lemma_small_mod(1, m);
    lemma_small_mod(4, m);
    assert(1 * 1 == 1 && 4 * 1 == 4);
}

/// Where the order of the base field is prime, decoding the bytes of a point
/// of the group gives the coordinates back, where they are the canonical
/// identity or have `z` at one.
pub proof fn lemma_g1_serialize_roundtrip_affine(p: G1Value)
    requires
        p.0 < fp_modulus(),
        p.1 < fp_modulus(),
        p.2 < fp_modulus(),
        g1_valid(p),
        p == g1_zero() || p.2 == 1,
        is_prime(fp_modulus()),
    ensures
        g1_decode(g1_encode(p)) == Some(p),
{
    reveal(g1_valid);
    if g1_is_zero(p) {
        lemma_g1_flag_bits(0);
        assert(g1_zero_encoding()[47] == 0x40u8);
    } else {
        let x = p.0;
        let y = p.1;
        lemma_g1_encoding_parts(p);
        crate::fp::lemma_fp_decode_encode(p.0);
        lemma_g1_affine_equation(p);
        lemma_g1_ordinate(x, y);
        let b = g1_encode(p);
        assert(fp_decode(b.update(47, b[47] & 0x3f)) == Some(x));
        assert(p == (x, y, 1nat));
    }
}

/// The identity is neutral: added to a point on either side, it gives the
/// point.
pub proof fn lemma_g1_add_identity(p: G1)
    requires
        p.wf(),
    ensures
        g1_add(g1_zero(), p@) == p@,
        g1_add(p@, g1_zero()) == p@ || g1_is_zero(p@),
        g1_is_zero(p@) ==> g1_is_zero(g1_add(p@, g1_zero())),
{
}

/// Doubling is adding a point to itself.
pub proof fn lemma_g1_dbl_is_add(p: G1)
    requires
        p.wf(),
    ensures
        g1_add(p@, p@) == g1_dbl(p@),
{
    crate::modmath::lemma_sub_self(
        crate::fp::fp_mul(p@.0, crate::fp::fp_mul(p@.2, p@.2)),
        crate::fp::fp_modulus(),
    );
    crate::modmath::lemma_sub_self(
        crate::fp::fp_mul(crate::fp::fp_mul(p@.1, p@.2), crate::fp::fp_mul(p@.2, p@.2)),
        crate::fp::fp_modulus(),
    );
}

/// The multiple by one is the point; the multiple by two is the double, and
/// is the multiple by one plus the point.
pub proof fn lemma_g1_mul_two(p: G1)
    requires
        p.wf(),
    ensures
        g1_mul(p@, 1) == p@,
        g1_mul(p@, 2) == g1_dbl(p@),
        g1_mul(p@, 2) == g1_add(g1_mul(p@, 1), p@),
{
    reveal_with_fuel(g1_mul, 3);
    lemma_g1_dbl_is_add(p);
}

/// For an odd `n`, the multiple by `n` is the multiple by `n - 1` plus the
/// point.
pub proof fn lemma_g1_mul_odd(p: G1, n: nat)
    requires
        p.wf(),
        n % 2 == 1,
    ensures
        g1_mul(p@, n) == g1_add(g1_mul(p@, (n - 1) as nat), p@),
{
    if n == 1 {
        reveal_with_fuel(g1_mul, 2);
    } else {
        assert(((n - 1) as nat) / 2 == n / 2);
    }
}

/// The multiple by three is the multiple by two plus the point.
pub proof fn lemma_g1_mul_three(p: G1)
    requires
        p.wf(),
    ensures
        g1_mul(p@, 3) == g1_add(g1_mul(p@, 2), p@),
{
    lemma_g1_mul_odd(p, 3);
}

/// A point with `z` at one is its own affine form.
pub proof fn lemma_g1_normalize_affine(p: G1Value)
    requires
        p.0 < fp_modulus(),
        p.1 < fp_modulus(),
        p.2 < fp_modulus(),
        p.2 == 1nat,
    ensures
        g1_normalize(p) == p,
{
    let m = crate::fp::fp_modulus();
    crate::modmath::lemma_mod_inv_eq(1, 1, m);
    vstd::arithmetic::div_mod::lemma_small_mod(p.0, m);
        vstd::arithmetic::div_mod::lemma_small_mod(p.1, m);
        vstd::arithmetic::div_mod::lemma_small_mod(1, m);
        assert(p.0 * 1 == p.0 && p.1 * 1 == p.1);
}

/// The words of the text of a point that is not the identity: the word `1`
/// and the texts of the coefficients of its affine form.
proof fn lemma_g1_format_words(n: G1Value, b: nat)
    ensures
        words(seq!['1', ' '] + fp_format_list(g1_coeffs(n), b)) == seq![seq!['1']] + words(
            fp_format_list(g1_coeffs(n), b),
        ),
{
    let body = fp_format_list(g1_coeffs(n), b);
    lemma_words_join(seq!['1'], body);
    assert(seq!['1', ' '] + body =~= seq!['1'] + seq![' '] + body);
}

/// Parsing the text of a point of the group gives the coordinates back, in
/// base 10 and 16, where they are the canonical identity or have `z` at one.
pub proof fn lemma_g1_text_roundtrip_affine(p: G1Value, base: int)
    requires
        p.0 < fp_modulus(),
        p.1 < fp_modulus(),
        p.2 < fp_modulus(),
        g1_valid(p),
        p == g1_zero() || p.2 == 1nat,
        base == 10 || base == 16,
    ensures
        g1_parse(g1_format(p, base as nat), base) == Some(p),
{
    if g1_is_zero(p) {
        lemma_words_single(seq!['0']);
    } else {
        lemma_g1_normalize_affine(p);
        let c = g1_coeffs(p);
        let body = fp_format_list(c, base as nat);
        lemma_fp_list_roundtrip(c, base);
        lemma_g1_format_words(p, base as nat);
        let w = words(g1_format(p, base as nat));
        assert(w == seq![seq!['1']] + words(body));
        assert(w.len() == 3) by {
            crate::fp::lemma_fp_format_list_words(c, base as nat);
        }
        assert(w[0] == seq!['1']);
        assert(w.skip(1) =~= words(body));
        assert(g1_from_coeffs(c) == p);
    }
}

/// The sum over vectors: nothing adds up to the identity, and one more pair
/// adds its product.
pub proof fn lemma_g1_sum_unfold(points: Seq<G1>, scalars: Seq<Fr>, n: nat)
    ensures
        g1_sum(points, scalars, 0) == g1_zero(),
        n > 0 ==> g1_sum(points, scalars, n) == g1_add(
            g1_sum(points, scalars, (n - 1) as nat),
            g1_mul(points[n - 1]@, scalars[n - 1]@),
        ),
{
}

impl G1 {
    /// The element with the value `v`.
    pub open spec fn with_value(v: G1Value) -> G1 {
        choose|r: G1| r@ == v
    }
}

impl<'a> core::ops::Add for &'a G1 {
    type Output = G1;

    fn add(self, other: &G1) -> (r: G1) {
        let r = self.plus(other);
        proof {
            G1::lemma_view_injective(r, G1::with_value(g1_add(self@, other@)));
        }
        r
    }
}

impl<'a> vstd::std_specs::ops::AddSpecImpl for &'a G1 {
    open spec fn obeys_add_spec() -> bool {
        true
    }

    open spec fn add_req(self, other: &'a G1) -> bool {
        self.wf() && other.wf()
    }

    open spec fn add_spec(self, other: &'a G1) -> G1 {
        G1::with_value(g1_add(self@, other@))
    }
}

impl<'a> core::ops::AddAssign<&'a G1> for G1 {
    /// Where an operand is not fully reduced, `self` is left as it was.
    fn add_assign(&mut self, other: &G1)
        ensures
            old(self).wf() && other.wf() ==> final(self).wf(),
            old(self).wf() && other.wf() ==> final(self)@ == g1_add(old(self)@, other@),
            !(old(self).wf() && other.wf()) ==> *final(self) == *old(self),
    {
        if self.is_reduced() && other.is_reduced() {
            let r = self.plus(other);
            *self = r;
        }
    }
}

impl<'a> core::ops::Sub for &'a G1 {
    type Output = G1;

    fn sub(self, other: &G1) -> (r: G1) {
        let r = self.plus(&other.negated());
        proof {
            G1::lemma_view_injective(r, G1::with_value(g1_sub(self@, other@)));
        }
        r
    }
}

impl<'a> vstd::std_specs::ops::SubSpecImpl for &'a G1 {
    open spec fn obeys_sub_spec() -> bool {
        true
    }

    open spec fn sub_req(self, other: &'a G1) -> bool {
        self.wf() && other.wf()
    }

    open spec fn sub_spec(self, other: &'a G1) -> G1 {
        G1::with_value(g1_sub(self@, other@))
    }
}

impl<'a> core::ops::SubAssign<&'a G1> for G1 {
    /// Where an operand is not fully reduced, `self` is left as it was.
    fn sub_assign(&mut self, other: &G1)
        ensures
            old(self).wf() && other.wf() ==> final(self).wf(),
            old(self).wf() && other.wf() ==> final(self)@ == g1_sub(old(self)@, other@),
            !(old(self).wf() && other.wf()) ==> *final(self) == *old(self),
    {
        if self.is_reduced() && other.is_reduced() {
            let r = self.plus(&other.negated());
            *self = r;
        }
    }
}

} // verus!
