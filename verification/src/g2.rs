//! The group G2: the points of order `r` of the curve `y^2 = x^3 + 4 * (1 + u)` over
//! the quadratic extension of the base field.

use crate::fp::{fp_format_list, fp_modulus, fp_parse_list, fp_values, lemma_fp_list_roundtrip, Fp};
use crate::fp2::{
    fp2_add, fp2_decode, fp2_encode, fp2_hash_point, fp2_inv, fp2_mul, fp2_neg, fp2_next, fp2_sign,
    fp2_sqrt, fp2_sub, F2, Fp2,
};
use crate::fr::{fr_modulus, fr_params, Fr};
use crate::limbs::{base, limbs_val, prefix_val, radix};
use crate::modmath::is_prime;
use crate::text::{
    is_single_char, lemma_words_join, lemma_words_single, split_words, views_of, words,
};
use vstd::arithmetic::div_mod::lemma_small_mod;
use vstd::arithmetic::power2::{lemma2_to64, lemma_pow2_unfold, pow2};
use vstd::prelude::*;
use vstd::std_specs::cmp::PartialEqSpecImpl;
use vstd::string::StringExecFns;

verus! {

/// The values of the three coordinates of a point.
pub type G2Value = (F2, F2, F2);

/// The constant `b` of the curve equation `y^2 = x^3 + b`.
pub open spec fn g2_b() -> F2 {
    (4nat, 4nat)
}

/// The canonical value of the identity.
pub open spec fn g2_zero() -> G2Value {
    ((0nat, 0nat), (0nat, 0nat), (0nat, 0nat))
}

/// Whether the coordinates stand for the identity: `z` is zero.
pub open spec fn g2_is_zero(p: G2Value) -> bool {
    p.2 == (0nat, 0nat)
}

/// The double of a point, by the tangent rule in Jacobian coordinates.
pub open spec fn g2_dbl(p: G2Value) -> G2Value {
    if g2_is_zero(p) {
        p
    } else {
        let a = fp2_mul(p.0, p.0);
        let b = fp2_mul(p.1, p.1);
        let c = fp2_mul(b, b);
        let t = fp2_add(p.0, b);
        let d0 = fp2_sub(fp2_sub(fp2_mul(t, t), a), c);
        let d = fp2_add(d0, d0);
        let e = fp2_add(fp2_add(a, a), a);
        let f = fp2_mul(e, e);
        let x3 = fp2_sub(f, fp2_add(d, d));
        let c2 = fp2_add(c, c);
        let c4 = fp2_add(c2, c2);
        let c8 = fp2_add(c4, c4);
        let y3 = fp2_sub(fp2_mul(e, fp2_sub(d, x3)), c8);
        let yz = fp2_mul(p.1, p.2);
        (x3, y3, fp2_add(yz, yz))
    }
}

/// The sum of two points, by the chord rule in Jacobian coordinates: the
/// other point where one is the identity, the double where both stand for one
/// point, the identity where they stand for opposite points.
pub open spec fn g2_add(p: G2Value, q: G2Value) -> G2Value {
    if g2_is_zero(p) {
        q
    } else if g2_is_zero(q) {
        p
    } else {
        let z1z1 = fp2_mul(p.2, p.2);
        let z2z2 = fp2_mul(q.2, q.2);
        let u1 = fp2_mul(p.0, z2z2);
        let u2 = fp2_mul(q.0, z1z1);
        let s1 = fp2_mul(fp2_mul(p.1, q.2), z2z2);
        let s2 = fp2_mul(fp2_mul(q.1, p.2), z1z1);
        let h = fp2_sub(u2, u1);
        let r = fp2_sub(s2, s1);
        if h == (0nat, 0nat) {
            if r == (0nat, 0nat) {
                g2_dbl(p)
            } else {
                g2_zero()
            }
        } else {
            let hh = fp2_mul(h, h);
            let hhh = fp2_mul(h, hh);
            let v = fp2_mul(u1, hh);
            let x3 = fp2_sub(fp2_sub(fp2_mul(r, r), hhh), fp2_add(v, v));
            let y3 = fp2_sub(fp2_mul(r, fp2_sub(v, x3)), fp2_mul(s1, hhh));
            (x3, y3, fp2_mul(fp2_mul(p.2, q.2), h))
        }
    }
}

/// The opposite point.
pub open spec fn g2_neg(p: G2Value) -> G2Value {
    (p.0, fp2_neg(p.1), p.2)
}

/// The difference: the sum with the opposite point.
pub open spec fn g2_sub(p: G2Value, q: G2Value) -> G2Value {
    g2_add(p, g2_neg(q))
}

/// The multiple `n * p`, by doubling and adding over the bits of `n` from
/// the top.
pub open spec fn g2_mul(p: G2Value, n: nat) -> G2Value
    decreases n,
{
    if n == 0 {
        g2_zero()
    } else {
        let d = g2_dbl(g2_mul(p, n / 2));
        if n % 2 == 1 {
            g2_add(d, p)
        } else {
            d
        }
    }
}

/// Whether two triples of coordinates stand for one point.
pub open spec fn g2_same(p: G2Value, q: G2Value) -> bool {
    if g2_is_zero(p) || g2_is_zero(q) {
        g2_is_zero(p) && g2_is_zero(q)
    } else {
        let z1z1 = fp2_mul(p.2, p.2);
        let z2z2 = fp2_mul(q.2, q.2);
        fp2_mul(p.0, z2z2) == fp2_mul(q.0, z1z1) && fp2_mul(fp2_mul(p.1, q.2), z2z2) == fp2_mul(
            fp2_mul(q.1, p.2),
            z1z1,
        )
    }
}

/// The point with `z` brought to one: its affine coordinates.
pub open spec fn g2_normalize(p: G2Value) -> G2Value {
    if g2_is_zero(p) {
        g2_zero()
    } else {
        let zi = fp2_inv(p.2);
        let zi2 = fp2_mul(zi, zi);
        (fp2_mul(p.0, zi2), fp2_mul(p.1, fp2_mul(zi2, zi)), (1nat, 0nat))
    }
}

/// Whether the coordinates satisfy the curve equation, which in Jacobian
/// coordinates reads `y^2 = x^3 + b * z^6`.
pub open spec fn g2_on_curve(p: G2Value) -> bool {
    if g2_is_zero(p) {
        true
    } else {
        let z2 = fp2_mul(p.2, p.2);
        let z6 = fp2_mul(fp2_mul(z2, z2), z2);
        fp2_mul(p.1, p.1) == fp2_add(fp2_mul(fp2_mul(p.0, p.0), p.0), fp2_mul(g2_b(), z6))
    }
}

/// Whether the point belongs to the group: it is on the curve, and its
/// multiple by the group order is the identity.
#[verifier::opaque]
pub open spec fn g2_valid(p: G2Value) -> bool {
    g2_on_curve(p) && g2_is_zero(g2_mul(p, fr_modulus()))
}

/// The sum of the first `n` products `scalars[i] * points[i]`, added up from
/// the identity in the order of the index.
pub open spec fn g2_sum(points: Seq<G2>, scalars: Seq<Fr>, n: nat) -> G2Value
    decreases n,
{
    if n == 0 {
        g2_zero()
    } else {
        g2_add(
            g2_sum(points, scalars, (n - 1) as nat),
            g2_mul(points[n - 1]@, scalars[n - 1]@),
        )
    }
}

/// The right side of the curve equation at the abscissa `x`: `x^3 + b`.
pub open spec fn g2_rhs(x: F2) -> F2 {
    fp2_add(fp2_mul(fp2_mul(x, x), x), g2_b())
}

/// The cofactor of the curve: the number of its points over the group order.
/// The multiple by it of any point of the curve is in the group.
pub open spec fn g2_cofactor() -> nat {
    0x5d543a95414e7f1091d50792876a202cd91de4547085abaa68a205b2e5a7ddfa628f1cb4d9e82ef21537e293a6691ae1616ec6e786f0c70cf1c38e31c7238e5nat
}

/// The bytes of the identity: zero bytes, with the flag of the identity set
/// in the last.
pub open spec fn g2_zero_encoding() -> Seq<u8> {
    Seq::new(96, |i: int| 0u8).update(95, 0x40u8)
}

/// The bytes of a point: those of its affine abscissa, with the sign of its
/// ordinate in the top bit of the last byte; the identity has its own bytes.
pub open spec fn g2_encode(p: G2Value) -> Seq<u8> {
    if g2_is_zero(p) {
        g2_zero_encoding()
    } else {
        let n = g2_normalize(p);
        let b = fp2_encode(n.0);
        if fp2_sign(n.1) {
            b.update(95, b[95] | 0x80u8)
        } else {
            b
        }
    }
}

/// The point that a byte string stands for: the bytes of the identity stand
/// for the identity; else the bytes, their two flag bits cleared, are an
/// abscissa at which the curve has a point, the flag picks the ordinate by
/// its sign, and the point is of the group.
pub open spec fn g2_decode(b: Seq<u8>) -> Option<G2Value> {
    if b.len() != 96 {
        None
    } else if b[95] & 0x40u8 != 0 {
        if b == g2_zero_encoding() {
            Some(g2_zero())
        } else {
            None
        }
    } else {
        let sign = b[95] & 0x80u8 != 0;
        match fp2_decode(b.update(95, b[95] & 0x3fu8)) {
            None => None,
            Some(x) => match fp2_sqrt(g2_rhs(x)) {
                None => None,
                Some(y0) => {
                    let y = if fp2_sign(y0) == sign {
                        y0
                    } else {
                        fp2_neg(y0)
                    };
                    let p = (x, y, (1nat, 0nat));
                    if fp2_sign(y) == sign && g2_is_zero(g2_mul(p, fr_modulus())) {
                        Some(p)
                    } else {
                        None
                    }
                },
            },
        }
    }
}

/// The search for the point that a message hashes to: from the abscissa `x`
/// on, the first abscissa among `tries` at which the curve has a point whose
/// multiple by the cofactor is not the identity; that multiple is the result.
pub open spec fn g2_search(x: F2, tries: nat) -> Option<G2Value>
    decreases tries,
{
    if tries == 0 {
        None
    } else {
        match fp2_sqrt(g2_rhs(x)) {
            Some(y) => {
                let p = g2_mul((x, y, (1nat, 0nat)), g2_cofactor());
                if g2_is_zero(p) {
                    g2_search(fp2_next(x), (tries - 1) as nat)
                } else {
                    Some(p)
                }
            },
            None => g2_search(fp2_next(x), (tries - 1) as nat),
        }
    }
}

/// The point that a message hashes to, where the search finds one among 256
/// abscissas.
pub open spec fn g2_hash(msg: Seq<u8>) -> Option<G2Value> {
    g2_search(fp2_hash_point(msg), 256)
}

/// The coefficients over the base field of a point's affine coordinates, in
/// the order of their words.
pub open spec fn g2_coeffs(n: G2Value) -> Seq<nat> {
    seq![n.0.0, n.0.1, n.1.0, n.1.1]
}

/// The point with `z` at one whose affine coordinates have the given
/// coefficients.
pub open spec fn g2_from_coeffs(c: Seq<nat>) -> G2Value {
    ((c[0], c[1]), (c[2], c[3]), (1nat, 0nat))
}

/// The text of a point: `0` for the identity; else `1` and the coefficients
/// of the affine coordinates, with spaces between.
pub open spec fn g2_format(p: G2Value, b: nat) -> Seq<char> {
    if g2_is_zero(p) {
        seq!['0']
    } else {
        seq!['1', ' '] + fp_format_list(g2_coeffs(g2_normalize(p)), b)
    }
}

/// The point that a text stands for in base 10 or 16: the word `0` stands for
/// the identity; else the word `1` and the coefficients of the affine
/// coordinates of a point of the group.
pub open spec fn g2_parse(s: Seq<char>, b: int) -> Option<G2Value> {
    let w = words(s);
    if w.len() == 1 && w[0] == seq!['0'] {
        Some(g2_zero())
    } else if w.len() == 5 && w[0] == seq!['1'] {
        match fp_parse_list(w.skip(1), b) {
            Some(c) => {
                let p = g2_from_coeffs(c);
                if g2_valid(p) {
                    Some(p)
                } else {
                    None
                }
            },
            None => None,
        }
    } else {
        None
    }
}

/// A point of G2 in Jacobian coordinates: `(x, y, z)` stands for the affine
/// point `(x / z^2, y / z^3)`, and for the identity where `z` is zero.
#[derive(Clone, Copy, Debug)]
pub struct G2 {
    pub x: Fp2,
    pub y: Fp2,
    pub z: Fp2,
}

impl View for G2 {
    type V = G2Value;

    /// The values of the three coordinates.
    open spec fn view(&self) -> G2Value {
        (self.x@, self.y@, self.z@)
    }
}

impl PartialEq for G2 {
    /// Points are equal where their coordinates stand for one point.
    fn eq(&self, rhs: &Self) -> (r: bool) {
        if self.z.is_zero() || rhs.z.is_zero() {
            return self.z.is_zero() && rhs.z.is_zero();
        }
        if !self.is_reduced() || !rhs.is_reduced() {
            proof {
                if self@ == rhs@ {
                    Fp2::lemma_view_injective(self.x, rhs.x);
                    Fp2::lemma_view_injective(self.y, rhs.y);
                    Fp2::lemma_view_injective(self.z, rhs.z);
                }
            }
            return self.x == rhs.x && self.y == rhs.y && self.z == rhs.z;
        }
        let z1z1 = self.z.squared();
        let z2z2 = rhs.z.squared();
        let u1 = self.x.times(&z2z2);
        let u2 = rhs.x.times(&z1z1);
        let s1 = self.y.times(&rhs.z).times(&z2z2);
        let s2 = rhs.y.times(&self.z).times(&z1z1);
        u1 == u2 && s1 == s2
    }
}

impl PartialEqSpecImpl for G2 {
    open spec fn obeys_eq_spec() -> bool {
        true
    }

    open spec fn eq_spec(&self, rhs: &Self) -> bool {
        if self.wf() && rhs.wf() {
            g2_same(self@, rhs@)
        } else if g2_is_zero(self@) || g2_is_zero(rhs@) {
            g2_is_zero(self@) && g2_is_zero(rhs@)
        } else {
            self@ == rhs@
        }
    }
}

impl Default for G2 {
    fn default() -> (r: G2)
        ensures
            r@ == g2_zero(),
            r.wf(),
    {
        G2::zero()
    }
}

impl G2 {
    /// The three coordinates are fully reduced.
    pub open spec fn wf(&self) -> bool {
        self.x.wf() && self.y.wf() && self.z.wf()
    }

    /// Points with the same coordinates are one triple.
    pub proof fn lemma_view_injective(x: G2, y: G2)
        requires
            x@ == y@,
        ensures
            x == y,
    {
        Fp2::lemma_view_injective(x.x, y.x);
        Fp2::lemma_view_injective(x.y, y.y);
        Fp2::lemma_view_injective(x.z, y.z);
    }

    /// Whether the three coordinates are fully reduced.
    pub fn is_reduced(&self) -> (r: bool)
        ensures
            r == self.wf(),
    {
        self.x.is_valid() && self.y.is_valid() && self.z.is_valid()
    }

    /// The identity.
    pub fn zero() -> (r: G2)
        ensures
            r@ == g2_zero(),
            r.wf(),
    {
        G2 { x: Fp2::zero(), y: Fp2::zero(), z: Fp2::zero() }
    }

    /// A placeholder for a value that is about to be overwritten: the
    /// identity.
    pub fn uninit() -> (r: G2)
        ensures
            r@ == g2_zero(),
            r.wf(),
    {
        G2::zero()
    }

    /// Sets the point to the identity.
    pub fn clear(&mut self)
        ensures
            final(self)@ == g2_zero(),
            final(self).wf(),
    {
        *self = G2::zero();
    }

    /// Whether the point is the identity.
    pub fn is_zero(&self) -> (r: bool)
        ensures
            r == g2_is_zero(self@),
    {
        self.z.is_zero()
    }

    /// The constant `b` of the curve equation.
    pub fn curve_b() -> (r: Fp2)
        ensures
            r.wf(),
            r@ == g2_b(),
    {
        Fp2::new(Fp::from_int(4), Fp::from_int(4))
    }

    /// Whether the point satisfies the curve equation.
    pub fn is_on_curve(&self) -> (r: bool)
        requires
            self.wf(),
        ensures
            r == g2_on_curve(self@),
    {
        if self.z.is_zero() {
            return true;
        }
        let z2 = self.z.squared();
        let z6 = z2.times(&z2).times(&z2);
        let lhs = self.y.squared();
        let rhs = self.x.squared().times(&self.x).plus(&G2::curve_b().times(&z6));
        lhs == rhs
    }

    /// Whether the point belongs to the group: its coordinates are fully
    /// reduced, it is on the curve, and the group order takes it to the
    /// identity.
    pub fn is_valid(&self) -> (r: bool)
        ensures
            r == (self.wf() && g2_valid(self@)),
    {
        proof {
            reveal(g2_valid);
        }
        if !self.is_reduced() {
            return false;
        }
        if !self.is_on_curve() {
            return false;
        }
        let m = fr_params();
        let t = G2::mul_by_limbs(self, &m.p);
        t.is_zero()
    }

    /// `2 * self`.
    pub fn doubled(&self) -> (r: G2)
        requires
            self.wf(),
        ensures
            r.wf(),
            r@ == g2_dbl(self@),
    {
        if self.z.is_zero() {
            return *self;
        }
        let a = self.x.squared();
        let b = self.y.squared();
        let c = b.squared();
        let t = self.x.plus(&b);
        let d0 = t.squared().minus(&a).minus(&c);
        let d = d0.plus(&d0);
        let e = a.plus(&a).plus(&a);
        let f = e.squared();
        let x3 = f.minus(&d.plus(&d));
        let c2 = c.plus(&c);
        let c4 = c2.plus(&c2);
        let c8 = c4.plus(&c4);
        let y3 = e.times(&d.minus(&x3)).minus(&c8);
        let yz = self.y.times(&self.z);
        G2 { x: x3, y: y3, z: yz.plus(&yz) }
    }

    /// `self + q`.
    pub fn plus(&self, q: &G2) -> (r: G2)
        requires
            self.wf(),
            q.wf(),
        ensures
            r.wf(),
            r@ == g2_add(self@, q@),
    {
        if self.z.is_zero() {
            return *q;
        }
        if q.z.is_zero() {
            return *self;
        }
        let z1z1 = self.z.squared();
        let z2z2 = q.z.squared();
        let u1 = self.x.times(&z2z2);
        let u2 = q.x.times(&z1z1);
        let s1 = self.y.times(&q.z).times(&z2z2);
        let s2 = q.y.times(&self.z).times(&z1z1);
        let h = u2.minus(&u1);
        let r = s2.minus(&s1);
        if h.is_zero() {
            if r.is_zero() {
                return self.doubled();
            }
            return G2::zero();
        }
        let hh = h.squared();
        let hhh = h.times(&hh);
        let v = u1.times(&hh);
        let x3 = r.squared().minus(&hhh).minus(&v.plus(&v));
        let y3 = r.times(&v.minus(&x3)).minus(&s1.times(&hhh));
        let z3 = self.z.times(&q.z).times(&h);
        G2 { x: x3, y: y3, z: z3 }
    }

    /// `-self`.
    pub fn negated(&self) -> (r: G2)
        requires
            self.wf(),
        ensures
            r.wf(),
            r@ == g2_neg(self@),
    {
        G2 { x: self.x, y: self.y.negated(), z: self.z }
    }

    /// `n * self` for a multi-limb number `n`. Every bit of `n` costs one
    /// doubling and one addition, whatever the bit is.
    pub fn mul_by_limbs<const M: usize>(p: &G2, n: &[u64; M]) -> (r: G2)
        requires
            p.wf(),
        ensures
            r.wf(),
            r@ == g2_mul(p@, limbs_val(n@)),
    {
        let mut acc = G2::zero();
        let mut k: usize = M;
        let ghost mut done: nat = 0;
        proof {
            assert(0 * radix(M as nat) == 0);
        }
        while k > 0
            invariant
                k <= M,
                p.wf(),
                acc.wf(),
                acc@ == g2_mul(p@, done),
                done * radix(k as nat) + prefix_val(n@, k as nat) == limbs_val(n@),
            decreases k,
        {
            let w: u64 = n[k - 1];
            let mut rem: u64 = w;
            let mut t: u64 = 0x8000_0000_0000_0000;
            let mut s: u32 = 64;
            let ghost d0 = done;
            proof {
                lemma2_to64();
                lemma_pow2_unfold(64);
            }
            while s > 0
                invariant
                    s <= 64,
                    p.wf(),
                    acc.wf(),
                    acc@ == g2_mul(p@, done),
                    s >= 1 ==> t == pow2((s - 1) as nat),
                    rem < pow2(s as nat),
                    done * pow2(s as nat) + rem == d0 * base() + w,
                decreases s,
            {
                let bit = rem >= t;
                let dbl = acc.doubled();
                let sum = dbl.plus(p);
                proof {
                    lemma_pow2_unfold(s as nat);
                    let b: nat = if bit {
                        1
                    } else {
                        0
                    };
                    let nd = 2 * done + b;
                    assert(nd / 2 == done && nd % 2 == b);
                    assert((2 * done + b) * pow2((s - 1) as nat) == done * (2 * pow2(
                        (s - 1) as nat,
                    )) + b * pow2((s - 1) as nat)) by (nonlinear_arith);
                    if s >= 2 {
                        lemma_pow2_unfold((s - 1) as nat);
                    }
                    done = nd;
                }
                if bit {
                    acc = sum;
                    rem = rem - t;
                } else {
                    acc = dbl;
                }
                t = t / 2;
                s = s - 1;
            }
            proof {
                lemma2_to64();
                assert(done * pow2(0) == done) by (nonlinear_arith)
                    requires
                        pow2(0) == 1,
                ;
                assert(done == d0 * base() + w);
                assert(radix(k as nat) == base() * radix((k - 1) as nat));
                assert(done * radix((k - 1) as nat) == d0 * (base() * radix((k - 1) as nat)) + w
                    * radix((k - 1) as nat)) by (nonlinear_arith)
                    requires
                        done == d0 * base() + w,
                ;
                assert(prefix_val(n@, k as nat) == prefix_val(n@, (k - 1) as nat) + (n[k
                    - 1] as nat) * radix((k - 1) as nat));
            }
            k = k - 1;
        }
        proof {
            assert(done * radix(0) == done) by (nonlinear_arith)
                requires
                    radix(0) == 1,
            ;
        }
        acc
    }

    /// The point with `z` brought to one.
    pub fn normalized(&self) -> (r: G2)
        requires
            self.wf(),
        ensures
            r.wf(),
            r@ == g2_normalize(self@),
    {
        if self.z.is_zero() {
            return G2::zero();
        }
        let zi = self.z.inverse();
        let zi2 = zi.squared();
        G2 { x: self.x.times(&zi2), y: self.y.times(&zi2.times(&zi)), z: Fp2::one() }
    }

    /// `z = x + y`.
    pub fn add(z: &mut G2, x: &G2, y: &G2)
        requires
            x.wf(),
            y.wf(),
        ensures
            final(z).wf(),
            final(z)@ == g2_add(x@, y@),
    {
        *z = x.plus(y);
    }

    /// `z = x - y`.
    pub fn sub(z: &mut G2, x: &G2, y: &G2)
        requires
            x.wf(),
            y.wf(),
        ensures
            final(z).wf(),
            final(z)@ == g2_sub(x@, y@),
    {
        *z = x.plus(&y.negated());
    }

    /// `y = -x`.
    pub fn neg(y: &mut G2, x: &G2)
        requires
            x.wf(),
        ensures
            final(y).wf(),
            final(y)@ == g2_neg(x@),
    {
        *y = x.negated();
    }

    /// `y = 2 * x`.
    pub fn dbl(y: &mut G2, x: &G2)
        requires
            x.wf(),
        ensures
            final(y).wf(),
            final(y)@ == g2_dbl(x@),
    {
        *y = x.doubled();
    }

    /// `z = y * x`: the multiple of the point `x` by the scalar `y`.
    pub fn mul(z: &mut G2, x: &G2, y: &Fr)
        requires
            x.wf(),
        ensures
            final(z).wf(),
            final(z)@ == g2_mul(x@, y@),
    {
        let n = y.to_limbs();
        *z = G2::mul_by_limbs(x, &n);
    }

    /// `z` = the sum of the products `ys[i] * xs[i]`; the identity where there
    /// are none.
    pub fn mul_vec(z: &mut G2, xs: &[G2], ys: &[Fr])
        requires
            xs@.len() == ys@.len(),
            forall|i: int| 0 <= i < xs@.len() ==> (#[trigger] xs@[i]).wf(),
        ensures
            final(z).wf(),
            final(z)@ == g2_sum(xs@, ys@, xs@.len()),
    {
        let mut acc = G2::zero();
        let mut i: usize = 0;
        while i < xs.len()
            invariant
                i <= xs@.len(),
                xs@.len() == ys@.len(),
                forall|j: int| 0 <= j < xs@.len() ==> (#[trigger] xs@[j]).wf(),
                acc.wf(),
                acc@ == g2_sum(xs@, ys@, i as nat),
            decreases xs@.len() - i,
        {
            let n = ys[i].to_limbs();
            let t = G2::mul_by_limbs(&xs[i], &n);
            acc = acc.plus(&t);
            i = i + 1;
        }
        *z = acc;
    }

    /// `y` = `x` with `z` brought to one.
    pub fn normalize(y: &mut G2, x: &G2)
        requires
            x.wf(),
        ensures
            final(y).wf(),
            final(y)@ == g2_normalize(x@),
    {
        *y = x.normalized();
    }

    /// The cofactor of the curve, in limbs.
    pub fn cofactor_limbs() -> (h: [u64; 8])
        ensures
            limbs_val(h@) == g2_cofactor(),
    {
        let h: [u64; 8] = [
            0xcf1c38e31c7238e5,
            0x1616ec6e786f0c70,
            0x21537e293a6691ae,
            0xa628f1cb4d9e82ef,
            0xa68a205b2e5a7ddf,
            0xcd91de4547085aba,
            0x091d50792876a202,
            0x05d543a95414e7f1,
        ];
        proof {
            reveal_with_fuel(prefix_val, 2);
            reveal_with_fuel(radix, 2);
            assert(radix(0) == 1);
            assert(prefix_val(h@, 0) == 0);
            assert(radix(1) == 0x10000000000000000nat);
            assert(prefix_val(h@, 1) == 0xcf1c38e31c7238e5nat);
            assert(radix(2) == 0x100000000000000000000000000000000nat);
            assert(prefix_val(h@, 2) == 0x1616ec6e786f0c70cf1c38e31c7238e5nat);
            assert(radix(3) == 0x1000000000000000000000000000000000000000000000000nat);
            assert(prefix_val(h@, 3) == 0x21537e293a6691ae1616ec6e786f0c70cf1c38e31c7238e5nat);
            assert(radix(4) == 0x10000000000000000000000000000000000000000000000000000000000000000nat);
            assert(prefix_val(h@, 4) == 0xa628f1cb4d9e82ef21537e293a6691ae1616ec6e786f0c70cf1c38e31c7238e5nat);
            assert(radix(5) == 0x100000000000000000000000000000000000000000000000000000000000000000000000000000000nat);
            assert(prefix_val(h@, 5) == 0xa68a205b2e5a7ddfa628f1cb4d9e82ef21537e293a6691ae1616ec6e786f0c70cf1c38e31c7238e5nat);
            assert(radix(6) == 0x1000000000000000000000000000000000000000000000000000000000000000000000000000000000000000000000000nat);
            assert(prefix_val(h@, 6) == 0xcd91de4547085abaa68a205b2e5a7ddfa628f1cb4d9e82ef21537e293a6691ae1616ec6e786f0c70cf1c38e31c7238e5nat);
            assert(radix(7) == 0x10000000000000000000000000000000000000000000000000000000000000000000000000000000000000000000000000000000000000000nat);
            assert(prefix_val(h@, 7) == 0x91d50792876a202cd91de4547085abaa68a205b2e5a7ddfa628f1cb4d9e82ef21537e293a6691ae1616ec6e786f0c70cf1c38e31c7238e5nat);
            assert(radix(8) == 0x100000000000000000000000000000000000000000000000000000000000000000000000000000000000000000000000000000000000000000000000000000000nat);
            assert(prefix_val(h@, 8) == 0x5d543a95414e7f1091d50792876a202cd91de4547085abaa68a205b2e5a7ddfa628f1cb4d9e82ef21537e293a6691ae1616ec6e786f0c70cf1c38e31c7238e5nat);
        }
        h
    }

    /// The right side of the curve equation at the abscissa `x`.
    pub fn curve_rhs(x: &Fp2) -> (r: Fp2)
        requires
            x.wf(),
        ensures
            r.wf(),
            r@ == g2_rhs(x@),
    {
        x.squared().times(x).plus(&G2::curve_b())
    }

    /// The point's bytes.
    pub fn serialize(&self) -> (out: Vec<u8>)
        requires
            self.wf(),
        ensures
            out@ == g2_encode(self@),
    {
        if self.z.is_zero() {
            let mut out: Vec<u8> = vec![0u8; 96];
            out.set(95, 0x40);
            proof {
                assert(out@ =~= g2_zero_encoding());
            }
            return out;
        }
        let n = self.normalized();
        let mut out = n.x.serialize();
        proof {
            assert(out@.len() == 96);
        }
        if n.y.sign_bit() {
            let top: u8 = out[95] | 0x80;
            out.set(95, top);
        }
        out
    }

    /// Whether the bytes are those of the identity.
    fn is_zero_encoding(buf: &[u8]) -> (r: bool)
        ensures
            r == (buf@ == g2_zero_encoding()),
    {
        if buf.len() != 96 {
            return false;
        }
        let mut i: usize = 0;
        while i < 96
            invariant
                i <= 96,
                buf@.len() == 96,
                forall|j: int| 0 <= j < i ==> buf@[j] == g2_zero_encoding()[j],
            decreases 96 - i,
        {
            let want: u8 = if i == 95 {
                0x40
            } else {
                0
            };
            if buf[i] != want {
                return false;
            }
            i = i + 1;
        }
        proof {
            assert(buf@ =~= g2_zero_encoding());
        }
        true
    }

    /// Sets the point from its bytes. Where the bytes stand for no point of
    /// the group, the point is left as it was.
    pub fn deserialize(&mut self, buf: &[u8]) -> (ok: bool)
        ensures
            ok <==> g2_decode(buf@) is Some,
            ok ==> final(self).wf() && g2_decode(buf@) == Some(final(self)@),
            !ok ==> *final(self) == *old(self),
    {
        if buf.len() != 96 {
            return false;
        }
        if buf[95] & 0x40 != 0 {
            if G2::is_zero_encoding(buf) {
                *self = G2::zero();
                return true;
            }
            return false;
        }
        let sign = buf[95] & 0x80 != 0;
        let mut xb: Vec<u8> = Vec::new();
        xb.extend_from_slice(buf);
        let top: u8 = buf[95] & 0x3f;
        xb.set(95, top);
        proof {
            assert(xb@ =~= buf@.update(95, buf@[95] & 0x3fu8));
        }
        let mut x = Fp2::zero();
        if !x.deserialize(xb.as_slice()) {
            return false;
        }
        let y0 = match G2::curve_rhs(&x).sqrt() {
            Some(v) => v,
            None => {
                return false;
            },
        };
        let y = if y0.sign_bit() == sign {
            y0
        } else {
            y0.negated()
        };
        if y.sign_bit() != sign {
            return false;
        }
        let p = G2 { x, y, z: Fp2::one() };
        let m = fr_params();
        if !G2::mul_by_limbs(&p, &m.p).is_zero() {
            return false;
        }
        *self = p;
        true
    }

    /// Sets the point to the one that the search from the abscissa `x` finds:
    /// the search goes from `x` over the next abscissas until the curve has a
    /// point there whose multiple by the cofactor is not the identity, and
    /// takes that multiple. Where 256 abscissas do not suffice, the call
    /// fails and the point is left as it was.
    pub fn set_from_abscissa(&mut self, x: &Fp2) -> (ok: bool)
        requires
            x.wf(),
        ensures
            ok <==> g2_search(x@, 256) is Some,
            ok ==> final(self).wf() && g2_search(x@, 256) == Some(final(self)@),
            !ok ==> *final(self) == *old(self),
    {
        let h = G2::cofactor_limbs();
        let ghost found = g2_search(x@, 256);
        let mut cur = *x;
        let mut tries: u32 = 256;
        while tries > 0
            invariant
                cur.wf(),
                limbs_val(h@) == g2_cofactor(),
                *self == *old(self),
                found == g2_search(x@, 256),
                found == g2_search(cur@, tries as nat),
            decreases tries,
        {
            match G2::curve_rhs(&cur).sqrt() {
                Some(y) => {
                    let p = G2 { x: cur, y, z: Fp2::one() };
                    let q = G2::mul_by_limbs(&p, &h);
                    if !q.is_zero() {
                        *self = q;
                        return true;
                    }
                },
                None => {},
            }
            cur = cur.successor();
            tries = tries - 1;
        }
        false
    }

    /// Sets the point to the one that the message hashes to: the one that the
    /// search finds from the abscissa that the message hashes to. Where the
    /// search fails, the call fails and the point is left as it was.
    pub fn set_hash_of(&mut self, buf: &[u8]) -> (ok: bool)
        ensures
            ok <==> g2_hash(buf@) is Some,
            ok ==> final(self).wf() && g2_hash(buf@) == Some(final(self)@),
            !ok ==> *final(self) == *old(self),
    {
        let x = Fp2::hash_point(buf);
        self.set_from_abscissa(&x)
    }

    /// The point's text in base 10 or 16.
    pub fn get_str(&self, io_mode: i32) -> (s: String)
        requires
            self.wf(),
            io_mode == 10 || io_mode == 16,
        ensures
            s@ == g2_format(self@, io_mode as nat),
    {
        if self.z.is_zero() {
            proof {
                reveal_strlit("0");
                assert("0"@ =~= seq!['0']);
            }
            return String::from_str("0");
        }
        let n = self.normalized();
        let c: [Fp; 4] = [n.x.c0(), n.x.c1(), n.y.c0(), n.y.c1()];
        proof {
            reveal_strlit("1 ");
            assert("1 "@ =~= seq!['1', ' ']);
            assert(fp_values(c@) =~= g2_coeffs(n@));
        }
        let mut s = String::from_str("1 ");
        let t = Fp::format_list(c.as_slice(), io_mode);
        s.append(t.as_str());
        s
    }

    /// Sets the point from text in base 10 or 16. Where the text stands for no
    /// point of the group, the point is left as it was.
    pub fn set_str(&mut self, s: &str, base: i32) -> (ok: bool)
        ensures
            ok <==> g2_parse(s@, base as int) is Some,
            ok ==> final(self).wf() && g2_parse(s@, base as int) == Some(final(self)@),
            !ok ==> *final(self) == *old(self),
    {
        let ws = split_words(s);
        proof {
            assert(views_of(ws@)[0] == ws@[0]@);
        }
        if ws.len() == 1 && is_single_char(ws[0], '0') {
            *self = G2::zero();
            return true;
        }
        if ws.len() != 5 || !is_single_char(ws[0], '1') {
            return false;
        }
        match G2::parse_affine(&ws, base) {
            Some(p) => {
                *self = p;
                true
            },
            None => false,
        }
    }

    /// The point of the group whose affine coordinates the words after the
    /// first stand for, if there is one.
    fn parse_affine(ws: &Vec<&str>, base: i32) -> (r: Option<G2>)
        requires
            ws@.len() == 5,
        ensures
            r is Some <==> (fp_parse_list(views_of(ws@).skip(1), base as int) matches Some(c)
                && g2_valid(g2_from_coeffs(c))),
            r matches Some(p) ==> p.wf() && p@ == g2_from_coeffs(
                fp_parse_list(views_of(ws@).skip(1), base as int)->0,
            ),
    {
        match Fp::parse_list(ws, 1, base) {
            Some(v) => {
                let p = G2 { x: Fp2::new(v[0], v[1]), y: Fp2::new(v[2], v[3]), z: Fp2::one() };
                proof {
                    assert(p@ == g2_from_coeffs(fp_values(v@)));
                }
                if !p.is_valid() {
                    return None;
                }
                Some(p)
            },
            None => None,
        }
    }

    /// The point that the text stands for, if it stands for one.
    pub fn from_str(s: &str, base: i32) -> (r: Option<G2>)
        ensures
            r is Some <==> g2_parse(s@, base as int) is Some,
            r matches Some(v) ==> v.wf() && g2_parse(s@, base as int) == Some(v@),
    {
        let mut v = G2::zero();
        if v.set_str(s, base) {
            Some(v)
        } else {
            None
        }
    }

}

/// What the flag bits of the last byte of an encoding do to a byte that
/// leaves them free.
proof fn lemma_g2_flag_bits(t: u8)
    requires
        t < 0x20,
    ensures
        t & 0x40 == 0,
        t & 0x80 == 0,
        t & 0x3f == t,
        (t | 0x80) & 0x40 == 0,
        (t | 0x80) & 0x80 != 0,
        (t | 0x80) & 0x3f == t,
        0x40u8 & 0x40 != 0,
{
    assert(t & 0x40 == 0 && t & 0x80 == 0 && t & 0x3f == t && (t | 0x80) & 0x40 == 0 && (t | 0x80)
        & 0x80 != 0 && (t | 0x80) & 0x3f == t) by (bit_vector)
        requires
            t < 0x20,
    ;
    assert(0x40u8 & 0x40 != 0) by (bit_vector);
}

/// The flags and the abscissa in the bytes of a point in affine form.
proof fn lemma_g2_encoding_parts(p: G2Value)
    requires
        crate::fp2::fp2_reduced(p.0),
        crate::fp2::fp2_reduced(p.1),
        crate::fp2::fp2_reduced(p.2),
        p.2 == (1nat, 0nat),
    ensures
        ({
            let b = g2_encode(p);
            &&& b.len() == 96
            &&& b[95] & 0x40 == 0
            &&& (b[95] & 0x80 != 0) == fp2_sign(p.1)
            &&& b.update(95, b[95] & 0x3f) == fp2_encode(p.0)
        }),
{
    lemma_g2_normalize_affine(p);
    let e = fp2_encode(p.0);
    crate::fp::lemma_fp_top_byte(p.0.0);
    crate::fp::lemma_fp_top_byte(p.0.1);
    assert(e.len() == 96);
    assert(e[95] == crate::fp::fp_encode(p.0.1)[47]);
    lemma_g2_flag_bits(e[95]);
    let b = g2_encode(p);
    assert(b.update(95, b[95] & 0x3f) =~= e);
}

/// A number that is not zero and its negative differ in sign, and the
/// negative of the negative is the number.
proof fn lemma_g2_sign_of_negative(y: F2)
    requires
        y.0 < fp_modulus(),
        y.1 < fp_modulus(),
    ensures
        fp2_neg(fp2_neg(y)) == y,
        y != (0nat, 0nat) ==> fp2_sign(fp2_neg(y)) != fp2_sign(y),
        y == (0nat, 0nat) ==> fp2_neg(y) == y,
{
    crate::fp::lemma_fp_modulus_mod_four();
    crate::fp::lemma_fp_lesser_root_of_negative(y.0);
    crate::fp::lemma_fp_lesser_root_of_negative(y.1);
    lemma_small_mod(0, fp_modulus());
}

/// Where the order of the base field is prime, the ordinate that is picked
/// by its sign among the square roots of the right side of the curve equation
/// is the ordinate of the point.
proof fn lemma_g2_ordinate(x: F2, y: F2)
    requires
        x.0 < fp_modulus(),
        x.1 < fp_modulus(),
        y.0 < fp_modulus(),
        y.1 < fp_modulus(),
        is_prime(fp_modulus()),
        fp2_mul(y, y) == g2_rhs(x),
    ensures
        fp2_sqrt(g2_rhs(x)) is Some,
        ({
            let y0 = fp2_sqrt(g2_rhs(x))->0;
            let picked = if fp2_sign(y0) == fp2_sign(y) {
                y0
            } else {
                fp2_neg(y0)
            };
            picked == y
        }),
{
    crate::fp2::lemma_fp2_sqrt_of_square(y);
    lemma_g2_sign_of_negative(y);
    let y0 = fp2_sqrt(g2_rhs(x))->0;
    if y0 != y {
        lemma_g2_sign_of_negative(y0);
    }
}

/// The curve equation of a point in affine form.
proof fn lemma_g2_affine_equation(p: G2Value)
    requires
        crate::fp2::fp2_reduced(p.0),
        crate::fp2::fp2_reduced(p.1),
        crate::fp2::fp2_reduced(p.2),
        p.2 == (1nat, 0nat),
        g2_on_curve(p),
    ensures
        fp2_mul(p.1, p.1) == g2_rhs(p.0),
{
    let m = fp_modulus();
    lemma_small_mod(1, m);
    lemma_small_mod(4, m);
    lemma_small_mod(0, m);
    assert(1 * 1 == 1 && 4 * 1 == 4 && 0 * 0 == 0 && 1 * 0 == 0 && 0 * 1 == 0 && 4 * 0 == 0);
    let one = (1nat, 0nat);
    assert(fp2_mul(one, one) == one);
    assert(fp2_mul(g2_b(), one) == g2_b());
}

/// Where the order of the base field is prime, decoding the bytes of a point
/// of the group gives the coordinates back, where they are the canonical
/// identity or have `z` at one.
pub proof fn lemma_g2_serialize_roundtrip_affine(p: G2Value)
    requires
        crate::fp2::fp2_reduced(p.0),
        crate::fp2::fp2_reduced(p.1),
        crate::fp2::fp2_reduced(p.2),
        g2_valid(p),
        p == g2_zero() || p.2 == (1nat, 0nat),
        is_prime(fp_modulus()),
    ensures
        g2_decode(g2_encode(p)) == Some(p),
{
    reveal(g2_valid);
    if g2_is_zero(p) {
        lemma_g2_flag_bits(0);
        assert(g2_zero_encoding()[95] == 0x40u8);
    } else {
        let x = p.0;
        let y = p.1;
        lemma_g2_encoding_parts(p);
        crate::fp2::lemma_fp2_decode_encode(p.0);
        lemma_g2_affine_equation(p);
        lemma_g2_ordinate(x, y);
        let b = g2_encode(p);
        assert(fp2_decode(b.update(95, b[95] & 0x3f)) == Some(x));
        assert(p == (x, y, (1nat, 0nat)));
    }
}

/// The identity is neutral: added to a point on either side, it gives the
/// point.
pub proof fn lemma_g2_add_identity(p: G2)
    requires
        p.wf(),
    ensures
        g2_add(g2_zero(), p@) == p@,
        g2_add(p@, g2_zero()) == p@ || g2_is_zero(p@),
        g2_is_zero(p@) ==> g2_is_zero(g2_add(p@, g2_zero())),
{
}

/// Doubling is adding a point to itself.
pub proof fn lemma_g2_dbl_is_add(p: G2)
    requires
        p.wf(),
    ensures
        g2_add(p@, p@) == g2_dbl(p@),
{
    let u = crate::fp2::fp2_mul(p@.0, crate::fp2::fp2_mul(p@.2, p@.2));
    let s = crate::fp2::fp2_mul(crate::fp2::fp2_mul(p@.1, p@.2), crate::fp2::fp2_mul(p@.2, p@.2));
    crate::modmath::lemma_sub_self(u.0, crate::fp::fp_modulus());
    crate::modmath::lemma_sub_self(u.1, crate::fp::fp_modulus());
    crate::modmath::lemma_sub_self(s.0, crate::fp::fp_modulus());
    crate::modmath::lemma_sub_self(s.1, crate::fp::fp_modulus());
}

/// The multiple by one is the point; the multiple by two is the double, and
/// is the multiple by one plus the point.
pub proof fn lemma_g2_mul_two(p: G2)
    requires
        p.wf(),
    ensures
        g2_mul(p@, 1) == p@,
        g2_mul(p@, 2) == g2_dbl(p@),
        g2_mul(p@, 2) == g2_add(g2_mul(p@, 1), p@),
{
    reveal_with_fuel(g2_mul, 3);
    lemma_g2_dbl_is_add(p);
}

/// For an odd `n`, the multiple by `n` is the multiple by `n - 1` plus the
/// point.
pub proof fn lemma_g2_mul_odd(p: G2, n: nat)
    requires
        p.wf(),
        n % 2 == 1,
    ensures
        g2_mul(p@, n) == g2_add(g2_mul(p@, (n - 1) as nat), p@),
{
    if n == 1 {
        reveal_with_fuel(g2_mul, 2);
    } else {
        assert(((n - 1) as nat) / 2 == n / 2);
    }
}

/// The multiple by three is the multiple by two plus the point.
pub proof fn lemma_g2_mul_three(p: G2)
    requires
        p.wf(),
    ensures
        g2_mul(p@, 3) == g2_add(g2_mul(p@, 2), p@),
{
    lemma_g2_mul_odd(p, 3);
}

/// A point with `z` at one is its own affine form.
pub proof fn lemma_g2_normalize_affine(p: G2Value)
    requires
        crate::fp2::fp2_reduced(p.0),
        crate::fp2::fp2_reduced(p.1),
        crate::fp2::fp2_reduced(p.2),
        p.2 == (1nat, 0nat),
    ensures
        g2_normalize(p) == p,
{
    let m = crate::fp::fp_modulus();
    crate::modmath::lemma_mod_inv_eq(1, 1, m);
    vstd::arithmetic::div_mod::lemma_small_mod(p.0.0, m);
        vstd::arithmetic::div_mod::lemma_small_mod(p.0.1, m);
        vstd::arithmetic::div_mod::lemma_small_mod(p.1.0, m);
        vstd::arithmetic::div_mod::lemma_small_mod(p.1.1, m);
        vstd::arithmetic::div_mod::lemma_small_mod(1, m);
        vstd::arithmetic::div_mod::lemma_small_mod(0, m);
        assert(p.0.0 * 1 == p.0.0 && p.0.1 * 1 == p.0.1);
        assert(p.1.0 * 1 == p.1.0 && p.1.1 * 1 == p.1.1);
        assert(p.0.0 * 0 == 0 && p.0.1 * 0 == 0);
        assert(p.1.0 * 0 == 0 && p.1.1 * 0 == 0);
}

/// The words of the text of a point that is not the identity: the word `1`
/// and the texts of the coefficients of its affine form.
proof fn lemma_g2_format_words(n: G2Value, b: nat)
    ensures
        words(seq!['1', ' '] + fp_format_list(g2_coeffs(n), b)) == seq![seq!['1']] + words(
            fp_format_list(g2_coeffs(n), b),
        ),
{
    let body = fp_format_list(g2_coeffs(n), b);
    lemma_words_join(seq!['1'], body);
    assert(seq!['1', ' '] + body =~= seq!['1'] + seq![' '] + body);
}

/// Parsing the text of a point of the group gives the coordinates back, in
/// base 10 and 16, where they are the canonical identity or have `z` at one.
pub proof fn lemma_g2_text_roundtrip_affine(p: G2Value, base: int)
    requires
        crate::fp2::fp2_reduced(p.0),
        crate::fp2::fp2_reduced(p.1),
        crate::fp2::fp2_reduced(p.2),
        g2_valid(p),
        p == g2_zero() || p.2 == (1nat, 0nat),
        base == 10 || base == 16,
    ensures
        g2_parse(g2_format(p, base as nat), base) == Some(p),
{
    if g2_is_zero(p) {
        lemma_words_single(seq!['0']);
    } else {
        lemma_g2_normalize_affine(p);
        let c = g2_coeffs(p);
        let body = fp_format_list(c, base as nat);
        lemma_fp_list_roundtrip(c, base);
        lemma_g2_format_words(p, base as nat);
        let w = words(g2_format(p, base as nat));
        assert(w == seq![seq!['1']] + words(body));
        assert(w.len() == 5) by {
            crate::fp::lemma_fp_format_list_words(c, base as nat);
        }
        assert(w[0] == seq!['1']);
        assert(w.skip(1) =~= words(body));
        assert(g2_from_coeffs(c) == p);
    }
}

/// The sum over vectors: nothing adds up to the identity, and one more pair
/// adds its product.
pub proof fn lemma_g2_sum_unfold(points: Seq<G2>, scalars: Seq<Fr>, n: nat)
    ensures
        g2_sum(points, scalars, 0) == g2_zero(),
        n > 0 ==> g2_sum(points, scalars, n) == g2_add(
            g2_sum(points, scalars, (n - 1) as nat),
            g2_mul(points[n - 1]@, scalars[n - 1]@),
        ),
{
}

impl G2 {
    /// The element with the value `v`.
    pub open spec fn with_value(v: G2Value) -> G2 {
        choose|r: G2| r@ == v
    }
}

impl<'a> core::ops::Add for &'a G2 {
    type Output = G2;

    fn add(self, other: &G2) -> (r: G2) {
        let r = self.plus(other);
        proof {
            G2::lemma_view_injective(r, G2::with_value(g2_add(self@, other@)));
        }
        r
    }
}

impl<'a> vstd::std_specs::ops::AddSpecImpl for &'a G2 {
    open spec fn obeys_add_spec() -> bool {
        true
    }

    open spec fn add_req(self, other: &'a G2) -> bool {
        self.wf() && other.wf()
    }

    open spec fn add_spec(self, other: &'a G2) -> G2 {
        G2::with_value(g2_add(self@, other@))
    }
}

impl<'a> core::ops::AddAssign<&'a G2> for G2 {
    /// Where an operand is not fully reduced, `self` is left as it was.
    fn add_assign(&mut self, other: &G2)
        ensures
            old(self).wf() && other.wf() ==> final(self).wf(),
            old(self).wf() && other.wf() ==> final(self)@ == g2_add(old(self)@, other@),
            !(old(self).wf() && other.wf()) ==> *final(self) == *old(self),
    {
        if self.is_reduced() && other.is_reduced() {
            let r = self.plus(other);
            *self = r;
        }
    }
}

impl<'a> core::ops::Sub for &'a G2 {
    type Output = G2;

    fn sub(self, other: &G2) -> (r: G2) {
        let r = self.plus(&other.negated());
        proof {
            G2::lemma_view_injective(r, G2::with_value(g2_sub(self@, other@)));
        }
        r
    }
}

impl<'a> vstd::std_specs::ops::SubSpecImpl for &'a G2 {
    open spec fn obeys_sub_spec() -> bool {
        true
    }

    open spec fn sub_req(self, other: &'a G2) -> bool {
        self.wf() && other.wf()
    }

    open spec fn sub_spec(self, other: &'a G2) -> G2 {
        G2::with_value(g2_sub(self@, other@))
    }
}

impl<'a> core::ops::SubAssign<&'a G2> for G2 {
    /// Where an operand is not fully reduced, `self` is left as it was.
    fn sub_assign(&mut self, other: &G2)
        ensures
            old(self).wf() && other.wf() ==> final(self).wf(),
            old(self).wf() && other.wf() ==> final(self)@ == g2_sub(old(self)@, other@),
            !(old(self).wf() && other.wf()) ==> *final(self) == *old(self),
    {
        if self.is_reduced() && other.is_reduced() {
            let r = self.plus(&other.negated());
            *self = r;
        }
    }
}

} // verus!
