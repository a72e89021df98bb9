//! The target group GT, inside the twelfth-degree extension of the base
//! field: the numbers `c0 + c1 * w` over the cubic extension, with
//! `w^2 == v`. The group law is the multiplication.

use crate::fp::{fp_format_list, fp_from_int, fp_parse_list, fp_values, lemma_fp_list_roundtrip, Fp};
use crate::fp2::Fp2;
use crate::fp6::{
    fp6_add, fp6_decode, fp6_encode, fp6_inv, fp6_mul, fp6_mul_v, fp6_neg, fp6_one, fp6_reduced,
    fp6_sub, fp6_zero, lemma_fp6_add_sub_cancel, lemma_fp6_decode_encode, F6, Fp6,
};
use crate::fr::Fr;
use crate::limbs::{base, limbs_val, prefix_val, radix};
use crate::text::{split_words, views_of, words};
use vstd::arithmetic::power2::{lemma2_to64, lemma_pow2_unfold, pow2};
use vstd::prelude::*;
use vstd::slice::slice_subrange;
use vstd::std_specs::cmp::PartialEqSpecImpl;

verus! {

/// The value of an element of the twelfth-degree extension.
pub type F12 = (F6, F6);

/// Zero.
pub open spec fn fp12_zero() -> F12 {
    (fp6_zero(), fp6_zero())
}

/// One, the identity of the group.
pub open spec fn fp12_one() -> F12 {
    (fp6_one(), fp6_zero())
}

/// The element of the base field `k`, as an element of the extension.
pub open spec fn fp12_from_base(k: nat) -> F12 {
    (((k, 0nat), (0nat, 0nat), (0nat, 0nat)), fp6_zero())
}

/// The sum: coefficient by coefficient.
pub open spec fn fp12_add(a: F12, b: F12) -> F12 {
    (fp6_add(a.0, b.0), fp6_add(a.1, b.1))
}

/// The difference: coefficient by coefficient.
pub open spec fn fp12_sub(a: F12, b: F12) -> F12 {
    (fp6_sub(a.0, b.0), fp6_sub(a.1, b.1))
}

/// The negative: coefficient by coefficient.
pub open spec fn fp12_neg(a: F12) -> F12 {
    (fp6_neg(a.0), fp6_neg(a.1))
}

/// The product of two polynomials in `w`, reduced by `w^2 == v`.
#[verifier::opaque]
pub open spec fn fp12_mul(a: F12, b: F12) -> F12 {
    (
        fp6_add(fp6_mul(a.0, b.0), fp6_mul_v(fp6_mul(a.1, b.1))),
        fp6_add(fp6_mul(a.0, b.1), fp6_mul(a.1, b.0)),
    )
}

/// The square.
pub open spec fn fp12_sqr(a: F12) -> F12 {
    fp12_mul(a, a)
}

/// The conjugate over the cubic extension: `c0 - c1 * w`.
pub open spec fn fp12_conj(a: F12) -> F12 {
    (a.0, fp6_neg(a.1))
}

/// The inverse: the conjugate over the norm down to the cubic extension; zero
/// where that norm has no inverse.
#[verifier::opaque]
pub open spec fn fp12_inv(a: F12) -> F12 {
    let d = fp6_sub(fp6_mul(a.0, a.0), fp6_mul_v(fp6_mul(a.1, a.1)));
    let di = fp6_inv(d);
    (fp6_mul(a.0, di), fp6_neg(fp6_mul(a.1, di)))
}

/// The quotient: `a` times the inverse of `b`.
pub open spec fn fp12_div(a: F12, b: F12) -> F12 {
    fp12_mul(a, fp12_inv(b))
}

/// The power `a^n`, by squaring and multiplying over the bits of `n` from the
/// top.
pub open spec fn fp12_pow(a: F12, n: nat) -> F12
    decreases n,
{
    if n == 0 {
        fp12_one()
    } else {
        let h = fp12_pow(a, n / 2);
        let s = fp12_mul(h, h);
        if n % 2 == 1 {
            fp12_mul(s, a)
        } else {
            s
        }
    }
}

/// The bytes of an element: those of `c0`, then those of `c1`; twelve
/// elements of the base field in all.
pub open spec fn gt_encode(v: F12) -> Seq<u8> {
    fp6_encode(v.0) + fp6_encode(v.1)
}

/// The element that 576 bytes stand for, where each half stands for an
/// element of the cubic extension.
pub open spec fn gt_decode(b: Seq<u8>) -> Option<F12> {
    if b.len() == 576 {
        match (fp6_decode(b.subrange(0, 288)), fp6_decode(b.subrange(288, 576))) {
            (Some(c0), Some(c1)) => Some((c0, c1)),
            _ => None,
        }
    } else {
        None
    }
}

/// The twelve coefficients of a value over the base field, in the order of
/// their bytes and words.
pub open spec fn gt_coeffs(v: F12) -> Seq<nat> {
    seq![
        v.0.0.0,
        v.0.0.1,
        v.0.1.0,
        v.0.1.1,
        v.0.2.0,
        v.0.2.1,
        v.1.0.0,
        v.1.0.1,
        v.1.1.0,
        v.1.1.1,
        v.1.2.0,
        v.1.2.1,
    ]
}

/// The value with the given twelve coefficients.
pub open spec fn gt_from_coeffs(c: Seq<nat>) -> F12 {
    (((c[0], c[1]), (c[2], c[3]), (c[4], c[5])), ((c[6], c[7]), (c[8], c[9]), (c[10], c[11])))
}

/// The text of an element: the texts of its twelve coefficients, with spaces
/// between.
pub open spec fn gt_format(v: F12, b: nat) -> Seq<char> {
    fp_format_list(gt_coeffs(v), b)
}

/// The element that a text stands for in base 10 or 16: the text has twelve
/// words, which stand for the coefficients.
pub open spec fn gt_parse(s: Seq<char>, b: int) -> Option<F12> {
    match fp_parse_list(words(s), b) {
        Some(c) => if c.len() == 12 {
            Some(gt_from_coeffs(c))
        } else {
            None
        },
        None => None,
    }
}

/// The six coefficients from index `i` on, as a value of the cubic extension.
pub open spec fn f6_at(s: Seq<Fp>, i: int) -> F6 {
    ((s[i]@, s[i + 1]@), (s[i + 2]@, s[i + 3]@), (s[i + 4]@, s[i + 5]@))
}

/// An element of the target group's field: twelve elements of the base field.
#[derive(Clone, Copy, Debug)]
pub struct GT {
    d: [Fp; 12],
}

impl View for GT {
    type V = F12;

    /// The coefficients `(c0, c1)` of `c0 + c1 * w`.
    closed spec fn view(&self) -> F12 {
        (f6_at(self.d@, 0), f6_at(self.d@, 6))
    }
}

impl PartialEq for GT {
    fn eq(&self, rhs: &Self) -> (r: bool) {
        self.lo().same(&rhs.lo()) && self.hi().same(&rhs.hi())
    }
}

impl PartialEqSpecImpl for GT {
    open spec fn obeys_eq_spec() -> bool {
        true
    }

    open spec fn eq_spec(&self, rhs: &Self) -> bool {
        self@ == rhs@
    }
}

impl Default for GT {
    fn default() -> (r: GT)
        ensures
            r@ == fp12_zero(),
            r.wf(),
    {
        GT::zero()
    }
}

impl GT {
    /// The twelve coefficients are fully reduced.
    pub open spec fn wf(&self) -> bool {
        fp6_reduced(self@.0) && fp6_reduced(self@.1)
    }

    /// The coefficient `c0`.
    pub fn lo(&self) -> (r: Fp6)
        ensures
            r@ == self@.0,
    {
        Fp6 {
            c0: Fp2::new(self.d[0], self.d[1]),
            c1: Fp2::new(self.d[2], self.d[3]),
            c2: Fp2::new(self.d[4], self.d[5]),
        }
    }

    /// The coefficient `c1`.
    pub fn hi(&self) -> (r: Fp6)
        ensures
            r@ == self@.1,
    {
        Fp6 {
            c0: Fp2::new(self.d[6], self.d[7]),
            c1: Fp2::new(self.d[8], self.d[9]),
            c2: Fp2::new(self.d[10], self.d[11]),
        }
    }

    /// The element `c0 + c1 * w`.
    pub fn from_parts(c0: &Fp6, c1: &Fp6) -> (r: GT)
        ensures
            r@ == (c0@, c1@),
    {
        GT {
            d: [
                c0.c0.c0(),
                c0.c0.c1(),
                c0.c1.c0(),
                c0.c1.c1(),
                c0.c2.c0(),
                c0.c2.c1(),
                c1.c0.c0(),
                c1.c0.c1(),
                c1.c1.c0(),
                c1.c1.c1(),
                c1.c2.c0(),
                c1.c2.c1(),
            ],
        }
    }

    /// The zero element.
    pub fn zero() -> (r: GT)
        ensures
            r@ == fp12_zero(),
            r.wf(),
    {
        GT::from_parts(&Fp6::zero(), &Fp6::zero())
    }

    /// The one element, the identity of the group.
    pub fn one() -> (r: GT)
        ensures
            r@ == fp12_one(),
            r.wf(),
    {
        GT::from_parts(&Fp6::one(), &Fp6::zero())
    }

    /// A placeholder for a value that is about to be overwritten: the zero
    /// element.
    pub fn uninit() -> (r: GT)
        ensures
            r@ == fp12_zero(),
            r.wf(),
    {
        GT::zero()
    }

    /// Sets the element to zero.
    pub fn clear(&mut self)
        ensures
            final(self)@ == fp12_zero(),
            final(self).wf(),
    {
        *self = GT::zero();
    }

    /// Whether the element is zero.
    pub fn is_zero(&self) -> (r: bool)
        ensures
            r == (self@ == fp12_zero()),
    {
        let z = Fp6::zero();
        self.lo().same(&z) && self.hi().same(&z)
    }

    /// Whether the element is one, the identity of the group.
    pub fn is_one(&self) -> (r: bool)
        ensures
            r == (self@ == fp12_one()),
    {
        self.lo().same(&Fp6::one()) && self.hi().same(&Fp6::zero())
    }

    /// Whether the twelve coefficients are fully reduced.
    pub fn is_reduced(&self) -> (r: bool)
        ensures
            r == self.wf(),
    {
        self.lo().is_valid() && self.hi().is_valid()
    }

    /// The element of the base field that the integer stands for.
    pub fn from_int(x: i32) -> (r: GT)
        ensures
            r.wf(),
            r@ == fp12_from_base(fp_from_int(x as int)),
    {
        let c = Fp6 { c0: Fp2::new(Fp::from_int(x), Fp::zero()), c1: Fp2::zero(), c2: Fp2::zero() };
        GT::from_parts(&c, &Fp6::zero())
    }

    /// Sets the element to the one of the base field that the integer stands
    /// for.
    pub fn set_int(&mut self, x: i32)
        ensures
            final(self).wf(),
            final(self)@ == fp12_from_base(fp_from_int(x as int)),
    {
        *self = GT::from_int(x);
    }

    /// Elements with one value are one element.
    pub proof fn lemma_view_injective(x: GT, y: GT)
        requires
            x@ == y@,
        ensures
            x == y,
    {
        assert forall|i: int| 0 <= i < 12 implies x.d@[i] == y.d@[i] by {
            Fp::lemma_view_injective(x.d@[i], y.d@[i]);
        }
        assert(x.d@ =~= y.d@);
        assert(x.d == y.d);
    }

    /// `self + y`, in the field around the group.
    pub fn plus(&self, y: &GT) -> (r: GT)
        requires
            self.wf(),
            y.wf(),
        ensures
            r.wf(),
            r@ == fp12_add(self@, y@),
    {
        GT::from_parts(&self.lo().plus(&y.lo()), &self.hi().plus(&y.hi()))
    }

    /// `self - y`, in the field around the group.
    pub fn minus(&self, y: &GT) -> (r: GT)
        requires
            self.wf(),
            y.wf(),
        ensures
            r.wf(),
            r@ == fp12_sub(self@, y@),
    {
        GT::from_parts(&self.lo().minus(&y.lo()), &self.hi().minus(&y.hi()))
    }

    /// `self * y`.
    pub fn times(&self, y: &GT) -> (r: GT)
        requires
            self.wf(),
            y.wf(),
        ensures
            r.wf(),
            r@ == fp12_mul(self@, y@),
    {
        proof {
            reveal(fp12_mul);
        }
        let a0 = self.lo();
        let a1 = self.hi();
        let b0 = y.lo();
        let b1 = y.hi();
        let c0 = a0.times(&b0).plus(&a1.times(&b1).times_v());
        let c1 = a0.times(&b1).plus(&a1.times(&b0));
        GT::from_parts(&c0, &c1)
    }

    /// The conjugate `c0 - c1 * w`.
    pub fn conjugate(&self) -> (r: GT)
        requires
            self.wf(),
        ensures
            r.wf(),
            r@ == fp12_conj(self@),
    {
        GT::from_parts(&self.lo(), &self.hi().negated())
    }

    /// `1 / self`, and zero where the norm of `self` has no inverse.
    pub fn inverse(&self) -> (r: GT)
        requires
            self.wf(),
        ensures
            r.wf(),
            r@ == fp12_inv(self@),
    {
        proof {
            reveal(fp12_inv);
        }
        let a0 = self.lo();
        let a1 = self.hi();
        let d = a0.times(&a0).minus(&a1.times(&a1).times_v());
        let di = d.inverse();
        GT::from_parts(&a0.times(&di), &a1.times(&di).negated())
    }

    /// `self^n` for a multi-limb number `n`.
    pub fn pow_by_limbs<const M: usize>(x: &GT, n: &[u64; M]) -> (r: GT)
        requires
            x.wf(),
        ensures
            r.wf(),
            r@ == fp12_pow(x@, limbs_val(n@)),
    {
        let mut acc = GT::one();
        let mut started = false;
        let mut k: usize = M;
        let ghost mut done: nat = 0;
        proof {
            assert(0 * radix(M as nat) == 0);
        }
        while k > 0
            invariant
                k <= M,
                x.wf(),
                acc.wf(),
                acc@ == fp12_pow(x@, done),
                started <==> done > 0,
                done * radix(k as nat) + prefix_val(n@, k as nat) == limbs_val(n@),
            decreases k,
        {
            let w: u64 = n[k - 1];
            let mut rem: u64 = w;
            let mut t: u64 = 0x8000_0000_0000_0000;
            let mut s: u32 = 64;
            let ghost d0 = done;
            proof {
                lemma2_to64();
                lemma_pow2_unfold(64);
            }
            while s > 0
                invariant
                    s <= 64,
                    x.wf(),
                    acc.wf(),
                    acc@ == fp12_pow(x@, done),
                    started <==> done > 0,
                    s >= 1 ==> t == pow2((s - 1) as nat),
                    rem < pow2(s as nat),
                    done * pow2(s as nat) + rem == d0 * base() + w,
                decreases s,
            {
                let bit = rem >= t;
                let sq = if started || bit {
                    acc.times(&acc)
                } else {
                    acc
                };
                proof {
                    lemma_pow2_unfold(s as nat);
                    let b: nat = if bit {
                        1
                    } else {
                        0
                    };
                    let nd = 2 * done + b;
                    assert(nd / 2 == done && nd % 2 == b);
                    assert((2 * done + b) * pow2((s - 1) as nat) == done * (2 * pow2(
                        (s - 1) as nat,
                    )) + b * pow2((s - 1) as nat)) by (nonlinear_arith);
                    if s >= 2 {
                        lemma_pow2_unfold((s - 1) as nat);
                    }
                    done = nd;
                }
                if bit {
                    acc = sq.times(x);
                    rem = rem - t;
                    started = true;
                } else {
                    acc = sq;
                }
                t = t / 2;
                s = s - 1;
            }
            proof {
                lemma2_to64();
                assert(done * pow2(0) == done) by (nonlinear_arith)
                    requires
                        pow2(0) == 1,
                ;
                assert(done == d0 * base() + w);
                assert(radix(k as nat) == base() * radix((k - 1) as nat));
                assert(done * radix((k - 1) as nat) == d0 * (base() * radix((k - 1) as nat)) + w
                    * radix((k - 1) as nat)) by (nonlinear_arith)
                    requires
                        done == d0 * base() + w,
                ;
                assert(prefix_val(n@, k as nat) == prefix_val(n@, (k - 1) as nat) + (n[k
                    - 1] as nat) * radix((k - 1) as nat));
            }
            k = k - 1;
        }
        proof {
            assert(done * radix(0) == done) by (nonlinear_arith)
                requires
                    radix(0) == 1,
            ;
        }
        acc
    }

    /// `z = x + y`, in the field around the group.
    pub fn add(z: &mut GT, x: &GT, y: &GT)
        requires
            x.wf(),
            y.wf(),
        ensures
            final(z).wf(),
            final(z)@ == fp12_add(x@, y@),
    {
        *z = GT::from_parts(&x.lo().plus(&y.lo()), &x.hi().plus(&y.hi()));
    }

    /// `z = x - y`, in the field around the group.
    pub fn sub(z: &mut GT, x: &GT, y: &GT)
        requires
            x.wf(),
            y.wf(),
        ensures
            final(z).wf(),
            final(z)@ == fp12_sub(x@, y@),
    {
        *z = GT::from_parts(&x.lo().minus(&y.lo()), &x.hi().minus(&y.hi()));
    }

    /// `y = -x`, in the field around the group.
    pub fn neg(y: &mut GT, x: &GT)
        requires
            x.wf(),
        ensures
            final(y).wf(),
            final(y)@ == fp12_neg(x@),
    {
        *y = GT::from_parts(&x.lo().negated(), &x.hi().negated());
    }

    /// `z = x * y`: the group law.
    pub fn mul(z: &mut GT, x: &GT, y: &GT)
        requires
            x.wf(),
            y.wf(),
        ensures
            final(z).wf(),
            final(z)@ == fp12_mul(x@, y@),
    {
        *z = x.times(y);
    }

    /// `y = x^2`.
    pub fn sqr(y: &mut GT, x: &GT)
        requires
            x.wf(),
        ensures
            final(y).wf(),
            final(y)@ == fp12_sqr(x@),
    {
        *y = x.times(x);
    }

    /// `y = 1 / x`, and zero where the norm of `x` has no inverse, as that of
    /// zero has none.
    pub fn inv(y: &mut GT, x: &GT)
        requires
            x.wf(),
        ensures
            final(y).wf(),
            final(y)@ == fp12_inv(x@),
    {
        *y = x.inverse();
    }

    /// `z = x / y`: `x` times the inverse of `y`.
    pub fn div(z: &mut GT, x: &GT, y: &GT)
        requires
            x.wf(),
            y.wf(),
        ensures
            final(z).wf(),
            final(z)@ == fp12_div(x@, y@),
    {
        *z = x.times(&y.inverse());
    }

    /// `z = x^y`: the power of `x` by the scalar `y`.
    pub fn pow(z: &mut GT, x: &GT, y: &Fr)
        requires
            x.wf(),
        ensures
            final(z).wf(),
            final(z)@ == fp12_pow(x@, y@),
    {
        let n = y.to_limbs();
        *z = GT::pow_by_limbs(x, &n);
    }

    /// The element's text in base 10 or 16.
    pub fn get_str(&self, io_mode: i32) -> (s: String)
        requires
            io_mode == 10 || io_mode == 16,
        ensures
            s@ == gt_format(self@, io_mode as nat),
    {
        proof {
            assert(fp_values(self.d@) =~= gt_coeffs(self@));
        }
        Fp::format_list(self.d.as_slice(), io_mode)
    }

    /// Sets the element from text in base 10 or 16. Where the text stands for
    /// no element, the element is left as it was.
    pub fn set_str(&mut self, s: &str, base: i32) -> (ok: bool)
        ensures
            ok <==> gt_parse(s@, base as int) is Some,
            ok ==> final(self).wf() && gt_parse(s@, base as int) == Some(final(self)@),
            !ok ==> *final(self) == *old(self),
    {
        let ws = split_words(s);
        proof {
            assert(views_of(ws@).skip(0) =~= words(s@));
        }
        match Fp::parse_list(&ws, 0, base) {
            Some(v) => {
                if v.len() != 12 {
                    return false;
                }
                *self = GT {
                    d: [v[0], v[1], v[2], v[3], v[4], v[5], v[6], v[7], v[8], v[9], v[10], v[11]],
                };
                true
            },
            None => false,
        }
    }

    /// The element that the text stands for, if it stands for one.
    pub fn from_str(s: &str, base: i32) -> (r: Option<GT>)
        ensures
            r is Some <==> gt_parse(s@, base as int) is Some,
            r matches Some(v) ==> v.wf() && gt_parse(s@, base as int) == Some(v@),
    {
        let mut v = GT::zero();
        if v.set_str(s, base) {
            Some(v)
        } else {
            None
        }
    }

    /// The element's bytes.
    pub fn serialize(&self) -> (out: Vec<u8>)
        ensures
            out@ == gt_encode(self@),
    {
        let mut out = self.lo().serialize();
        let b1 = self.hi().serialize();
        out.extend_from_slice(b1.as_slice());
        proof {
            assert(out@ =~= gt_encode(self@));
        }
        out
    }

    /// Sets the element from its bytes. Where the bytes stand for no element,
    /// the element is left as it was.
    pub fn deserialize(&mut self, buf: &[u8]) -> (ok: bool)
        ensures
            ok <==> gt_decode(buf@) is Some,
            ok ==> final(self).wf() && gt_decode(buf@) == Some(final(self)@),
            !ok ==> *final(self) == *old(self),
    {
        if buf.len() != 576 {
            return false;
        }
        let c0 = match Fp6::deserialize(slice_subrange(buf, 0, 288)) {
            Some(v) => v,
            None => {
                return false;
            },
        };
        let c1 = match Fp6::deserialize(slice_subrange(buf, 288, 576)) {
            Some(v) => v,
            None => {
                return false;
            },
        };
        *self = GT::from_parts(&c0, &c1);
        true
    }
}

/// Reading an element's text gives the element back, in base 10 and 16.
pub proof fn lemma_gt_text_roundtrip(x: GT, base: int)
    requires
        x.wf(),
        base == 10 || base == 16,
    ensures
        gt_parse(gt_format(x@, base as nat), base) == Some(x@),
{
    lemma_fp_list_roundtrip(gt_coeffs(x@), base);
}

/// The square is the product with itself.
pub proof fn lemma_gt_sqr_is_mul(x: GT)
    requires
        x.wf(),
    ensures
        fp12_sqr(x@) == fp12_mul(x@, x@),
{
}

/// Adding and then subtracting `y` gives `x` back.
pub proof fn lemma_gt_add_then_sub(x: GT, y: GT)
    requires
        x.wf(),
        y.wf(),
    ensures
        fp12_sub(fp12_add(x@, y@), y@) == x@,
{
    lemma_fp6_add_sub_cancel(x@.0, y@.0);
    lemma_fp6_add_sub_cancel(x@.1, y@.1);
}

/// Reading an element's bytes gives the element back.
pub proof fn lemma_gt_serialize_roundtrip(x: GT)
    requires
        x.wf(),
    ensures
        gt_decode(gt_encode(x@)) == Some(x@),
{
    let b = gt_encode(x@);
    lemma_fp6_decode_encode(x@.0);
    lemma_fp6_decode_encode(x@.1);
    assert(b.subrange(0, 288) =~= fp6_encode(x@.0));
    assert(b.subrange(288, 576) =~= fp6_encode(x@.1));
}

impl GT {
    /// The element with the value `v`.
    pub open spec fn with_value(v: F12) -> GT {
        choose|r: GT| r@ == v
    }
}

impl<'a> core::ops::Add for &'a GT {
    type Output = GT;

    fn add(self, other: &GT) -> (r: GT) {
        let r = self.plus(other);
        proof {
            GT::lemma_view_injective(r, GT::with_value(fp12_add(self@, other@)));
        }
        r
    }
}

impl<'a> vstd::std_specs::ops::AddSpecImpl for &'a GT {
    open spec fn obeys_add_spec() -> bool {
        true
    }

    open spec fn add_req(self, other: &'a GT) -> bool {
        self.wf() && other.wf()
    }

    open spec fn add_spec(self, other: &'a GT) -> GT {
        GT::with_value(fp12_add(self@, other@))
    }
}

impl<'a> core::ops::AddAssign<&'a GT> for GT {
    /// Where an operand is not fully reduced, `self` is left as it was.
    fn add_assign(&mut self, other: &GT)
        ensures
            old(self).wf() && other.wf() ==> final(self).wf(),
            old(self).wf() && other.wf() ==> final(self)@ == fp12_add(old(self)@, other@),
            !(old(self).wf() && other.wf()) ==> *final(self) == *old(self),
    {
        if self.is_reduced() && other.is_reduced() {
            let r = self.plus(other);
            *self = r;
        }
    }
}

impl<'a> core::ops::Sub for &'a GT {
    type Output = GT;

    fn sub(self, other: &GT) -> (r: GT) {
        let r = self.minus(other);
        proof {
            GT::lemma_view_injective(r, GT::with_value(fp12_sub(self@, other@)));
        }
        r
    }
}

impl<'a> vstd::std_specs::ops::SubSpecImpl for &'a GT {
    open spec fn obeys_sub_spec() -> bool {
        true
    }

    open spec fn sub_req(self, other: &'a GT) -> bool {
        self.wf() && other.wf()
    }

    open spec fn sub_spec(self, other: &'a GT) -> GT {
        GT::with_value(fp12_sub(self@, other@))
    }
}

impl<'a> core::ops::SubAssign<&'a GT> for GT {
    /// Where an operand is not fully reduced, `self` is left as it was.
    fn sub_assign(&mut self, other: &GT)
        ensures
            old(self).wf() && other.wf() ==> final(self).wf(),
            old(self).wf() && other.wf() ==> final(self)@ == fp12_sub(old(self)@, other@),
            !(old(self).wf() && other.wf()) ==> *final(self) == *old(self),
    {
        if self.is_reduced() && other.is_reduced() {
            let r = self.minus(other);
            *self = r;
        }
    }
}

impl<'a> core::ops::Mul for &'a GT {
    type Output = GT;

    fn mul(self, other: &GT) -> (r: GT) {
        let r = self.times(other);
        proof {
            GT::lemma_view_injective(r, GT::with_value(fp12_mul(self@, other@)));
        }
        r
    }
}

impl<'a> vstd::std_specs::ops::MulSpecImpl for &'a GT {
    open spec fn obeys_mul_spec() -> bool {
        true
    }

    open spec fn mul_req(self, other: &'a GT) -> bool {
        self.wf() && other.wf()
    }

    open spec fn mul_spec(self, other: &'a GT) -> GT {
        GT::with_value(fp12_mul(self@, other@))
    }
}

impl<'a> core::ops::MulAssign<&'a GT> for GT {
    /// Where an operand is not fully reduced, `self` is left as it was.
    fn mul_assign(&mut self, other: &GT)
        ensures
            old(self).wf() && other.wf() ==> final(self).wf(),
            old(self).wf() && other.wf() ==> final(self)@ == fp12_mul(old(self)@, other@),
            !(old(self).wf() && other.wf()) ==> *final(self) == *old(self),
    {
        if self.is_reduced() && other.is_reduced() {
            let r = self.times(other);
            *self = r;
        }
    }
}

impl<'a> core::ops::Div for &'a GT {
    type Output = GT;

    fn div(self, other: &GT) -> (r: GT) {
        let r = self.times(&other.inverse());
        proof {
            GT::lemma_view_injective(r, GT::with_value(fp12_div(self@, other@)));
        }
        r
    }
}

impl<'a> vstd::std_specs::ops::DivSpecImpl for &'a GT {
    open spec fn obeys_div_spec() -> bool {
        true
    }

    open spec fn div_req(self, other: &'a GT) -> bool {
        self.wf() && other.wf()
    }

    open spec fn div_spec(self, other: &'a GT) -> GT {
        GT::with_value(fp12_div(self@, other@))
    }
}

impl<'a> core::ops::DivAssign<&'a GT> for GT {
    /// Where an operand is not fully reduced, `self` is left as it was.
    fn div_assign(&mut self, other: &GT)
        ensures
            old(self).wf() && other.wf() ==> final(self).wf(),
            old(self).wf() && other.wf() ==> final(self)@ == fp12_div(old(self)@, other@),
            !(old(self).wf() && other.wf()) ==> *final(self) == *old(self),
    {
        if self.is_reduced() && other.is_reduced() {
            let r = self.times(&other.inverse());
            *self = r;
        }
    }
}

} // verus!
