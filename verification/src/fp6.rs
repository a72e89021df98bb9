//! The cubic extension of `Fp2`: the numbers `c0 + c1 * v + c2 * v^2` with
//! `v^3 == 1 + u`. It is the middle floor of the tower under the target group.

use crate::fp2::{
    fp2_add, fp2_decode, fp2_encode, fp2_inv, fp2_mul, fp2_mul_xi, fp2_neg, fp2_reduced, fp2_sub,
    lemma_fp2_add_sub_cancel, lemma_fp2_decode_encode, F2, Fp2,
};
use vstd::prelude::*;
use vstd::slice::slice_subrange;

verus! {

/// The value of an element of the cubic extension.
pub type F6 = (F2, F2, F2);

/// Zero.
pub open spec fn fp6_zero() -> F6 {
    ((0nat, 0nat), (0nat, 0nat), (0nat, 0nat))
}

/// One.
pub open spec fn fp6_one() -> F6 {
    ((1nat, 0nat), (0nat, 0nat), (0nat, 0nat))
}

/// The sum: coefficient by coefficient.
pub open spec fn fp6_add(a: F6, b: F6) -> F6 {
    (fp2_add(a.0, b.0), fp2_add(a.1, b.1), fp2_add(a.2, b.2))
}

/// The difference: coefficient by coefficient.
pub open spec fn fp6_sub(a: F6, b: F6) -> F6 {
    (fp2_sub(a.0, b.0), fp2_sub(a.1, b.1), fp2_sub(a.2, b.2))
}

/// The negative: coefficient by coefficient.
pub open spec fn fp6_neg(a: F6) -> F6 {
    (fp2_neg(a.0), fp2_neg(a.1), fp2_neg(a.2))
}

/// The product of two polynomials in `v`, reduced by `v^3 == 1 + u`.
#[verifier::opaque]
pub open spec fn fp6_mul(a: F6, b: F6) -> F6 {
    (
        fp2_add(fp2_mul(a.0, b.0), fp2_mul_xi(fp2_add(fp2_mul(a.1, b.2), fp2_mul(a.2, b.1)))),
        fp2_add(fp2_add(fp2_mul(a.0, b.1), fp2_mul(a.1, b.0)), fp2_mul_xi(fp2_mul(a.2, b.2))),
        fp2_add(fp2_add(fp2_mul(a.0, b.2), fp2_mul(a.1, b.1)), fp2_mul(a.2, b.0)),
    )
}

/// The product with `v`.
pub open spec fn fp6_mul_v(a: F6) -> F6 {
    (fp2_mul_xi(a.2), a.0, a.1)
}

/// The inverse: the adjugate over the norm down to `Fp2`; zero where that
/// norm has no inverse.
#[verifier::opaque]
pub open spec fn fp6_inv(a: F6) -> F6 {
    let t0 = fp2_sub(fp2_mul(a.0, a.0), fp2_mul_xi(fp2_mul(a.1, a.2)));
    let t1 = fp2_sub(fp2_mul_xi(fp2_mul(a.2, a.2)), fp2_mul(a.0, a.1));
    let t2 = fp2_sub(fp2_mul(a.1, a.1), fp2_mul(a.0, a.2));
    let d = fp2_add(fp2_mul(a.0, t0), fp2_mul_xi(fp2_add(fp2_mul(a.2, t1), fp2_mul(a.1, t2))));
    let di = fp2_inv(d);
    (fp2_mul(t0, di), fp2_mul(t1, di), fp2_mul(t2, di))
}

/// The bytes of an element: those of `c0`, `c1` and `c2` in this order.
pub open spec fn fp6_encode(v: F6) -> Seq<u8> {
    fp2_encode(v.0) + fp2_encode(v.1) + fp2_encode(v.2)
}

/// The element that 288 bytes stand for, where each third stands for an
/// element of `Fp2`.
pub open spec fn fp6_decode(b: Seq<u8>) -> Option<F6> {
    if b.len() == 288 {
        match (
            fp2_decode(b.subrange(0, 96)),
            fp2_decode(b.subrange(96, 192)),
            fp2_decode(b.subrange(192, 288)),
        ) {
            (Some(c0), Some(c1), Some(c2)) => Some((c0, c1, c2)),
            _ => None,
        }
    } else {
        None
    }
}

/// An element of the cubic extension of `Fp2`.
#[derive(Clone, Copy, Debug)]
pub struct Fp6 {
    pub c0: Fp2,
    pub c1: Fp2,
    pub c2: Fp2,
}

impl View for Fp6 {
    type V = F6;

    /// The values of the three coefficients.
    open spec fn view(&self) -> F6 {
        (self.c0@, self.c1@, self.c2@)
    }
}

impl Fp6 {
    /// The three coefficients are fully reduced.
    pub open spec fn wf(&self) -> bool {
        self.c0.wf() && self.c1.wf() && self.c2.wf()
    }

    /// Elements with one value are one element.
    pub proof fn lemma_view_injective(x: Fp6, y: Fp6)
        requires
            x@ == y@,
        ensures
            x == y,
    {
        Fp2::lemma_view_injective(x.c0, y.c0);
        Fp2::lemma_view_injective(x.c1, y.c1);
        Fp2::lemma_view_injective(x.c2, y.c2);
    }

    /// The zero element.
    pub fn zero() -> (r: Fp6)
        ensures
            r@ == fp6_zero(),
            r.wf(),
    {
        Fp6 { c0: Fp2::zero(), c1: Fp2::zero(), c2: Fp2::zero() }
    }

    /// The one element.
    pub fn one() -> (r: Fp6)
        ensures
            r@ == fp6_one(),
            r.wf(),
    {
        Fp6 { c0: Fp2::one(), c1: Fp2::zero(), c2: Fp2::zero() }
    }

    /// Whether the two elements have one value.
    pub fn same(&self, y: &Fp6) -> (r: bool)
        ensures
            r == (self@ == y@),
    {
        self.c0 == y.c0 && self.c1 == y.c1 && self.c2 == y.c2
    }

    /// Whether the three coefficients are fully reduced.
    pub fn is_valid(&self) -> (r: bool)
        ensures
            r == self.wf(),
    {
        self.c0.is_valid() && self.c1.is_valid() && self.c2.is_valid()
    }

    /// `self + y`.
    pub fn plus(&self, y: &Fp6) -> (r: Fp6)
        requires
            self.wf(),
            y.wf(),
        ensures
            r.wf(),
            r@ == fp6_add(self@, y@),
    {
        Fp6 { c0: self.c0.plus(&y.c0), c1: self.c1.plus(&y.c1), c2: self.c2.plus(&y.c2) }
    }

    /// `self - y`.
    pub fn minus(&self, y: &Fp6) -> (r: Fp6)
        requires
            self.wf(),
            y.wf(),
        ensures
            r.wf(),
            r@ == fp6_sub(self@, y@),
    {
        Fp6 { c0: self.c0.minus(&y.c0), c1: self.c1.minus(&y.c1), c2: self.c2.minus(&y.c2) }
    }

    /// `-self`.
    pub fn negated(&self) -> (r: Fp6)
        requires
            self.wf(),
        ensures
            r.wf(),
            r@ == fp6_neg(self@),
    {
        Fp6 { c0: self.c0.negated(), c1: self.c1.negated(), c2: self.c2.negated() }
    }

    /// `self * y`.
    pub fn times(&self, y: &Fp6) -> (r: Fp6)
        requires
            self.wf(),
            y.wf(),
        ensures
            r.wf(),
            r@ == fp6_mul(self@, y@),
    {
        proof {
            reveal(fp6_mul);
        }
        let a0 = &self.c0;
        let a1 = &self.c1;
        let a2 = &self.c2;
        let c0 = a0.times(&y.c0).plus(&a1.times(&y.c2).plus(&a2.times(&y.c1)).times_xi());
        let c1 = a0.times(&y.c1).plus(&a1.times(&y.c0)).plus(&a2.times(&y.c2).times_xi());
        let c2 = a0.times(&y.c2).plus(&a1.times(&y.c1)).plus(&a2.times(&y.c0));
        Fp6 { c0, c1, c2 }
    }

    /// `self * v`.
    pub fn times_v(&self) -> (r: Fp6)
        requires
            self.wf(),
        ensures
            r.wf(),
            r@ == fp6_mul_v(self@),
    {
        Fp6 { c0: self.c2.times_xi(), c1: self.c0, c2: self.c1 }
    }

    /// `1 / self`, and zero where the norm of `self` has no inverse.
    pub fn inverse(&self) -> (r: Fp6)
        requires
            self.wf(),
        ensures
            r.wf(),
            r@ == fp6_inv(self@),
    {
        proof {
            reveal(fp6_inv);
        }
        let a0 = &self.c0;
        let a1 = &self.c1;
        let a2 = &self.c2;
        let t0 = a0.times(a0).minus(&a1.times(a2).times_xi());
        let t1 = a2.times(a2).times_xi().minus(&a0.times(a1));
        let t2 = a1.times(a1).minus(&a0.times(a2));
        let d = a0.times(&t0).plus(&a2.times(&t1).plus(&a1.times(&t2)).times_xi());
        let di = d.inverse();
        Fp6 { c0: t0.times(&di), c1: t1.times(&di), c2: t2.times(&di) }
    }

    /// The element's bytes.
    pub fn serialize(&self) -> (out: Vec<u8>)
        ensures
            out@ == fp6_encode(self@),
    {
        let mut out = self.c0.serialize();
        let b1 = self.c1.serialize();
        let b2 = self.c2.serialize();
        out.extend_from_slice(b1.as_slice());
        out.extend_from_slice(b2.as_slice());
        proof {
            assert(out@ =~= fp6_encode(self@));
        }
        out
    }

    /// The element that the bytes stand for, if they stand for one.
    pub fn deserialize(buf: &[u8]) -> (r: Option<Fp6>)
        ensures
            r is Some <==> fp6_decode(buf@) is Some,
            r matches Some(v) ==> v.wf() && fp6_decode(buf@) == Some(v@),
    {
        if buf.len() != 288 {
            return None;
        }
        let mut c0 = Fp2::zero();
        let mut c1 = Fp2::zero();
        let mut c2 = Fp2::zero();
        if !c0.deserialize(slice_subrange(buf, 0, 96)) {
            return None;
        }
        if !c1.deserialize(slice_subrange(buf, 96, 192)) {
            return None;
        }
        if !c2.deserialize(slice_subrange(buf, 192, 288)) {
            return None;
        }
        Some(Fp6 { c0, c1, c2 })
    }
}

/// Whether the three coefficients of a value are fully reduced.
pub open spec fn fp6_reduced(a: F6) -> bool {
    fp2_reduced(a.0) && fp2_reduced(a.1) && fp2_reduced(a.2)
}

/// Adding and then subtracting `y` gives `x` back, for values.
pub proof fn lemma_fp6_add_sub_cancel(x: F6, y: F6)
    requires
        fp6_reduced(x),
    ensures
        fp6_sub(fp6_add(x, y), y) == x,
{
    lemma_fp2_add_sub_cancel(x.0, y.0);
    lemma_fp2_add_sub_cancel(x.1, y.1);
    lemma_fp2_add_sub_cancel(x.2, y.2);
}

/// Decoding the encoding of a value gives the value back.
pub proof fn lemma_fp6_decode_encode(x: F6)
    requires
        fp6_reduced(x),
    ensures
        fp6_encode(x).len() == 288,
        fp6_decode(fp6_encode(x)) == Some(x),
{
    let b = fp6_encode(x);
    lemma_fp2_decode_encode(x.0);
    lemma_fp2_decode_encode(x.1);
    lemma_fp2_decode_encode(x.2);
    assert(b.subrange(0, 96) =~= fp2_encode(x.0));
    assert(b.subrange(96, 192) =~= fp2_encode(x.1));
    assert(b.subrange(192, 288) =~= fp2_encode(x.2));
}

} // verus!
