//! The quadratic extension of the base field: the numbers `c0 + c1 * u` with
//! `u * u == -1`.

use crate::bytes::{lemma_le_encode_val, lemma_pow256_radix};
use crate::fp::{
    fp_add, fp_decode, fp_encode, fp_format_list, fp_halve, fp_hash, fp_inv, fp_modulus, fp_mul,
    fp_neg, fp_parse_list, fp_sqrt, fp_sub, fp_values, lemma_fp_list_roundtrip, Fp,
};
use crate::hash::{expand, expand_message};
use crate::limbs::radix;
use crate::modmath::{
    cong, has_inverse, is_prime, lemma_add_sub_cancel, lemma_cong_add, lemma_cong_eq,
    lemma_cong_refl, lemma_cong_rem, lemma_cong_sym, lemma_cong_times, lemma_cong_trans,
    lemma_mod_inv_is_inverse, lemma_mod_ops_cong, lemma_prime_has_inverse, lesser_root,
};
use crate::text::{split_words, views_of, words};
use vstd::arithmetic::div_mod::{lemma_mod_bound, lemma_small_mod};
use vstd::prelude::*;
use vstd::slice::slice_subrange;
use vstd::std_specs::cmp::PartialEqSpecImpl;

verus! {

/// The value of an element: the components `(c0, c1)` of `c0 + c1 * u`.
pub type F2 = (nat, nat);

/// The sum: component by component.
pub open spec fn fp2_add(a: F2, b: F2) -> F2 {
    (fp_add(a.0, b.0), fp_add(a.1, b.1))
}

/// The difference: component by component.
pub open spec fn fp2_sub(a: F2, b: F2) -> F2 {
    (fp_sub(a.0, b.0), fp_sub(a.1, b.1))
}

/// The negative: component by component.
pub open spec fn fp2_neg(a: F2) -> F2 {
    (fp_neg(a.0), fp_neg(a.1))
}

/// The product: `(a0 + a1 u)(b0 + b1 u) = (a0 b0 - a1 b1) + (a0 b1 + a1 b0) u`.
pub open spec fn fp2_mul(a: F2, b: F2) -> F2 {
    (fp_sub(fp_mul(a.0, b.0), fp_mul(a.1, b.1)), fp_add(fp_mul(a.0, b.1), fp_mul(a.1, b.0)))
}

/// The square.
pub open spec fn fp2_sqr(a: F2) -> F2 {
    fp2_mul(a, a)
}

/// The norm down to the base field: `a0 * a0 + a1 * a1`.
pub open spec fn fp2_norm(a: F2) -> nat {
    fp_add(fp_mul(a.0, a.0), fp_mul(a.1, a.1))
}

/// The inverse: the conjugate over the norm; zero where the norm has no
/// inverse.
pub open spec fn fp2_inv(a: F2) -> F2 {
    let ni = fp_inv(fp2_norm(a));
    (fp_mul(a.0, ni), fp_neg(fp_mul(a.1, ni)))
}

/// The quotient: `a` times the inverse of `b`.
pub open spec fn fp2_div(a: F2, b: F2) -> F2 {
    fp2_mul(a, fp2_inv(b))
}

/// The product with the base-field value `k`.
pub open spec fn fp2_scale(a: F2, k: nat) -> F2 {
    (fp_mul(a.0, k), fp_mul(a.1, k))
}

/// The product with `1 + u`, the number that the tower above is built on.
pub open spec fn fp2_mul_xi(a: F2) -> F2 {
    (fp_sub(a.0, a.1), fp_add(a.0, a.1))
}

/// The square root that the search settles on, where it finds one: for a
/// number of the base field, its root or the root of its negative times `u`;
/// else the root built from a root of the norm. What is found is a square
/// root.
pub open spec fn fp2_sqrt(a: F2) -> Option<F2> {
    let found = if a.1 == 0 {
        match fp_sqrt(a.0) {
            Some(s) => Some((s, 0nat)),
            None => match fp_sqrt(fp_neg(a.0)) {
                Some(s) => Some((0nat, s)),
                None => None,
            },
        }
    } else {
        match fp_sqrt(fp2_norm(a)) {
            None => None,
            Some(s) => {
                let x0 = match fp_sqrt(fp_halve(fp_add(a.0, s))) {
                    Some(v) => Some(v),
                    None => fp_sqrt(fp_halve(fp_sub(a.0, s))),
                };
                match x0 {
                    None => None,
                    Some(x0) => Some((x0, fp_mul(a.1, fp_inv(fp_add(x0, x0))))),
                }
            },
        }
    };
    match found {
        Some(y) => if fp2_mul(y, y) == a {
            Some(y)
        } else {
            None
        },
        None => None,
    }
}

/// The sign of an ordinate, by which a point is told from its opposite: the
/// parity of `c0`, and that of `c1` where `c0` is zero.
pub open spec fn fp2_sign(y: F2) -> bool {
    if y.0 != 0 {
        y.0 % 2 == 1
    } else {
        y.1 % 2 == 1
    }
}

/// The abscissa that a message hashes to, before the search for a point: `c0`
/// is what the message hashes to, `c1` what the expanded message hashes to.
pub open spec fn fp2_hash_point(msg: Seq<u8>) -> F2 {
    (fp_hash(msg), fp_hash(expand_message(msg)))
}

/// The abscissa that is tried after `x` in the search for a point.
pub open spec fn fp2_next(x: F2) -> F2 {
    (fp_add(x.0, 1), x.1)
}

/// The bytes of an element: those of `c0`, then those of `c1`.
pub open spec fn fp2_encode(v: F2) -> Seq<u8> {
    fp_encode(v.0) + fp_encode(v.1)
}

/// The element that 96 bytes stand for, where each half stands for an element
/// of the base field.
pub open spec fn fp2_decode(b: Seq<u8>) -> Option<F2> {
    if b.len() == 96 {
        match (fp_decode(b.subrange(0, 48)), fp_decode(b.subrange(48, 96))) {
            (Some(c0), Some(c1)) => Some((c0, c1)),
            _ => None,
        }
    } else {
        None
    }
}

/// The two components of a value, in the order of their bytes and words.
pub open spec fn fp2_coeffs(v: F2) -> Seq<nat> {
    seq![v.0, v.1]
}

/// The text of an element: the texts of `c0` and `c1`, with a space between.
pub open spec fn fp2_format(v: F2, b: nat) -> Seq<char> {
    fp_format_list(fp2_coeffs(v), b)
}

/// The element that a text stands for in base 10 or 16: the text has two
/// words, which stand for `c0` and `c1`.
pub open spec fn fp2_parse(s: Seq<char>, b: int) -> Option<F2> {
    match fp_parse_list(words(s), b) {
        Some(c) => if c.len() == 2 {
            Some((c[0], c[1]))
        } else {
            None
        },
        None => None,
    }
}

/// An element of the quadratic extension of the base field.
#[derive(Clone, Copy, Debug)]
pub struct Fp2 {
    d: [Fp; 2],
}

impl View for Fp2 {
    type V = F2;

    /// The components `(c0, c1)` of `c0 + c1 * u`.
    closed spec fn view(&self) -> F2 {
        (self.d[0]@, self.d[1]@)
    }
}

impl PartialEq for Fp2 {
    fn eq(&self, rhs: &Self) -> (r: bool) {
        proof {
            if self@ == rhs@ {
                Fp::lemma_view_injective(self.d[0], rhs.d[0]);
                Fp::lemma_view_injective(self.d[1], rhs.d[1]);
            }
        }
        self.d[0] == rhs.d[0] && self.d[1] == rhs.d[1]
    }
}

impl PartialEqSpecImpl for Fp2 {
    open spec fn obeys_eq_spec() -> bool {
        true
    }

    open spec fn eq_spec(&self, rhs: &Self) -> bool {
        self@ == rhs@
    }
}

impl Default for Fp2 {
    fn default() -> (r: Fp2)
        ensures
            r@ == (0nat, 0nat),
            r.wf(),
    {
        Fp2::zero()
    }
}

impl Fp2 {
    /// Both components are fully reduced.
    pub open spec fn wf(&self) -> bool {
        self@.0 < fp_modulus() && self@.1 < fp_modulus()
    }

    /// Elements with one value are one element.
    pub proof fn lemma_view_injective(x: Fp2, y: Fp2)
        requires
            x@ == y@,
        ensures
            x == y,
    {
        Fp::lemma_view_injective(x.d[0], y.d[0]);
        Fp::lemma_view_injective(x.d[1], y.d[1]);
        assert(x.d@ =~= y.d@);
        assert(x.d == y.d);
    }

    /// The element `c0 + c1 * u`.
    pub fn new(c0: Fp, c1: Fp) -> (r: Fp2)
        ensures
            r@ == (c0@, c1@),
    {
        Fp2 { d: [c0, c1] }
    }

    /// The component `c0`.
    pub fn c0(&self) -> (r: Fp)
        ensures
            r@ == self@.0,
    {
        self.d[0]
    }

    /// The component `c1`.
    pub fn c1(&self) -> (r: Fp)
        ensures
            r@ == self@.1,
    {
        self.d[1]
    }

    /// The zero element.
    pub fn zero() -> (r: Fp2)
        ensures
            r@ == (0nat, 0nat),
            r.wf(),
    {
        Fp2 { d: [Fp::zero(), Fp::zero()] }
    }

    /// The one element.
    pub fn one() -> (r: Fp2)
        ensures
            r@ == (1nat, 0nat),
            r.wf(),
    {
        Fp2 { d: [Fp::one(), Fp::zero()] }
    }

    /// A placeholder for a value that is about to be overwritten: the zero
    /// element.
    pub fn uninit() -> (r: Fp2)
        ensures
            r@ == (0nat, 0nat),
            r.wf(),
    {
        Fp2::zero()
    }

    /// Sets the element to zero.
    pub fn clear(&mut self)
        ensures
            final(self)@ == (0nat, 0nat),
            final(self).wf(),
    {
        *self = Fp2::zero();
    }

    /// Whether the element is zero.
    pub fn is_zero(&self) -> (r: bool)
        ensures
            r == (self@ == (0nat, 0nat)),
    {
        self.d[0].is_zero() && self.d[1].is_zero()
    }

    /// Whether both components are fully reduced.
    pub fn is_valid(&self) -> (r: bool)
        ensures
            r == self.wf(),
    {
        self.d[0].is_valid() && self.d[1].is_valid()
    }

    /// The sign of the element as an ordinate.
    pub fn sign_bit(&self) -> (r: bool)
        ensures
            r == fp2_sign(self@),
    {
        if !self.d[0].is_zero() {
            self.d[0].is_odd()
        } else {
            self.d[1].is_odd()
        }
    }

    /// The abscissa that a message hashes to.
    pub fn hash_point(msg: &[u8]) -> (r: Fp2)
        ensures
            r.wf(),
            r@ == fp2_hash_point(msg@),
    {
        let mut c0 = Fp::zero();
        let mut c1 = Fp::zero();
        c0.set_hash_of(msg);
        let e = expand(msg);
        c1.set_hash_of(e.as_slice());
        Fp2 { d: [c0, c1] }
    }

    /// The element after this one in the search for a point.
    pub fn successor(&self) -> (r: Fp2)
        requires
            self.wf(),
        ensures
            r.wf(),
            r@ == fp2_next(self@),
    {
        Fp2 { d: [self.d[0].plus(&Fp::one()), self.d[1]] }
    }

    /// `self + y`.
    pub fn plus(&self, y: &Fp2) -> (r: Fp2)
        requires
            self.wf(),
            y.wf(),
        ensures
            r.wf(),
            r@ == fp2_add(self@, y@),
    {
        Fp2 { d: [self.d[0].plus(&y.d[0]), self.d[1].plus(&y.d[1])] }
    }

    /// `self - y`.
    pub fn minus(&self, y: &Fp2) -> (r: Fp2)
        requires
            self.wf(),
            y.wf(),
        ensures
            r.wf(),
            r@ == fp2_sub(self@, y@),
    {
        Fp2 { d: [self.d[0].minus(&y.d[0]), self.d[1].minus(&y.d[1])] }
    }

    /// `-self`.
    pub fn negated(&self) -> (r: Fp2)
        requires
            self.wf(),
        ensures
            r.wf(),
            r@ == fp2_neg(self@),
    {
        Fp2 { d: [self.d[0].negated(), self.d[1].negated()] }
    }

    /// `self * y`.
    pub fn times(&self, y: &Fp2) -> (r: Fp2)
        requires
            self.wf(),
            y.wf(),
        ensures
            r.wf(),
            r@ == fp2_mul(self@, y@),
    {
        let a0b0 = self.d[0].times(&y.d[0]);
        let a1b1 = self.d[1].times(&y.d[1]);
        let a0b1 = self.d[0].times(&y.d[1]);
        let a1b0 = self.d[1].times(&y.d[0]);
        Fp2 { d: [a0b0.minus(&a1b1), a0b1.plus(&a1b0)] }
    }

    /// `self * self`.
    pub fn squared(&self) -> (r: Fp2)
        requires
            self.wf(),
        ensures
            r.wf(),
            r@ == fp2_mul(self@, self@),
    {
        self.times(self)
    }

    /// `self * k` for `k` of the base field.
    pub fn scaled(&self, k: &Fp) -> (r: Fp2)
        requires
            self.wf(),
            k.wf(),
        ensures
            r.wf(),
            r@ == fp2_scale(self@, k@),
    {
        Fp2 { d: [self.d[0].times(k), self.d[1].times(k)] }
    }

    /// `self * (1 + u)`.
    pub fn times_xi(&self) -> (r: Fp2)
        requires
            self.wf(),
        ensures
            r.wf(),
            r@ == fp2_mul_xi(self@),
    {
        Fp2 { d: [self.d[0].minus(&self.d[1]), self.d[0].plus(&self.d[1])] }
    }

    /// `1 / self`, and zero where the norm of `self` has no inverse.
    pub fn inverse(&self) -> (r: Fp2)
        requires
            self.wf(),
        ensures
            r.wf(),
            r@ == fp2_inv(self@),
    {
        let n = self.d[0].squared().plus(&self.d[1].squared());
        let ni = n.inverse();
        Fp2 { d: [self.d[0].times(&ni), self.d[1].times(&ni).negated()] }
    }

    /// The square root of `self` that the search settles on, where it finds
    /// one.
    pub fn sqrt(&self) -> (r: Option<Fp2>)
        requires
            self.wf(),
        ensures
            r is Some <==> fp2_sqrt(self@) is Some,
            r matches Some(v) ==> v.wf() && fp2_sqrt(self@) == Some(v@) && fp2_mul(v@, v@)
                == self@,
    {
        let a0 = self.d[0];
        let a1 = self.d[1];
        let found: Option<Fp2> = if a1.is_zero() {
            match a0.sqrt() {
                Some(s) => Some(Fp2 { d: [s, Fp::zero()] }),
                None => match a0.negated().sqrt() {
                    Some(s) => Some(Fp2 { d: [Fp::zero(), s] }),
                    None => None,
                },
            }
        } else {
            let n = a0.squared().plus(&a1.squared());
            match n.sqrt() {
                None => None,
                Some(s) => {
                    let x0 = match a0.plus(&s).halved().sqrt() {
                        Some(v) => Some(v),
                        None => a0.minus(&s).halved().sqrt(),
                    };
                    match x0 {
                        None => None,
                        Some(x0) => {
                            let x1 = a1.times(&x0.plus(&x0).inverse());
                            Some(Fp2 { d: [x0, x1] })
                        },
                    }
                },
            }
        };
        match found {
            Some(y) => {
                let sq = y.squared();
                if sq == *self {
                    Some(y)
                } else {
                    None
                }
            },
            None => None,
        }
    }

    /// `z = x + y`.
    pub fn add(z: &mut Fp2, x: &Fp2, y: &Fp2)
        requires
            x.wf(),
            y.wf(),
        ensures
            final(z).wf(),
            final(z)@ == fp2_add(x@, y@),
    {
        *z = x.plus(y);
    }

    /// `z = x - y`.
    pub fn sub(z: &mut Fp2, x: &Fp2, y: &Fp2)
        requires
            x.wf(),
            y.wf(),
        ensures
            final(z).wf(),
            final(z)@ == fp2_sub(x@, y@),
    {
        *z = x.minus(y);
    }

    /// `y = -x`.
    pub fn neg(y: &mut Fp2, x: &Fp2)
        requires
            x.wf(),
        ensures
            final(y).wf(),
            final(y)@ == fp2_neg(x@),
    {
        *y = x.negated();
    }

    /// `z = x * y`.
    pub fn mul(z: &mut Fp2, x: &Fp2, y: &Fp2)
        requires
            x.wf(),
            y.wf(),
        ensures
            final(z).wf(),
            final(z)@ == fp2_mul(x@, y@),
    {
        *z = x.times(y);
    }

    /// `y = x^2`.
    pub fn sqr(y: &mut Fp2, x: &Fp2)
        requires
            x.wf(),
        ensures
            final(y).wf(),
            final(y)@ == fp2_sqr(x@),
    {
        *y = x.squared();
    }

    /// `y = 1 / x`, and zero where the norm of `x` has no inverse, as that of
    /// zero has none.
    pub fn inv(y: &mut Fp2, x: &Fp2)
        requires
            x.wf(),
        ensures
            final(y).wf(),
            final(y)@ == fp2_inv(x@),
    {
        *y = x.inverse();
    }

    /// `z = x / y`: `x` times the inverse of `y`.
    pub fn div(z: &mut Fp2, x: &Fp2, y: &Fp2)
        requires
            x.wf(),
            y.wf(),
        ensures
            final(z).wf(),
            final(z)@ == fp2_div(x@, y@),
    {
        *z = x.times(&y.inverse());
    }

    /// `y` = the square root of `x` that the search settles on, where it finds
    /// one; else `y` is left as it was.
    pub fn square_root(y: &mut Fp2, x: &Fp2) -> (ok: bool)
        requires
            x.wf(),
        ensures
            ok <==> fp2_sqrt(x@) is Some,
            ok ==> final(y).wf() && fp2_sqrt(x@) == Some(final(y)@) && fp2_mul(
                final(y)@,
                final(y)@,
            ) == x@,
            !ok ==> *final(y) == *old(y),
    {
        match x.sqrt() {
            Some(v) => {
                *y = v;
                true
            },
            None => false,
        }
    }

    /// The element's text in base 10 or 16.
    pub fn get_str(&self, io_mode: i32) -> (s: String)
        requires
            io_mode == 10 || io_mode == 16,
        ensures
            s@ == fp2_format(self@, io_mode as nat),
    {
        proof {
            assert(fp_values(self.d@) =~= fp2_coeffs(self@));
        }
        Fp::format_list(self.d.as_slice(), io_mode)
    }

    /// Sets the element from text in base 10 or 16. Where the text stands for
    /// no element, the element is left as it was.
    pub fn set_str(&mut self, s: &str, base: i32) -> (ok: bool)
        ensures
            ok <==> fp2_parse(s@, base as int) is Some,
            ok ==> final(self).wf() && fp2_parse(s@, base as int) == Some(final(self)@),
            !ok ==> *final(self) == *old(self),
    {
        let ws = split_words(s);
        proof {
            assert(views_of(ws@).skip(0) =~= words(s@));
        }
        match Fp::parse_list(&ws, 0, base) {
            Some(v) => {
                if v.len() != 2 {
                    return false;
                }
                *self = Fp2 { d: [v[0], v[1]] };
                true
            },
            None => false,
        }
    }

    /// The element that the text stands for, if it stands for one.
    pub fn from_str(s: &str, base: i32) -> (r: Option<Fp2>)
        ensures
            r is Some <==> fp2_parse(s@, base as int) is Some,
            r matches Some(v) ==> v.wf() && fp2_parse(s@, base as int) == Some(v@),
    {
        let mut v = Fp2::zero();
        if v.set_str(s, base) {
            Some(v)
        } else {
            None
        }
    }

    /// The element's bytes.
    pub fn serialize(&self) -> (out: Vec<u8>)
        ensures
            out@ == fp2_encode(self@),
    {
        let mut out = self.d[0].serialize();
        let hi = self.d[1].serialize();
        out.extend_from_slice(hi.as_slice());
        proof {
            assert(out@ =~= fp2_encode(self@));
        }
        out
    }

    /// Sets the element from its bytes. Where the bytes stand for no element,
    /// the element is left as it was.
    pub fn deserialize(&mut self, buf: &[u8]) -> (ok: bool)
        ensures
            ok <==> fp2_decode(buf@) is Some,
            ok ==> final(self).wf() && fp2_decode(buf@) == Some(final(self)@),
            !ok ==> *final(self) == *old(self),
    {
        if buf.len() != 96 {
            return false;
        }
        let mut c0 = Fp::zero();
        let mut c1 = Fp::zero();
        if !c0.deserialize(slice_subrange(buf, 0, 48)) {
            return false;
        }
        if !c1.deserialize(slice_subrange(buf, 48, 96)) {
            return false;
        }
        *self = Fp2 { d: [c0, c1] };
        true
    }
}

/// Whether both components of a value are fully reduced.
pub open spec fn fp2_reduced(a: F2) -> bool {
    a.0 < fp_modulus() && a.1 < fp_modulus()
}

/// Adding and then subtracting `y` gives `x` back, for values.
pub proof fn lemma_fp2_add_sub_cancel(x: F2, y: F2)
    requires
        fp2_reduced(x),
    ensures
        fp2_sub(fp2_add(x, y), y) == x,
{
    lemma_add_sub_cancel(x.0, y.0, fp_modulus());
    lemma_add_sub_cancel(x.1, y.1, fp_modulus());
}

/// Decoding the encoding of a value gives the value back.
pub proof fn lemma_fp2_decode_encode(x: F2)
    requires
        fp2_reduced(x),
    ensures
        fp2_encode(x).len() == 96,
        fp2_decode(fp2_encode(x)) == Some(x),
{
    let b = fp2_encode(x);
    lemma_pow256_radix(6);
    reveal_with_fuel(radix, 7);
    lemma_le_encode_val(x.0, 48);
    lemma_le_encode_val(x.1, 48);
    assert(b.subrange(0, 48) =~= fp_encode(x.0));
    assert(b.subrange(48, 96) =~= fp_encode(x.1));
}

/// Reading an element's text gives the element back, in base 10 and 16.
pub proof fn lemma_fp2_text_roundtrip(x: Fp2, base: int)
    requires
        x.wf(),
        base == 10 || base == 16,
    ensures
        fp2_parse(fp2_format(x@, base as nat), base) == Some(x@),
{
    lemma_fp_list_roundtrip(fp2_coeffs(x@), base);
}

/// The square is the product with itself.
pub proof fn lemma_fp2_sqr_is_mul(x: Fp2)
    requires
        x.wf(),
    ensures
        fp2_sqr(x@) == fp2_mul(x@, x@),
{
}

/// What `square_root` returns is a square root, and so is its negative.
pub proof fn lemma_fp2_both_roots(x: Fp2)
    requires
        x.wf(),
        fp2_sqrt(x@) is Some,
    ensures
        fp2_sqr(fp2_sqrt(x@)->0) == x@,
        fp2_sqr(fp2_neg(fp2_sqrt(x@)->0)) == x@,
{
    let y = fp2_sqrt(x@)->0;
    let p = fp_modulus();
    crate::modmath::lemma_neg_neg_mul(y.0, y.0, p);
    crate::modmath::lemma_neg_neg_mul(y.1, y.1, p);
    crate::modmath::lemma_neg_neg_mul(y.0, y.1, p);
    crate::modmath::lemma_neg_neg_mul(y.1, y.0, p);
}

/// The identity of polynomials under the division law: `(x * y)` times the
/// conjugate of `y` times `k` is `x` times the norm of `y` times `k`.
proof fn lemma_fp2_quotient_identity(a: int, b: int, c: int, d: int, k: int)
    ensures
        (a * c - b * d) * (c * k) - (a * d + b * c) * (0 - d * k) == a * ((c * c + d * d) * k),
        (a * c - b * d) * (0 - d * k) + (a * d + b * c) * (c * k) == b * ((c * c + d * d) * k),
{
    let ac = a * c;
    let bd = b * d;
    let ad = a * d;
    let bc = b * c;
    let ck = c * k;
    let dk = d * k;
    assert((ac - bd) * ck == ac * ck - bd * ck) by (nonlinear_arith);
    assert((ad + bc) * (0 - dk) == 0 - ad * dk - bc * dk) by (nonlinear_arith);
    assert((ac - bd) * (0 - dk) == bd * dk - ac * dk) by (nonlinear_arith);
    assert((ad + bc) * ck == ad * ck + bc * ck) by (nonlinear_arith);
    assert(bd * ck == bc * dk) by (nonlinear_arith)
        requires
            bd == b * d,
            ck == c * k,
            bc == b * c,
            dk == d * k,
    ;
    assert(ac * dk == ad * ck) by (nonlinear_arith)
        requires
            ac == a * c,
            ck == c * k,
            ad == a * d,
            dk == d * k,
    ;
    assert(ac * ck == a * (c * ck)) by (nonlinear_arith)
        requires
            ac == a * c,
    ;
    assert(ad * dk == a * (d * dk)) by (nonlinear_arith)
        requires
            ad == a * d,
    ;
    assert(bd * dk == b * (d * dk)) by (nonlinear_arith)
        requires
            bd == b * d,
    ;
    assert(bc * ck == b * (c * ck)) by (nonlinear_arith)
        requires
            bc == b * c,
    ;
    let s = c * ck + d * dk;
    assert(s == (c * c + d * d) * k) by (nonlinear_arith)
        requires
            s == c * ck + d * dk,
            ck == c * k,
            dk == d * k,
    ;
    assert(a * (c * ck) + a * (d * dk) == a * s) by (nonlinear_arith)
        requires
            s == c * ck + d * dk,
    ;
    assert(b * (d * dk) + b * (c * ck) == b * s) by (nonlinear_arith)
        requires
            s == c * ck + d * dk,
    ;
}

/// Multiplying and then dividing by `y` gives `x` back, for every `y` whose
/// norm has an inverse.
pub proof fn lemma_fp2_mul_then_div(x: Fp2, y: Fp2)
    requires
        x.wf(),
        y.wf(),
        has_inverse(fp2_norm(y@), fp_modulus()),
    ensures
        fp2_div(fp2_mul(x@, y@), y@) == x@,
{
    let p = fp_modulus();
    let m = p as int;
    let x0 = x@.0;
    let x1 = x@.1;
    let y0 = y@.0;
    let y1 = y@.1;
    let n = fp2_norm(y@);
    let ni = fp_inv(n);
    lemma_mod_inv_is_inverse(n, p);
    lemma_cong_refl(x0 as int, m);
    lemma_cong_refl(x1 as int, m);
    lemma_cong_refl(y0 as int, m);
    lemma_cong_refl(y1 as int, m);
    lemma_cong_refl(ni as int, m);
    lemma_cong_refl(0, m);
    // the norm
    let sq0 = y0 * y0;
    let sq1 = y1 * y1;
    lemma_mod_ops_cong(y0, y0 as int, y0, y0 as int, p);
    lemma_mod_ops_cong(y1, y1 as int, y1, y1 as int, p);
    lemma_mod_ops_cong(fp_mul(y0, y0), sq0 as int, fp_mul(y1, y1), sq1 as int, p);
    let big_n = sq0 as int + sq1 as int;
    // the inverse of y
    let e_i0 = y0 as int * ni as int;
    let e_t = y1 as int * ni as int;
    lemma_mod_ops_cong(y0, y0 as int, ni, ni as int, p);
    lemma_mod_ops_cong(y1, y1 as int, ni, ni as int, p);
    lemma_mod_ops_cong(0, 0, fp_mul(y1, ni), e_t, p);
    let i0 = fp_mul(y0, ni);
    let i1 = fp_neg(fp_mul(y1, ni));
    let e_i1 = 0 - e_t;
    // the product x * y
    let e_a = x0 as int * y0 as int;
    let e_b = x1 as int * y1 as int;
    let e_c = x0 as int * y1 as int;
    let e_d = x1 as int * y0 as int;
    lemma_mod_ops_cong(x0, x0 as int, y0, y0 as int, p);
    lemma_mod_ops_cong(x1, x1 as int, y1, y1 as int, p);
    lemma_mod_ops_cong(x0, x0 as int, y1, y1 as int, p);
    lemma_mod_ops_cong(x1, x1 as int, y0, y0 as int, p);
    lemma_mod_ops_cong(fp_mul(x0, y0), e_a, fp_mul(x1, y1), e_b, p);
    lemma_mod_ops_cong(fp_mul(x0, y1), e_c, fp_mul(x1, y0), e_d, p);
    let m0 = fp_sub(fp_mul(x0, y0), fp_mul(x1, y1));
    let m1 = fp_add(fp_mul(x0, y1), fp_mul(x1, y0));
    let e_m0 = e_a - e_b;
    let e_m1 = e_c + e_d;
    // the quotient (x * y) * (1 / y)
    lemma_mod_ops_cong(m0, e_m0, i0, e_i0, p);
    lemma_mod_ops_cong(m1, e_m1, i1, e_i1, p);
    lemma_mod_ops_cong(m0, e_m0, i1, e_i1, p);
    lemma_mod_ops_cong(m1, e_m1, i0, e_i0, p);
    lemma_mod_ops_cong(fp_mul(m0, i0), e_m0 * e_i0, fp_mul(m1, i1), e_m1 * e_i1, p);
    lemma_mod_ops_cong(fp_mul(m0, i1), e_m0 * e_i1, fp_mul(m1, i0), e_m1 * e_i0, p);
    let r0 = fp_sub(fp_mul(m0, i0), fp_mul(m1, i1));
    let r1 = fp_add(fp_mul(m0, i1), fp_mul(m1, i0));
    let unit = big_n * (ni as int);
    lemma_fp2_quotient_identity(x0 as int, x1 as int, y0 as int, y1 as int, ni as int);
    // the norm times its inverse is one
    lemma_cong_times(n as int, big_n, ni as int, ni as int, m);
    lemma_cong_sym((n * ni) as int, unit, m);
    lemma_cong_rem((n * ni) as int, m);
    lemma_cong_sym(((n * ni) % p) as int, (n * ni) as int, m);
    lemma_cong_trans(unit, (n * ni) as int, 1, m);
    lemma_cong_times(x0 as int, x0 as int, unit, 1, m);
    lemma_cong_times(x1 as int, x1 as int, unit, 1, m);
    lemma_cong_trans(r0 as int, (x0 as int) * unit, (x0 as int) * 1, m);
    lemma_cong_trans(r1 as int, (x1 as int) * unit, (x1 as int) * 1, m);
    lemma_mod_bound(fp_mul(m0, i0) as int - fp_mul(m1, i1) as int, m);
    lemma_mod_bound((fp_mul(m0, i1) + fp_mul(m1, i0)) as int, m);
    lemma_cong_eq(r0 as int, x0 as int, m);
    lemma_cong_eq(r1 as int, x1 as int, m);
}

/// Adding and then subtracting `y` gives `x` back.
pub proof fn lemma_fp2_add_then_sub(x: Fp2, y: Fp2)
    requires
        x.wf(),
        y.wf(),
    ensures
        fp2_sub(fp2_add(x@, y@), y@) == x@,
{
    lemma_fp2_add_sub_cancel(x@, y@);
}

/// Reading an element's bytes gives the element back.
pub proof fn lemma_fp2_serialize_roundtrip(x: Fp2)
    requires
        x.wf(),
    ensures
        fp2_decode(fp2_encode(x@)) == Some(x@),
{
    lemma_fp2_decode_encode(x@);
}

/// The square of the negative is the square.
pub proof fn lemma_fp2_neg_square(u: F2)
    requires
        fp2_reduced(u),
    ensures
        fp2_mul(fp2_neg(u), fp2_neg(u)) == fp2_mul(u, u),
        fp2_reduced(fp2_neg(u)),
        fp2_reduced(fp2_mul(u, u)),
{
    let p = fp_modulus();
    crate::modmath::lemma_neg_neg_mul(u.0, u.0, p);
    crate::modmath::lemma_neg_neg_mul(u.1, u.1, p);
    crate::modmath::lemma_neg_neg_mul(u.0, u.1, p);
    crate::modmath::lemma_neg_neg_mul(u.1, u.0, p);
    lemma_mod_bound(-(u.0 as int), p as int);
    lemma_mod_bound(-(u.1 as int), p as int);
    lemma_mod_bound(fp_mul(u.0, u.0) as int - fp_mul(u.1, u.1) as int, p as int);
    lemma_mod_bound((fp_mul(u.0, u.1) + fp_mul(u.1, u.0)) as int, p as int);
}

/// Where the order is prime, the square root of the square of a number of
/// the base field is the number or its negative.
proof fn lemma_fp2_sqrt_real(u: F2)
    requires
        fp2_reduced(u),
        u.1 == 0,
        is_prime(fp_modulus()),
    ensures
        fp2_sqrt(fp2_mul(u, u)) is Some,
        fp2_sqrt(fp2_mul(u, u))->0 == u || fp2_sqrt(fp2_mul(u, u))->0 == fp2_neg(u),
{
    let p = fp_modulus();
    let q = fp_mul(u.0, u.0);
    lemma_mod_bound((u.0 * u.0) as int, p as int);
    lemma_small_mod(0, p);
    lemma_small_mod(q, p);
    assert(0 * 0 == 0) by (nonlinear_arith);
    assert(u.0 * 0 == 0 && 0 * u.0 == 0);
    let a = fp2_mul(u, u);
    assert(a == (q, 0nat));
    crate::fp::lemma_fp_sqrt_of_square(q, u.0);
    let s = lesser_root(u.0, p);
    crate::fp::lemma_fp_sqrt_squares(q);
    assert(s * 0 == 0 && 0 * s == 0);
    assert(fp2_mul((s, 0nat), (s, 0nat)) == a);
    assert(fp_neg(0) == 0);
}

/// Where the order is prime, the square root of the square of a multiple of
/// `u` is the number or its negative.
proof fn lemma_fp2_sqrt_imaginary(u: F2)
    requires
        fp2_reduced(u),
        u.0 == 0,
        u.1 != 0,
        is_prime(fp_modulus()),
    ensures
        fp2_sqrt(fp2_mul(u, u)) is Some,
        fp2_sqrt(fp2_mul(u, u))->0 == u || fp2_sqrt(fp2_mul(u, u))->0 == fp2_neg(u),
{
    let p = fp_modulus();
    let q = fp_mul(u.1, u.1);
    lemma_mod_bound((u.1 * u.1) as int, p as int);
    lemma_small_mod(0, p);
    lemma_small_mod(u.1, p);
    assert(0 * 0 == 0) by (nonlinear_arith);
    assert(u.1 * 0 == 0 && 0 * u.1 == 0);
    let a0 = fp_neg(q);
    lemma_mod_bound(-(q as int), p as int);
    let a = fp2_mul(u, u);
    assert(a == (a0, 0nat));
    crate::fp::lemma_fp_modulus_mod_four();
    if fp_sqrt(a0) is Some {
        crate::fp::lemma_fp_sqrt_squares(a0);
        crate::fermat::lemma_negative_square_is_no_square(u.1, fp_sqrt(a0)->0, p);
    }
    crate::fp::lemma_fp_lesser_root_of_negative(q);
    crate::fp::lemma_fp_sqrt_of_square(q, u.1);
    let s = lesser_root(u.1, p);
    crate::fp::lemma_fp_sqrt_squares(q);
    assert(s * 0 == 0 && 0 * s == 0);
    assert(fp2_mul((0nat, s), (0nat, s)) == a);
    assert(fp_neg(0) == 0);
}

/// Where the order is prime, a square whose second component is zero is the
/// square of a number with a component at zero.
proof fn lemma_fp2_square_on_axis(u: F2)
    requires
        fp2_reduced(u),
        is_prime(fp_modulus()),
        fp2_mul(u, u).1 == 0,
    ensures
        u.0 == 0 || u.1 == 0,
{
    let p = fp_modulus();
    let m = p as int;
    let u0 = u.0 as int;
    let u1 = u.1 as int;
    lemma_cong_refl(u0, m);
    lemma_cong_refl(u1, m);
    lemma_mod_ops_cong(u.0, u0, u.1, u1, p);
    lemma_mod_ops_cong(u.1, u1, u.0, u0, p);
    lemma_mod_ops_cong(fp_mul(u.0, u.1), u0 * u1, fp_mul(u.1, u.0), u1 * u0, p);
    assert(u0 * u1 + u1 * u0 == (2 * u0) * u1) by (nonlinear_arith);
    assert(cong((2 * u0) * u1, 0, m)) by {
        lemma_cong_sym(0, (2 * u0) * u1, m);
    }
    assert((((2 * u.0) * u.1) as int) % m == 0);
    crate::fermat::lemma_prime_no_zero_divisors(2 * u.0, u.1, p);
    lemma_small_mod(u.0, p);
    lemma_small_mod(u.1, p);
    if u.1 != 0 {
        crate::fermat::lemma_prime_no_zero_divisors(2, u.0, p);
        lemma_small_mod(2, p);
    }
}

/// The components of a square, as polynomials in the integers.
proof fn lemma_fp2_square_parts(u: F2)
    requires
        fp2_reduced(u),
    ensures
        ({
            let a = fp2_mul(u, u);
            let u0 = u.0 as int;
            let u1 = u.1 as int;
            &&& cong(a.0 as int, u0 * u0 - u1 * u1, fp_modulus() as int)
            &&& cong(a.1 as int, u0 * u1 + u1 * u0, fp_modulus() as int)
            &&& cong(fp_mul(u.0, u.0) as int, u0 * u0, fp_modulus() as int)
            &&& cong(fp_mul(u.1, u.1) as int, u1 * u1, fp_modulus() as int)
            &&& fp2_reduced(a)
        }),
{
    let p = fp_modulus();
    let m = p as int;
    let u0 = u.0 as int;
    let u1 = u.1 as int;
    lemma_fp2_neg_square(u);
    lemma_cong_refl(u0, m);
    lemma_cong_refl(u1, m);
    lemma_mod_ops_cong(u.0, u0, u.0, u0, p);
    lemma_mod_ops_cong(u.1, u1, u.1, u1, p);
    lemma_mod_ops_cong(u.0, u0, u.1, u1, p);
    lemma_mod_ops_cong(u.1, u1, u.0, u0, p);
    lemma_mod_ops_cong(fp_mul(u.0, u.0), u0 * u0, fp_mul(u.1, u.1), u1 * u1, p);
    lemma_mod_ops_cong(fp_mul(u.0, u.1), u0 * u1, fp_mul(u.1, u.0), u1 * u0, p);
}

/// The norm of a square is the square of the norm.
proof fn lemma_fp2_norm_of_square(u: F2)
    requires
        fp2_reduced(u),
    ensures
        fp2_norm(fp2_mul(u, u)) == fp_mul(fp2_norm(u), fp2_norm(u)),
        fp2_norm(u) < fp_modulus(),
        fp2_norm(fp2_mul(u, u)) < fp_modulus(),
        cong(
            fp2_norm(u) as int,
            (u.0 as int) * (u.0 as int) + (u.1 as int) * (u.1 as int),
            fp_modulus() as int,
        ),
{
    let p = fp_modulus();
    let m = p as int;
    let u0 = u.0 as int;
    let u1 = u.1 as int;
    let a = fp2_mul(u, u);
    lemma_fp2_square_parts(u);
    let ia0 = u0 * u0 - u1 * u1;
    let ia1 = u0 * u1 + u1 * u0;
    let ni = u0 * u0 + u1 * u1;
    let big_n = fp2_norm(u);
    let n = fp2_norm(a);
    lemma_mod_ops_cong(fp_mul(u.0, u.0), u0 * u0, fp_mul(u.1, u.1), u1 * u1, p);
    lemma_mod_ops_cong(a.0, ia0, a.0, ia0, p);
    lemma_mod_ops_cong(a.1, ia1, a.1, ia1, p);
    lemma_mod_ops_cong(fp_mul(a.0, a.0), ia0 * ia0, fp_mul(a.1, a.1), ia1 * ia1, p);
    lemma_mod_ops_cong(big_n, ni, big_n, ni, p);
    let uu = u0 * u0;
    let vv = u1 * u1;
    let uv = u0 * u1;
    assert(ia1 == 2 * uv) by (nonlinear_arith)
        requires
            ia1 == u0 * u1 + u1 * u0,
            uv == u0 * u1,
    ;
    assert(uv * uv == uu * vv) by (nonlinear_arith)
        requires
            uv == u0 * u1,
            uu == u0 * u0,
            vv == u1 * u1,
    ;
    assert((uu - vv) * (uu - vv) + (2 * uv) * (2 * uv) == (uu + vv) * (uu + vv))
        by (nonlinear_arith)
        requires
            uv * uv == uu * vv,
    ;
    lemma_cong_sym(fp_mul(big_n, big_n) as int, ni * ni, m);
    lemma_cong_trans(n as int, ia0 * ia0 + ia1 * ia1, fp_mul(big_n, big_n) as int, m);
    lemma_mod_bound((fp_mul(a.0, a.0) + fp_mul(a.1, a.1)) as int, m);
    lemma_mod_bound((fp_mul(u.0, u.0) + fp_mul(u.1, u.1)) as int, m);
    lemma_mod_bound((big_n * big_n) as int, m);
    lemma_cong_eq(n as int, fp_mul(big_n, big_n) as int, m);
}

/// Where the order is prime, the first component that the search settles on
/// for the square of `u` is `u.0` or its negative: the one that is not
/// negative.
proof fn lemma_fp2_sqrt_first(u: F2)
    requires
        fp2_reduced(u),
        u.0 != 0,
        u.1 != 0,
        is_prime(fp_modulus()),
    ensures
        ({
            let a = fp2_mul(u, u);
            let s = fp_sqrt(fp2_norm(a));
            &&& s is Some
            &&& (match fp_sqrt(fp_halve(fp_add(a.0, s->0))) {
                Some(v) => Some(v),
                None => fp_sqrt(fp_halve(fp_sub(a.0, s->0))),
            }) == Some(lesser_root(u.0, fp_modulus()))
        }),
{
    let p = fp_modulus();
    let m = p as int;
    let u0 = u.0 as int;
    let u1 = u.1 as int;
    let a = fp2_mul(u, u);
    let a0 = a.0;
    crate::fp::lemma_fp_modulus_mod_four();
    lemma_small_mod(u.0, p);
    lemma_small_mod(u.1, p);
    lemma_fp2_square_parts(u);
    lemma_fp2_norm_of_square(u);
    let q0 = fp_mul(u.0, u.0);
    let q1 = fp_mul(u.1, u.1);
    let ia0 = u0 * u0 - u1 * u1;
    let ni = u0 * u0 + u1 * u1;
    let uu = u0 * u0;
    let vv = u1 * u1;
    let big_n = fp2_norm(u);
    let n = fp2_norm(a);
    lemma_mod_bound((u.0 * u.0) as int, m);
    lemma_mod_bound((u.1 * u.1) as int, m);
    crate::fp::lemma_fp_sqrt_of_square(n, big_n);
    let s = lesser_root(big_n, p);
    let v1 = fp_add(a0, s);
    let v2 = fp_sub(a0, s);
    lemma_mod_bound((a0 + s) as int, m);
    lemma_mod_bound(a0 as int - s as int, m);
    lemma_mod_bound(-(big_n as int), m);
    lemma_cong_refl(0, m);
    lemma_mod_ops_cong(0, 0, big_n, ni, p);
    lemma_mod_ops_cong(0, 0, q1, vv, p);
    let nq1 = fp_neg(q1);
    lemma_mod_bound(-(q1 as int), m);
    lemma_cong_add(q0 as int, uu, q0 as int, uu, m);
    lemma_cong_add(nq1 as int, 0 - vv, nq1 as int, 0 - vv, m);
    crate::fp::lemma_fp_sqrt_of_square(q0, u.0);
    if s == big_n {
        lemma_mod_ops_cong(a0, ia0, s, ni, p);
        assert(ia0 + ni == uu + uu);
        lemma_cong_sym(2 * (q0 as int), uu + uu, m);
        lemma_cong_trans(v1 as int, uu + uu, 2 * (q0 as int), m);
        crate::fp::lemma_fp_halve_double(v1, q0);
    } else {
        lemma_mod_ops_cong(a0, ia0, s, 0 - ni, p);
        assert(ia0 + (0 - ni) == (0 - vv) + (0 - vv));
        lemma_cong_sym(2 * (nq1 as int), (0 - vv) + (0 - vv), m);
        lemma_cong_trans(v1 as int, (0 - vv) + (0 - vv), 2 * (nq1 as int), m);
        crate::fp::lemma_fp_halve_double(v1, nq1);
        if fp_sqrt(nq1) is Some {
            crate::fp::lemma_fp_sqrt_squares(nq1);
            crate::fermat::lemma_negative_square_is_no_square(u.1, fp_sqrt(nq1)->0, p);
        }
        assert(ia0 - (0 - ni) == uu + uu);
        lemma_cong_sym(2 * (q0 as int), uu + uu, m);
        lemma_cong_trans(v2 as int, uu + uu, 2 * (q0 as int), m);
        crate::fp::lemma_fp_halve_double(v2, q0);
    }
}

/// Where the order is prime, the second component that the search computes
/// from the first is `u.1` or its negative, with the sign of the first.
proof fn lemma_fp2_sqrt_second(u: F2, x0: nat)
    requires
        fp2_reduced(u),
        u.0 != 0,
        is_prime(fp_modulus()),
        x0 == u.0 || x0 == fp_neg(u.0),
    ensures
        fp_mul(fp2_mul(u, u).1, fp_inv(fp_add(x0, x0))) == (if x0 == u.0 {
            u.1
        } else {
            fp_neg(u.1)
        }),
{
    let p = fp_modulus();
    let m = p as int;
    let u0 = u.0 as int;
    let u1 = u.1 as int;
    let a1 = fp2_mul(u, u).1;
    let ia1 = u0 * u1 + u1 * u0;
    crate::fp::lemma_fp_modulus_mod_four();
    lemma_fp2_square_parts(u);
    crate::fp::lemma_fp_lesser_root_of_negative(u.0);
    assert(x0 != 0 && x0 < p);
    let d = fp_add(x0, x0);
    lemma_mod_bound((x0 + x0) as int, m);
    lemma_small_mod(x0, p);
    if d == 0 {
        assert(((2 * x0) as int) % m == 0);
        crate::fermat::lemma_prime_no_zero_divisors(2, x0, p);
        lemma_small_mod(2, p);
    }
    lemma_small_mod(d, p);
    lemma_prime_has_inverse(d, p);
    lemma_mod_inv_is_inverse(d, p);
    let e = fp_inv(d);
    let x1 = fp_mul(a1, e);
    lemma_mod_bound((a1 * e) as int, m);
    let t1 = if x0 == u.0 {
        u.1
    } else {
        fp_neg(u.1)
    };
    lemma_mod_bound(-(u.1 as int), m);
    let di = d as int;
    let ei = e as int;
    lemma_cong_refl(u0, m);
    lemma_cong_refl(u1, m);
    lemma_cong_refl(0, m);
    // x1 * d == a1 == t1 * d
    lemma_cong_rem((a1 * e) as int, m);
    lemma_cong_refl(di, m);
    lemma_cong_times(x1 as int, (a1 as int) * ei, di, di, m);
    assert(((a1 as int) * ei) * di == (a1 as int) * (di * ei)) by (nonlinear_arith);
    lemma_cong_rem(di * ei, m);
    lemma_cong_sym((di * ei) % m, di * ei, m);
    lemma_cong_refl(a1 as int, m);
    lemma_cong_times(a1 as int, a1 as int, di * ei, 1, m);
    assert((a1 as int) * 1 == a1);
    lemma_cong_trans((x1 as int) * di, (a1 as int) * (di * ei), a1 as int, m);
    lemma_cong_trans((x1 as int) * di, a1 as int, ia1, m);
    if x0 == u.0 {
        lemma_mod_ops_cong(x0, u0, x0, u0, p);
        lemma_cong_times(u1, u1, di, u0 + u0, m);
        assert(u1 * (u0 + u0) == ia1) by (nonlinear_arith)
            requires
                ia1 == u0 * u1 + u1 * u0,
        ;
    } else {
        lemma_mod_ops_cong(0, 0, u.0, u0, p);
        lemma_mod_ops_cong(0, 0, u.1, u1, p);
        lemma_mod_ops_cong(x0, 0 - u0, x0, 0 - u0, p);
        lemma_cong_times(t1 as int, 0 - u1, di, (0 - u0) + (0 - u0), m);
        assert((0 - u1) * ((0 - u0) + (0 - u0)) == ia1) by (nonlinear_arith)
            requires
                ia1 == u0 * u1 + u1 * u0,
        ;
    }
    lemma_cong_sym((t1 as int) * di, ia1, m);
    lemma_cong_trans((x1 as int) * di, ia1, (t1 as int) * di, m);
    vstd::arithmetic::div_mod::lemma_mod_equivalence((x1 as int) * di, (t1 as int) * di, m);
    crate::modmath::lemma_cancel_unit(x1 as int, t1 as int, di, ei, m);
    lemma_small_mod(x1, p);
    lemma_small_mod(t1, p);
}

/// Where the order is prime, the square root of the square of a number with
/// both components away from zero is the number or its negative.
proof fn lemma_fp2_sqrt_general(u: F2)
    requires
        fp2_reduced(u),
        u.0 != 0,
        u.1 != 0,
        is_prime(fp_modulus()),
    ensures
        fp2_sqrt(fp2_mul(u, u)) is Some,
        fp2_sqrt(fp2_mul(u, u))->0 == u || fp2_sqrt(fp2_mul(u, u))->0 == fp2_neg(u),
{
    let p = fp_modulus();
    let a = fp2_mul(u, u);
    if a.1 == 0 {
        lemma_fp2_square_on_axis(u);
    }
    lemma_fp2_sqrt_first(u);
    let x0 = lesser_root(u.0, p);
    crate::fp::lemma_fp_lesser_root_of_negative(u.0);
    lemma_fp2_sqrt_second(u, x0);
    lemma_fp2_neg_square(u);
    let x1 = fp_mul(a.1, fp_inv(fp_add(x0, x0)));
    let found = (x0, x1);
    assert(found == u || found == fp2_neg(u));
    assert(fp2_mul(found, found) == a);
}

/// Where the order is prime, the square root of a square is found, and it is
/// the number squared or its negative.
pub proof fn lemma_fp2_sqrt_of_square(u: F2)
    requires
        fp2_reduced(u),
        is_prime(fp_modulus()),
    ensures
        fp2_sqrt(fp2_mul(u, u)) is Some,
        fp2_sqrt(fp2_mul(u, u))->0 == u || fp2_sqrt(fp2_mul(u, u))->0 == fp2_neg(u),
{
    if u.1 == 0 {
        lemma_fp2_sqrt_real(u);
    } else if u.0 == 0 {
        lemma_fp2_sqrt_imaginary(u);
    } else {
        lemma_fp2_sqrt_general(u);
    }
}

/// Where the order is prime, `square_root` succeeds on the squares and on
/// nothing else.
pub proof fn lemma_fp2_sqrt_finds_squares(x: Fp2)
    requires
        x.wf(),
        is_prime(fp_modulus()),
    ensures
        fp2_sqrt(x@) is Some <==> (exists|u: F2| fp2_reduced(u) && fp2_mul(u, u) == x@),
{
    if fp2_sqrt(x@) is Some {
        let y = fp2_sqrt(x@)->0;
        assert(fp2_mul(y, y) == x@);
        let p = fp_modulus();
        lemma_fp2_sqrt_reduced(x@);
        assert(fp2_reduced(y) && fp2_mul(y, y) == x@);
    }
    if exists|u: F2| fp2_reduced(u) && fp2_mul(u, u) == x@ {
        let u = choose|u: F2| fp2_reduced(u) && fp2_mul(u, u) == x@;
        lemma_fp2_sqrt_of_square(u);
    }
}

/// What the square root finds is fully reduced.
pub proof fn lemma_fp2_sqrt_reduced(a: F2)
    requires
        fp2_reduced(a),
        fp2_sqrt(a) is Some,
    ensures
        fp2_reduced(fp2_sqrt(a)->0),
{
    let p = fp_modulus();
    let y = fp2_sqrt(a)->0;
    if a.1 == 0 {
        if fp_sqrt(a.0) is Some {
            crate::fp::lemma_fp_sqrt_squares(a.0);
        } else {
            lemma_mod_bound(-(a.0 as int), p as int);
            crate::fp::lemma_fp_sqrt_squares(fp_neg(a.0));
        }
    } else {
        let n = fp2_norm(a);
        lemma_mod_bound((fp_mul(a.0, a.0) + fp_mul(a.1, a.1)) as int, p as int);
        crate::fp::lemma_fp_sqrt_squares(n);
        let s = fp_sqrt(n)->0;
        let h1 = fp_halve(fp_add(a.0, s));
        let h2 = fp_halve(fp_sub(a.0, s));
        lemma_mod_bound((a.0 + s) as int, p as int);
        lemma_mod_bound(a.0 as int - s as int, p as int);
        if fp_sqrt(h1) is Some {
            crate::fp::lemma_fp_sqrt_squares(h1);
        } else {
            crate::fp::lemma_fp_sqrt_squares(h2);
        }
        lemma_mod_bound((a.1 * fp_inv(fp_add(y.0, y.0))) as int, p as int);
    }
}

impl Fp2 {
    /// The element with the value `v`.
    pub open spec fn with_value(v: F2) -> Fp2 {
        choose|r: Fp2| r@ == v
    }
}

impl<'a> core::ops::Add for &'a Fp2 {
    type Output = Fp2;

    fn add(self, other: &Fp2) -> (r: Fp2) {
        let r = self.plus(other);
        proof {
            Fp2::lemma_view_injective(r, Fp2::with_value(fp2_add(self@, other@)));
        }
        r
    }
}

impl<'a> vstd::std_specs::ops::AddSpecImpl for &'a Fp2 {
    open spec fn obeys_add_spec() -> bool {
        true
    }

    open spec fn add_req(self, other: &'a Fp2) -> bool {
        self.wf() && other.wf()
    }

    open spec fn add_spec(self, other: &'a Fp2) -> Fp2 {
        Fp2::with_value(fp2_add(self@, other@))
    }
}

impl<'a> core::ops::AddAssign<&'a Fp2> for Fp2 {
    /// Where an operand is not fully reduced, `self` is left as it was.
    fn add_assign(&mut self, other: &Fp2)
        ensures
            old(self).wf() && other.wf() ==> final(self).wf(),
            old(self).wf() && other.wf() ==> final(self)@ == fp2_add(old(self)@, other@),
            !(old(self).wf() && other.wf()) ==> *final(self) == *old(self),
    {
        if self.is_valid() && other.is_valid() {
            let r = self.plus(other);
            *self = r;
        }
    }
}

impl<'a> core::ops::Sub for &'a Fp2 {
    type Output = Fp2;

    fn sub(self, other: &Fp2) -> (r: Fp2) {
        let r = self.minus(other);
        proof {
            Fp2::lemma_view_injective(r, Fp2::with_value(fp2_sub(self@, other@)));
        }
        r
    }
}

impl<'a> vstd::std_specs::ops::SubSpecImpl for &'a Fp2 {
    open spec fn obeys_sub_spec() -> bool {
        true
    }

    open spec fn sub_req(self, other: &'a Fp2) -> bool {
        self.wf() && other.wf()
    }

    open spec fn sub_spec(self, other: &'a Fp2) -> Fp2 {
        Fp2::with_value(fp2_sub(self@, other@))
    }
}

impl<'a> core::ops::SubAssign<&'a Fp2> for Fp2 {
    /// Where an operand is not fully reduced, `self` is left as it was.
    fn sub_assign(&mut self, other: &Fp2)
        ensures
            old(self).wf() && other.wf() ==> final(self).wf(),
            old(self).wf() && other.wf() ==> final(self)@ == fp2_sub(old(self)@, other@),
            !(old(self).wf() && other.wf()) ==> *final(self) == *old(self),
    {
        if self.is_valid() && other.is_valid() {
            let r = self.minus(other);
            *self = r;
        }
    }
}

impl<'a> core::ops::Mul for &'a Fp2 {
    type Output = Fp2;

    fn mul(self, other: &Fp2) -> (r: Fp2) {
        let r = self.times(other);
        proof {
            Fp2::lemma_view_injective(r, Fp2::with_value(fp2_mul(self@, other@)));
        }
        r
    }
}

impl<'a> vstd::std_specs::ops::MulSpecImpl for &'a Fp2 {
    open spec fn obeys_mul_spec() -> bool {
        true
    }

    open spec fn mul_req(self, other: &'a Fp2) -> bool {
        self.wf() && other.wf()
    }

    open spec fn mul_spec(self, other: &'a Fp2) -> Fp2 {
        Fp2::with_value(fp2_mul(self@, other@))
    }
}

impl<'a> core::ops::MulAssign<&'a Fp2> for Fp2 {
    /// Where an operand is not fully reduced, `self` is left as it was.
    fn mul_assign(&mut self, other: &Fp2)
        ensures
            old(self).wf() && other.wf() ==> final(self).wf(),
            old(self).wf() && other.wf() ==> final(self)@ == fp2_mul(old(self)@, other@),
            !(old(self).wf() && other.wf()) ==> *final(self) == *old(self),
    {
        if self.is_valid() && other.is_valid() {
            let r = self.times(other);
            *self = r;
        }
    }
}

impl<'a> core::ops::Div for &'a Fp2 {
    type Output = Fp2;

    fn div(self, other: &Fp2) -> (r: Fp2) {
        let r = self.times(&other.inverse());
        proof {
            Fp2::lemma_view_injective(r, Fp2::with_value(fp2_div(self@, other@)));
        }
        r
    }
}

impl<'a> vstd::std_specs::ops::DivSpecImpl for &'a Fp2 {
    open spec fn obeys_div_spec() -> bool {
        true
    }

    open spec fn div_req(self, other: &'a Fp2) -> bool {
        self.wf() && other.wf()
    }

    open spec fn div_spec(self, other: &'a Fp2) -> Fp2 {
        Fp2::with_value(fp2_div(self@, other@))
    }
}

impl<'a> core::ops::DivAssign<&'a Fp2> for Fp2 {
    /// Where an operand is not fully reduced, `self` is left as it was.
    fn div_assign(&mut self, other: &Fp2)
        ensures
            old(self).wf() && other.wf() ==> final(self).wf(),
            old(self).wf() && other.wf() ==> final(self)@ == fp2_div(old(self)@, other@),
            !(old(self).wf() && other.wf()) ==> *final(self) == *old(self),
    {
        if self.is_valid() && other.is_valid() {
            let r = self.times(&other.inverse());
            *self = r;
        }
    }
}

} // verus!
