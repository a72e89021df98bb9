//! The base field of the curve: the integers modulo the 381-bit prime `p`.

use crate::bytes::{
    from_le_bytes, le_bytes_val, le_encode, lemma_le_encode_val, lemma_pow256_radix, pow256,
    reduce_le_bytes, to_le_bytes,
};
use crate::hash::{expand, expand_message};
use crate::inverse::{eq_limbs, half_mod, inv_mod, lemma_parity, shr1};
use crate::limbs::{
    add_limbs, is_zero_limbs, lemma_prefix_val_bound, lemma_radix_pos, less_than, limbs_val,
    prefix_val, radix, zero_limbs,
};
use crate::modmath::cong;
use crate::modmath::{
    has_inverse, is_prime, lemma_add_sub_cancel, lemma_mul_div_cancel, lemma_neg_square,
    lemma_prime_has_inverse, lesser_root, mod_add, mod_div, mod_inv, mod_mul, mod_neg, mod_pow,
    mod_sub,
};
use crate::modular::{add_mod, mul_mod, neg_mod, one_limbs, pow_mod, small_limbs, sub_mod, Modulus};
use crate::random::fill_random;
use crate::text::{
    digits, format_limbs, lemma_digits_no_space, lemma_parse_digits, lemma_words_push,
    lemma_words_single, parse_limbs, parse_nat, views_of, words,
};
use vstd::arithmetic::div_mod::{lemma_mod_bound, lemma_small_mod};
use vstd::prelude::*;
use vstd::std_specs::cmp::PartialEqSpecImpl;
use vstd::string::StringExecFns;

verus! {

/// The order of the base field.
pub open spec fn fp_modulus() -> nat {
    0x1a0111ea397fe69a4b1ba7b6434bacd764774b84f38512bf6730d2a0f6b0f6241eabfffeb153ffffb9feffffffffaaabnat
}

/// The inverse of `radix(6)` modulo the order of the base field.
pub open spec fn fp_rinv() -> nat {
    0x14fec701e8fb0ce9ed5e64273c4f538b1797ab1458a88de9343ea97914956dc87fe11274d898fafbf4d38259380b4820nat
}

/// The base field's modulus with its multiplication constants.
pub fn fp_params() -> (m: Modulus<6>)
    ensures
        m.wf(),
        m.value() == fp_modulus(),
{
    let p: [u64; 6] = [
        0xb9feffffffffaaab,
        0x1eabfffeb153ffff,
        0x6730d2a0f6b0f624,
        0x64774b84f38512bf,
        0x4b1ba7b6434bacd7,
        0x1a0111ea397fe69a,
    ];
    let r2: [u64; 6] = [
        0xf4df1f341c341746,
        0x0a76e6a609d104f1,
        0x8de5476c4c95b6d5,
        0x67eb88a9939d83c0,
        0x9a793e85b519952d,
        0x11988fe592cae3aa,
    ];
    let m = Modulus { p, n0: 0x89f3fffcfffcfffd, r2, rinv: Ghost(fp_rinv()) };
    proof {
        reveal_with_fuel(prefix_val, 2);
        reveal_with_fuel(radix, 2);
        assert(radix(0) == 1);
        assert(prefix_val(p@, 0) == 0);
        assert(prefix_val(r2@, 0) == 0);
        assert(radix(1) == 0x10000000000000000nat);
        assert(prefix_val(p@, 1) == 0xb9feffffffffaaabnat);
        assert(prefix_val(r2@, 1) == 0xf4df1f341c341746nat);
        assert(radix(2) == 0x100000000000000000000000000000000nat);
        assert(prefix_val(p@, 2) == 0x1eabfffeb153ffffb9feffffffffaaabnat);
        assert(prefix_val(r2@, 2) == 0xa76e6a609d104f1f4df1f341c341746nat);
        assert(radix(3) == 0x1000000000000000000000000000000000000000000000000nat);
        assert(prefix_val(p@, 3) == 0x6730d2a0f6b0f6241eabfffeb153ffffb9feffffffffaaabnat);
        assert(prefix_val(r2@, 3) == 0x8de5476c4c95b6d50a76e6a609d104f1f4df1f341c341746nat);
        assert(radix(4) == 0x10000000000000000000000000000000000000000000000000000000000000000nat);
        assert(prefix_val(p@, 4) == 0x64774b84f38512bf6730d2a0f6b0f6241eabfffeb153ffffb9feffffffffaaabnat);
        assert(prefix_val(r2@, 4) == 0x67eb88a9939d83c08de5476c4c95b6d50a76e6a609d104f1f4df1f341c341746nat);
        assert(radix(5) == 0x100000000000000000000000000000000000000000000000000000000000000000000000000000000nat);
        assert(prefix_val(p@, 5) == 0x4b1ba7b6434bacd764774b84f38512bf6730d2a0f6b0f6241eabfffeb153ffffb9feffffffffaaabnat);
        assert(prefix_val(r2@, 5) == 0x9a793e85b519952d67eb88a9939d83c08de5476c4c95b6d50a76e6a609d104f1f4df1f341c341746nat);
        assert(radix(6) == 0x1000000000000000000000000000000000000000000000000000000000000000000000000000000000000000000000000nat);
        assert(prefix_val(p@, 6) == 0x1a0111ea397fe69a4b1ba7b6434bacd764774b84f38512bf6730d2a0f6b0f6241eabfffeb153ffffb9feffffffffaaabnat);
        assert(prefix_val(r2@, 6) == 0x11988fe592cae3aa9a793e85b519952d67eb88a9939d83c08de5476c4c95b6d50a76e6a609d104f1f4df1f341c341746nat);
        assert(limbs_val(p@) == fp_modulus());
        assert(limbs_val(r2@) == 0x11988fe592cae3aa9a793e85b519952d67eb88a9939d83c08de5476c4c95b6d50a76e6a609d104f1f4df1f341c341746nat);
    }
    m
}

/// The sum of two elements' values.
pub open spec fn fp_add(a: nat, b: nat) -> nat {
    mod_add(a, b, fp_modulus())
}

/// The difference of two elements' values.
pub open spec fn fp_sub(a: nat, b: nat) -> nat {
    mod_sub(a, b, fp_modulus())
}

/// The negative of an element's value.
pub open spec fn fp_neg(a: nat) -> nat {
    mod_neg(a, fp_modulus())
}

/// The product of two elements' values.
pub open spec fn fp_mul(a: nat, b: nat) -> nat {
    mod_mul(a, b, fp_modulus())
}

/// The square of an element's value.
pub open spec fn fp_sqr(a: nat) -> nat {
    mod_pow(a, 2, fp_modulus())
}

/// The inverse of an element's value, and zero where it has none.
pub open spec fn fp_inv(a: nat) -> nat {
    mod_inv(a, fp_modulus())
}

/// The half of an element's value: the value whose double it is.
pub open spec fn fp_halve(a: nat) -> nat {
    if a % 2 == 0 {
        a / 2
    } else {
        (a + fp_modulus()) / 2
    }
}

/// The number that an integer stands for in the base field: the integer modulo
/// the field's order, so that negative integers count down from the order.
pub open spec fn fp_from_int(x: int) -> nat {
    (x % (fp_modulus() as int)) as nat
}

/// The bytes of an element: its value in 48 bytes, little-endian.
pub open spec fn fp_encode(v: nat) -> Seq<u8> {
    le_encode(v, 48)
}

/// The element that a byte string stands for: the string has 48 bytes and
/// its little-endian value is below the field's order.
pub open spec fn fp_decode(b: Seq<u8>) -> Option<nat> {
    if b.len() == 48 && le_bytes_val(b) < fp_modulus() {
        Some(le_bytes_val(b))
    } else {
        None
    }
}

/// The element that a text stands for in base 10 or 16: the text is a string
/// of digits whose value is below the field's order.
pub open spec fn fp_parse(s: Seq<char>, b: int) -> Option<nat> {
    if b == 10 || b == 16 {
        match parse_nat(s, b as nat) {
            Some(v) => if v < fp_modulus() {
                Some(v)
            } else {
                None
            },
            None => None,
        }
    } else {
        None
    }
}

/// The text of a list of elements: their texts, with one space between.
pub open spec fn fp_format_list(vs: Seq<nat>, b: nat) -> Seq<char>
    decreases vs.len(),
{
    if vs.len() == 0 {
        Seq::empty()
    } else if vs.len() == 1 {
        digits(vs[0], b)
    } else {
        fp_format_list(vs.drop_last(), b) + seq![' '] + digits(vs.last(), b)
    }
}

/// The elements that a list of words stands for, where every word stands for
/// one.
pub open spec fn fp_parse_list(ws: Seq<Seq<char>>, b: int) -> Option<Seq<nat>> {
    if forall|i: int| 0 <= i < ws.len() ==> fp_parse(#[trigger] ws[i], b) is Some {
        Some(Seq::new(ws.len(), |i: int| fp_parse(ws[i], b)->0))
    } else {
        None
    }
}

/// The values of a list of elements.
pub open spec fn fp_values(vs: Seq<Fp>) -> Seq<nat> {
    Seq::new(vs.len(), |i: int| vs[i]@)
}

/// The candidate for a square root of `x` in the base field: `x` to the power
/// `(p + 1) / 4`.
pub open spec fn fp_sqrt_candidate(x: nat) -> nat {
    mod_pow(x, (fp_modulus() + 1) / 4, fp_modulus())
}

/// The square root of `x` that is not negative, where `x` has a square root.
pub open spec fn fp_sqrt(x: nat) -> Option<nat> {
    let c = fp_sqrt_candidate(x);
    if mod_mul(c, c, fp_modulus()) == x {
        Some(lesser_root(c, fp_modulus()))
    } else {
        None
    }
}

/// The abscissa that is tried after `x` in the search for a point.
pub open spec fn fp_next(x: nat) -> nat {
    fp_add(x, 1)
}

/// The sign of an ordinate, by which a point is told from its opposite: the
/// parity of the value.
pub open spec fn fp_sign(y: nat) -> bool {
    y % 2 == 1
}

/// The abscissa that a message hashes to, before the search for a point.
pub open spec fn fp_hash_point(msg: Seq<u8>) -> nat {
    fp_hash(msg)
}

/// A sample of random bytes with the bits above the order's length cleared.
pub open spec fn fp_masked_sample(s: Seq<u8>) -> Seq<u8> {
    s.update(47, s[47] & 0x1fu8)
}

/// The element that a message hashes to: the expanded message as a
/// little-endian number, modulo the field's order.
pub open spec fn fp_hash(msg: Seq<u8>) -> nat {
    le_bytes_val(expand_message(msg)) % fp_modulus()
}

/// An element of the base field: an integer modulo the field's order, held fully
/// reduced in 6 little-endian 64-bit limbs.
#[derive(Clone, Copy, Debug)]
pub struct Fp {
    d: [u64; 6],
}

impl View for Fp {
    type V = nat;

    /// The integer that the limbs hold.
    closed spec fn view(&self) -> nat {
        limbs_val(self.d@)
    }
}

impl PartialEq for Fp {
    fn eq(&self, rhs: &Self) -> (r: bool) {
        eq_limbs(&self.d, &rhs.d)
    }
}

impl PartialEqSpecImpl for Fp {
    open spec fn obeys_eq_spec() -> bool {
        true
    }

    open spec fn eq_spec(&self, rhs: &Self) -> bool {
        self@ == rhs@
    }
}

impl Default for Fp {
    fn default() -> (r: Fp)
        ensures
            r@ == 0,
            r.wf(),
    {
        Fp::zero()
    }
}

impl Fp {
    /// The element is fully reduced.
    pub open spec fn wf(&self) -> bool {
        self@ < fp_modulus()
    }

    /// Elements with one value are one element.
    pub proof fn lemma_view_injective(x: Fp, y: Fp)
        requires
            x@ == y@,
        ensures
            x == y,
    {
        crate::limbs::lemma_prefix_val_injective(x.d@, y.d@, 6);
        assert(x.d@ =~= y.d@);
        assert(x.d == y.d);
    }

    /// The limbs of the element's value.
    pub fn to_limbs(&self) -> (r: [u64; 6])
        ensures
            limbs_val(r@) == self@,
    {
        self.d
    }

    /// The element with the given value.
    pub fn from_limbs(d: [u64; 6]) -> (r: Fp)
        requires
            limbs_val(d@) < fp_modulus(),
        ensures
            r.wf(),
            r@ == limbs_val(d@),
    {
        Fp { d }
    }

    /// The zero element.
    pub fn zero() -> (r: Fp)
        ensures
            r@ == 0,
            r.wf(),
    {
        let like: [u64; 6] = [0, 0, 0, 0, 0, 0];
        Fp { d: zero_limbs(&like) }
    }

    /// The one element.
    pub fn one() -> (r: Fp)
        ensures
            r@ == 1,
            r.wf(),
    {
        let like: [u64; 6] = [0, 0, 0, 0, 0, 0];
        Fp { d: one_limbs(&like) }
    }

    /// `self + y`.
    pub fn plus(&self, y: &Fp) -> (r: Fp)
        requires
            self.wf(),
            y.wf(),
        ensures
            r.wf(),
            r@ == fp_add(self@, y@),
    {
        let m = fp_params();
        Fp { d: add_mod(&self.d, &y.d, &m) }
    }

    /// `self - y`.
    pub fn minus(&self, y: &Fp) -> (r: Fp)
        requires
            self.wf(),
            y.wf(),
        ensures
            r.wf(),
            r@ == fp_sub(self@, y@),
    {
        let m = fp_params();
        Fp { d: sub_mod(&self.d, &y.d, &m) }
    }

    /// `self * y`.
    pub fn times(&self, y: &Fp) -> (r: Fp)
        requires
            self.wf(),
            y.wf(),
        ensures
            r.wf(),
            r@ == fp_mul(self@, y@),
    {
        let m = fp_params();
        Fp { d: mul_mod(&self.d, &y.d, &m) }
    }

    /// `-self`.
    pub fn negated(&self) -> (r: Fp)
        requires
            self.wf(),
        ensures
            r.wf(),
            r@ == fp_neg(self@),
    {
        let m = fp_params();
        Fp { d: neg_mod(&self.d, &m) }
    }

    /// `self * self`.
    pub fn squared(&self) -> (r: Fp)
        requires
            self.wf(),
        ensures
            r.wf(),
            r@ == fp_mul(self@, self@),
    {
        let m = fp_params();
        Fp { d: mul_mod(&self.d, &self.d, &m) }
    }

    /// `1 / self`, and zero where `self` has no inverse.
    pub fn inverse(&self) -> (r: Fp)
        requires
            self.wf(),
        ensures
            r.wf(),
            r@ == fp_inv(self@),
    {
        let m = fp_params();
        Fp { d: inv_mod(&self.d, &m) }
    }

    /// `self / 2`.
    pub fn halved(&self) -> (r: Fp)
        requires
            self.wf(),
        ensures
            r.wf(),
            r@ == fp_halve(self@),
    {
        let m = fp_params();
        let h = half_mod(&self.d, &m);
        Fp { d: h }
    }

    /// A placeholder for a value that is about to be overwritten: the zero
    /// element.
    pub fn uninit() -> (r: Fp)
        ensures
            r@ == 0,
            r.wf(),
    {
        Fp::zero()
    }

    /// Sets the element to zero.
    pub fn clear(&mut self)
        ensures
            final(self)@ == 0,
            final(self).wf(),
    {
        *self = Fp::zero();
    }

    /// Whether the element is zero.
    pub fn is_zero(&self) -> (r: bool)
        ensures
            r == (self@ == 0),
    {
        is_zero_limbs(&self.d)
    }

    /// Whether the element is fully reduced.
    pub fn is_valid(&self) -> (r: bool)
        ensures
            r == self.wf(),
    {
        let m = fp_params();
        less_than(&self.d, &m.p)
    }

    /// Whether the element is one.
    pub fn is_one(&self) -> (r: bool)
        ensures
            r == (self@ == 1),
    {
        let one = one_limbs(&self.d);
        eq_limbs(&self.d, &one)
    }

    /// Whether the element's value is odd.
    pub fn is_odd(&self) -> (r: bool)
        ensures
            r == (self@ % 2 == 1),
    {
        proof {
            lemma_parity(self.d@, 6);
        }
        self.d[0] % 2 == 1
    }

    /// Whether the element is negative: its value is above half the order.
    pub fn is_negative(&self) -> (r: bool)
        ensures
            r == (2 * self@ > fp_modulus()),
    {
        let m = fp_params();
        proof {
            lemma_parity(m.p@, 6);
        }
        let half = shr1(&m.p);
        less_than(&half, &self.d)
    }

    /// Compares the values of two elements: -1 where `self` is below `rhs`, 0
    /// where they are equal, 1 where `self` is above.
    pub fn cmp(&self, rhs: &Fp) -> (r: i32)
        ensures
            r == (if self@ < rhs@ {
                -1i32
            } else if self@ == rhs@ {
                0i32
            } else {
                1i32
            }),
    {
        if less_than(&self.d, &rhs.d) {
            -1
        } else if less_than(&rhs.d, &self.d) {
            1
        } else {
            0
        }
    }

    /// The element that the integer stands for.
    pub fn from_int(x: i32) -> (r: Fp)
        ensures
            r.wf(),
            r@ == fp_from_int(x as int),
    {
        let mut v = Fp::zero();
        v.set_int(x);
        v
    }

    /// Sets the element to the one that the integer stands for.
    pub fn set_int(&mut self, x: i32)
        ensures
            final(self).wf(),
            final(self)@ == fp_from_int(x as int),
    {
        let m = fp_params();
        if x >= 0 {
            let t = small_limbs(&m.p, x as u64);
            proof {
                lemma_small_mod(x as nat, fp_modulus());
            }
            self.d = t;
        } else {
            let mag: u64 = (-(x as i64)) as u64;
            let t = small_limbs(&m.p, mag);
            self.d = neg_mod(&t, &m);
        }
    }

    /// The element that the text stands for, if it stands for one.
    pub fn from_str(s: &str, base: i32) -> (r: Option<Fp>)
        ensures
            r is Some <==> fp_parse(s@, base as int) is Some,
            r matches Some(v) ==> v.wf() && fp_parse(s@, base as int) == Some(v@),
    {
        let mut v = Fp::zero();
        if v.set_str(s, base) {
            Some(v)
        } else {
            None
        }
    }

    /// Sets the element from text in base 10 or 16. Where the text stands for
    /// no element, the element is left as it was.
    pub fn set_str(&mut self, s: &str, base: i32) -> (ok: bool)
        ensures
            ok <==> fp_parse(s@, base as int) is Some,
            ok ==> final(self).wf() && fp_parse(s@, base as int) == Some(final(self)@),
            !ok ==> *final(self) == *old(self),
    {
        let b: u64 = if base == 10 {
            10
        } else if base == 16 {
            16
        } else {
            return false;
        };
        let m = fp_params();
        match parse_limbs(s, b, &m) {
            Some(t) => {
                self.d = t;
                true
            },
            None => false,
        }
    }

    /// The element's value as text in base 10 or 16.
    pub fn get_str(&self, io_mode: i32) -> (s: String)
        requires
            io_mode == 10 || io_mode == 16,
        ensures
            s@ == digits(self@, io_mode as nat),
    {
        let b: u64 = if io_mode == 10 {
            10
        } else {
            16
        };
        format_limbs(&self.d, b)
    }

    /// The text of a list of elements, in base 10 or 16.
    pub fn format_list(vs: &[Fp], io_mode: i32) -> (s: String)
        requires
            io_mode == 10 || io_mode == 16,
        ensures
            s@ == fp_format_list(fp_values(vs@), io_mode as nat),
    {
        let mut s = String::from_str("");
        let mut i: usize = 0;
        proof {
            reveal_strlit("");
            reveal_strlit(" ");
            assert(fp_values(vs@).take(0).len() == 0);
        }
        while i < vs.len()
            invariant
                i <= vs@.len(),
                io_mode == 10 || io_mode == 16,
                s@ == fp_format_list(fp_values(vs@).take(i as int), io_mode as nat),
            decreases vs@.len() - i,
        {
            let ghost pre = fp_values(vs@).take(i as int);
            let ghost cur = fp_values(vs@).take(i + 1);
            if i > 0 {
                s.append(" ");
                proof {
                    reveal_strlit(" ");
                    assert(" "@ =~= seq![' ']);
                }
            }
            let t = vs[i].get_str(io_mode);
            s.append(t.as_str());
            proof {
                assert(cur.drop_last() =~= pre);
                assert(cur.last() == vs@[i as int]@);
            }
            i = i + 1;
        }
        proof {
            assert(fp_values(vs@).take(vs@.len() as int) =~= fp_values(vs@));
        }
        s
    }

    /// The elements that the words from index `from` on stand for, where
    /// every one of them stands for an element.
    pub fn parse_list(ws: &Vec<&str>, from: usize, base: i32) -> (r: Option<Vec<Fp>>)
        requires
            from <= ws@.len(),
        ensures
            r is Some <==> fp_parse_list(views_of(ws@).skip(from as int), base as int) is Some,
            r matches Some(v) ==> fp_parse_list(views_of(ws@).skip(from as int), base as int)
                == Some(fp_values(v@)) && v@.len() == ws@.len() - from && forall|i: int|
                0 <= i < v@.len() ==> (#[trigger] v@[i]).wf(),
    {
        let mut out: Vec<Fp> = Vec::new();
        let mut i: usize = from;
        let ghost tail = views_of(ws@).skip(from as int);
        while i < ws.len()
            invariant
                from <= i <= ws@.len(),
                tail == views_of(ws@).skip(from as int),
                out@.len() == i - from,
                forall|j: int| 0 <= j < out@.len() ==> (#[trigger] out@[j]).wf(),
                forall|j: int|
                    0 <= j < out@.len() ==> fp_parse(#[trigger] tail[j], base as int) == Some(
                        out@[j]@,
                    ),
            decreases ws@.len() - i,
        {
            let mut v = Fp::zero();
            proof {
                assert(tail[i - from] == ws@[i as int]@);
            }
            if !v.set_str(ws[i], base) {
                return None;
            }
            out.push(v);
            i = i + 1;
        }
        proof {
            assert(fp_parse_list(tail, base as int).unwrap() =~= fp_values(out@));
        }
        Some(out)
    }

    /// The element's bytes.
    pub fn serialize(&self) -> (out: Vec<u8>)
        ensures
            out@ == fp_encode(self@),
    {
        to_le_bytes(&self.d)
    }

    /// Sets the element from its bytes. Where the bytes stand for no element,
    /// the element is left as it was.
    pub fn deserialize(&mut self, buf: &[u8]) -> (ok: bool)
        ensures
            ok <==> fp_decode(buf@) is Some,
            ok ==> final(self).wf() && fp_decode(buf@) == Some(final(self)@),
            !ok ==> *final(self) == *old(self),
    {
        if buf.len() != 48 {
            return false;
        }
        self.set_little_endian(buf)
    }

    /// Sets the element from a little-endian number of any length, where the
    /// number is below the field's order; else the element is left as it was.
    pub fn set_little_endian(&mut self, buf: &[u8]) -> (ok: bool)
        ensures
            ok <==> le_bytes_val(buf@) < fp_modulus(),
            ok ==> final(self).wf() && final(self)@ == le_bytes_val(buf@),
            !ok ==> *final(self) == *old(self),
    {
        let m = fp_params();
        proof {
            lemma_prefix_val_bound(m.p@, 6);
        }
        match from_le_bytes(buf, &m.p) {
            Some(t) => {
                if less_than(&t, &m.p) {
                    self.d = t;
                    true
                } else {
                    false
                }
            },
            None => false,
        }
    }

    /// Sets the element to a little-endian number of any length, reduced
    /// modulo the field's order. Always succeeds.
    pub fn set_little_endian_mod(&mut self, buf: &[u8]) -> (ok: bool)
        ensures
            ok,
            final(self).wf(),
            final(self)@ == le_bytes_val(buf@) % fp_modulus(),
    {
        let m = fp_params();
        self.d = reduce_le_bytes(buf, &m);
        true
    }

    /// Sets the element to the one that the message hashes to. Always
    /// succeeds.
    pub fn set_hash_of(&mut self, buf: &[u8]) -> (ok: bool)
        ensures
            ok,
            final(self).wf(),
            final(self)@ == fp_hash(buf@),
    {
        let e = expand(buf);
        self.set_little_endian_mod(e.as_slice())
    }

    /// Sets the element from a sample of 48 random bytes: the bits above
    /// the order's length are cleared, and the sample is taken where what is
    /// left is below the order. A rejected sample leaves the element as it was.
    pub fn set_from_sample(&mut self, sample: &[u8]) -> (ok: bool)
        ensures
            ok <==> sample@.len() == 48 && le_bytes_val(fp_masked_sample(sample@))
                < fp_modulus(),
            ok ==> final(self).wf() && final(self)@ == le_bytes_val(fp_masked_sample(sample@)),
            !ok ==> *final(self) == *old(self),
    {
        if sample.len() != 48 {
            return false;
        }
        let mut v: Vec<u8> = Vec::new();
        v.extend_from_slice(sample);
        let top: u8 = v[47] & 0x1f;
        v.set(47, top);
        proof {
            assert(v@ =~= fp_masked_sample(sample@));
        }
        self.set_little_endian(v.as_slice())
    }

    /// Sets the element to a uniformly random one: draws samples from the
    /// system's random source and takes the first that is not rejected, so
    /// that no value is favoured. Fails, leaving the element as it was, where
    /// the source fails or rejects 128 samples in a row.
    pub fn set_by_csprng(&mut self) -> (ok: bool)
        ensures
            ok ==> final(self).wf(),
            !ok ==> *final(self) == *old(self),
    {
        let ghost before = *self;
        let mut tries: u32 = 0;
        while tries < 128
            invariant
                *self == before,
                before == *old(self),
            decreases 128 - tries,
        {
            let mut buf: Vec<u8> = vec![0u8; 48];
            if !fill_random(&mut buf) {
                return false;
            }
            if self.set_from_sample(buf.as_slice()) {
                return true;
            }
            tries = tries + 1;
        }
        false
    }

    /// `z = x + y`.
    pub fn add(z: &mut Fp, x: &Fp, y: &Fp)
        requires
            x.wf(),
            y.wf(),
        ensures
            final(z).wf(),
            final(z)@ == mod_add(x@, y@, fp_modulus()),
    {
        let m = fp_params();
        z.d = add_mod(&x.d, &y.d, &m);
    }

    /// `z = x - y`.
    pub fn sub(z: &mut Fp, x: &Fp, y: &Fp)
        requires
            x.wf(),
            y.wf(),
        ensures
            final(z).wf(),
            final(z)@ == mod_sub(x@, y@, fp_modulus()),
    {
        let m = fp_params();
        z.d = sub_mod(&x.d, &y.d, &m);
    }

    /// `y = -x`.
    pub fn neg(y: &mut Fp, x: &Fp)
        requires
            x.wf(),
        ensures
            final(y).wf(),
            final(y)@ == mod_neg(x@, fp_modulus()),
    {
        let m = fp_params();
        y.d = neg_mod(&x.d, &m);
    }

    /// `z = x * y`.
    pub fn mul(z: &mut Fp, x: &Fp, y: &Fp)
        requires
            x.wf(),
            y.wf(),
        ensures
            final(z).wf(),
            final(z)@ == mod_mul(x@, y@, fp_modulus()),
    {
        let m = fp_params();
        z.d = mul_mod(&x.d, &y.d, &m);
    }

    /// `y = x^2`.
    pub fn sqr(y: &mut Fp, x: &Fp)
        requires
            x.wf(),
        ensures
            final(y).wf(),
            final(y)@ == fp_sqr(x@),
    {
        let m = fp_params();
        proof {
            crate::modmath::lemma_pow2_is_square(x@, fp_modulus());
        }
        y.d = mul_mod(&x.d, &x.d, &m);
    }

    /// `y = 1 / x`: the inverse of `x`, and zero where `x` has none, as zero
    /// itself has none.
    pub fn inv(y: &mut Fp, x: &Fp)
        requires
            x.wf(),
        ensures
            final(y).wf(),
            final(y)@ == mod_inv(x@, fp_modulus()),
    {
        let m = fp_params();
        y.d = inv_mod(&x.d, &m);
    }

    /// `z = x / y`: `x` times the inverse of `y`, and zero where `y` has none.
    pub fn div(z: &mut Fp, x: &Fp, y: &Fp)
        requires
            x.wf(),
            y.wf(),
        ensures
            final(z).wf(),
            final(z)@ == mod_div(x@, y@, fp_modulus()),
    {
        let m = fp_params();
        let yi = inv_mod(&y.d, &m);
        z.d = mul_mod(&x.d, &yi, &m);
    }

    /// The order of the field, in decimal.
    pub fn get_order() -> (s: String)
        ensures
            s@ == digits(fp_modulus(), 10),
    {
        let m = fp_params();
        format_limbs(&m.p, 10)
    }

    /// `y` = the square root of `x` that is not negative, where `x` has a
    /// square root; else `y` is left as it was. As the order is 3 modulo 4,
    /// the only candidate is a fixed power of `x`, and `x` has a square root
    /// where that candidate is one.
    pub fn square_root(y: &mut Fp, x: &Fp) -> (ok: bool)
        requires
            x.wf(),
        ensures
            ok <==> mod_mul(fp_sqrt_candidate(x@), fp_sqrt_candidate(x@), fp_modulus()) == x@,
            ok ==> final(y).wf() && final(y)@ == lesser_root(fp_sqrt_candidate(x@), fp_modulus())
                && mod_mul(final(y)@, final(y)@, fp_modulus()) == x@,
            !ok ==> *final(y) == *old(y),
    {
        let m = fp_params();
        let one = one_limbs(&m.p);
        let (p1, c) = add_limbs(&m.p, &one);
        proof {
            lemma_radix_pos(6);
            assert(c == 0 && (c as nat) * radix(6) == 0) by (nonlinear_arith)
                requires
                    limbs_val(p1@) + (c as nat) * radix(6) < radix(6),
                    radix(6) > 0,
            ;
            lemma_parity(p1@, 6);
        }
        let h = shr1(&p1);
        proof {
            lemma_parity(h@, 6);
        }
        let e = shr1(&h);
        let cand = pow_mod(&x.d, &e, &m);
        let sq = mul_mod(&cand, &cand, &m);
        if !eq_limbs(&sq, &x.d) {
            return false;
        }
        let t = Fp { d: cand };
        if t.is_negative() {
            proof {
                lemma_neg_square(limbs_val(cand@), fp_modulus());
            }
            y.d = neg_mod(&cand, &m);
        } else {
            y.d = cand;
        }
        true
    }

    /// The sign of the element as an ordinate.
    pub fn sign_bit(&self) -> (r: bool)
        ensures
            r == fp_sign(self@),
    {
        self.is_odd()
    }

    /// The abscissa that a message hashes to.
    pub fn hash_point(msg: &[u8]) -> (r: Fp)
        ensures
            r.wf(),
            r@ == fp_hash_point(msg@),
    {
        let mut x = Fp::zero();
        x.set_hash_of(msg);
        x
    }

    /// The element after this one: `self + 1`.
    pub fn successor(&self) -> (r: Fp)
        requires
            self.wf(),
        ensures
            r.wf(),
            r@ == fp_next(self@),
    {
        self.plus(&Fp::one())
    }

    /// The square root of `self` that is not negative, where `self` has one.
    pub fn sqrt(&self) -> (r: Option<Fp>)
        requires
            self.wf(),
        ensures
            r is Some <==> fp_sqrt(self@) is Some,
            r matches Some(v) ==> v.wf() && fp_sqrt(self@) == Some(v@) && fp_mul(v@, v@) == self@,
    {
        let mut y = Fp::zero();
        if Fp::square_root(&mut y, self) {
            Some(y)
        } else {
            None
        }
    }

}

/// Adding and then subtracting `y` gives `x` back.
pub proof fn lemma_fp_add_then_sub(x: Fp, y: Fp)
    requires
        x.wf(),
        y.wf(),
    ensures
        mod_sub(mod_add(x@, y@, fp_modulus()), y@, fp_modulus()) == x@,
{
    lemma_add_sub_cancel(x@, y@, fp_modulus());
}

/// Multiplying and then dividing by `y` gives `x` back, for every `y` that has
/// an inverse.
pub proof fn lemma_fp_mul_then_div(x: Fp, y: Fp)
    requires
        x.wf(),
        y.wf(),
        has_inverse(y@, fp_modulus()),
    ensures
        mod_div(mod_mul(x@, y@, fp_modulus()), y@, fp_modulus()) == x@,
{
    lemma_mul_div_cancel(x@, y@, fp_modulus());
}

/// Where the order is prime, every element but zero has an inverse.
pub proof fn lemma_fp_nonzero_has_inverse(y: Fp)
    requires
        y.wf(),
        y@ != 0,
        is_prime(fp_modulus()),
    ensures
        has_inverse(y@, fp_modulus()),
{
    lemma_prime_has_inverse(y@, fp_modulus());
}

/// The square is the product with itself.
pub proof fn lemma_fp_sqr_is_mul(x: Fp)
    requires
        x.wf(),
    ensures
        fp_sqr(x@) == fp_mul(x@, x@),
{
    crate::modmath::lemma_pow2_is_square(x@, fp_modulus());
}

/// Both signs of a square root are square roots.
pub proof fn lemma_fp_both_roots(x: Fp, y: Fp)
    requires
        x.wf(),
        y.wf(),
        fp_sqr(y@) == x@,
    ensures
        fp_sqr(fp_neg(y@)) == x@,
{
    lemma_neg_square(y@, fp_modulus());
    crate::modmath::lemma_pow2_is_square(y@, fp_modulus());
    crate::modmath::lemma_pow2_is_square(fp_neg(y@), fp_modulus());
}

/// What `square_root` returns is a square root.
pub proof fn lemma_fp_sqrt_is_root(x: Fp)
    requires
        x.wf(),
        fp_sqrt(x@) is Some,
    ensures
        fp_sqr(fp_sqrt(x@)->0) == x@,
{
    let y = fp_sqrt(x@)->0;
    let c = fp_sqrt_candidate(x@);
    lemma_mod_bound(
        vstd::arithmetic::power::pow(x@ as int, (fp_modulus() + 1) / 4),
        fp_modulus() as int,
    );
    if 2 * c > fp_modulus() {
        lemma_neg_square(c, fp_modulus());
    }
    crate::modmath::lemma_pow2_is_square(y, fp_modulus());
}

/// Decoding the encoding of a value gives the value back.
pub proof fn lemma_fp_decode_encode(x: nat)
    requires
        x < fp_modulus(),
    ensures
        fp_decode(fp_encode(x)) == Some(x),
{
    lemma_pow256_radix(6);
    reveal_with_fuel(radix, 7);
    lemma_le_encode_val(x, 48);
}

/// Reading an element's bytes gives the element back.
pub proof fn lemma_fp_serialize_roundtrip(x: Fp)
    requires
        x.wf(),
    ensures
        fp_decode(fp_encode(x@)) == Some(x@),
{
    lemma_fp_decode_encode(x@);
}

/// The words of the text of a list are the texts of its elements.
pub proof fn lemma_fp_format_list_words(vs: Seq<nat>, b: nat)
    requires
        vs.len() >= 1,
    ensures
        words(fp_format_list(vs, b)) == Seq::new(vs.len(), |i: int| digits(vs[i], b)),
    decreases vs.len(),
{
    let want = Seq::new(vs.len(), |i: int| digits(vs[i], b));
    lemma_digits_no_space(vs.last(), b);
    if vs.len() == 1 {
        lemma_words_single(digits(vs[0], b));
        assert(words(fp_format_list(vs, b)) =~= want);
    } else {
        let hd = vs.drop_last();
        lemma_fp_format_list_words(hd, b);
        lemma_words_push(fp_format_list(hd, b), digits(vs.last(), b));
        assert(words(fp_format_list(vs, b)) =~= want);
    }
}

/// Reading the text of a list of elements gives the elements back, in base 10
/// and 16.
pub proof fn lemma_fp_list_roundtrip(vs: Seq<nat>, base: int)
    requires
        vs.len() >= 1,
        forall|i: int| 0 <= i < vs.len() ==> vs[i] < fp_modulus(),
        base == 10 || base == 16,
    ensures
        fp_parse_list(words(fp_format_list(vs, base as nat)), base) == Some(vs),
{
    let ws = words(fp_format_list(vs, base as nat));
    lemma_fp_format_list_words(vs, base as nat);
    assert forall|i: int| 0 <= i < ws.len() implies fp_parse(#[trigger] ws[i], base) == Some(
        vs[i],
    ) by {
        lemma_parse_digits(vs[i], base as nat);
    }
    assert(fp_parse_list(ws, base).unwrap() =~= vs);
}

/// Reading an element's text gives the element back, in base 10 and 16.
pub proof fn lemma_fp_text_roundtrip(x: Fp, base: int)
    requires
        x.wf(),
        base == 10 || base == 16,
    ensures
        fp_parse(digits(x@, base as nat), base) == Some(x@),
{
    lemma_parse_digits(x@, base as nat);
}

/// Whether `x` is a square in the base field.
pub open spec fn fp_is_square(x: nat) -> bool {
    exists|y: nat| y < fp_modulus() && fp_mul(y, y) == x
}

/// The order of the base field is 3 modulo 4.
pub proof fn lemma_fp_modulus_mod_four()
    ensures
        fp_modulus() % 4 == 3,
        fp_modulus() % 2 == 1,
{
}

/// A number and its negative have one lesser root.
pub proof fn lemma_fp_lesser_root_of_negative(y: nat)
    requires
        y < fp_modulus(),
    ensures
        lesser_root(fp_neg(y), fp_modulus()) == lesser_root(y, fp_modulus()),
        fp_neg(fp_neg(y)) == y,
        y != 0 ==> fp_neg(y) == fp_modulus() - y,
{
    let p = fp_modulus();
    if y == 0 {
        lemma_small_mod(0, p);
    } else {
        crate::modmath::lemma_mod_unique(-(y as int), p - y, -1, p as int);
        crate::modmath::lemma_mod_unique(-((p - y) as int), y as int, -1, p as int);
    }
}

/// Where the order is prime, `square_root` succeeds on the squares and on
/// nothing else.
pub proof fn lemma_fp_sqrt_finds_squares(x: Fp)
    requires
        x.wf(),
        is_prime(fp_modulus()),
    ensures
        fp_sqrt(x@) is Some <==> fp_is_square(x@),
{
    let p = fp_modulus();
    let c = fp_sqrt_candidate(x@);
    lemma_mod_bound(vstd::arithmetic::power::pow(x@ as int, (p + 1) / 4), p as int);
    if fp_sqrt(x@) is Some {
        assert(c < p && fp_mul(c, c) == x@);
    }
    if fp_is_square(x@) {
        let y = choose|y: nat| y < p && fp_mul(y, y) == x@;
        crate::fermat::lemma_root_of_square(x@, y, p);
    }
}

/// Where the order is prime, the square root of the square of `y` is the one
/// of `y` and its negative that is not negative.
pub proof fn lemma_fp_sqrt_of_square(x: nat, y: nat)
    requires
        x < fp_modulus(),
        y < fp_modulus(),
        is_prime(fp_modulus()),
        fp_mul(y, y) == x,
    ensures
        fp_sqrt(x) == Some(lesser_root(y, fp_modulus())),
{
    let p = fp_modulus();
    let c = fp_sqrt_candidate(x);
    lemma_mod_bound(vstd::arithmetic::power::pow(x as int, (p + 1) / 4), p as int);
    crate::fermat::lemma_root_of_square(x, y, p);
    crate::fermat::lemma_roots_agree(c, y, p);
    lemma_fp_lesser_root_of_negative(y);
}

/// Where the order is prime, `square_root` returns the root that is not
/// negative of every number that has a root.
pub proof fn lemma_fp_sqrt_is_the_root(x: Fp, y: Fp)
    requires
        x.wf(),
        y.wf(),
        is_prime(fp_modulus()),
        fp_mul(y@, y@) == x@,
    ensures
        fp_sqrt(x@) == Some(lesser_root(y@, fp_modulus())),
{
    lemma_fp_sqrt_of_square(x@, y@);
}

/// The last byte of the bytes of an element is below 0x20: the three bits at
/// its top are free.
pub proof fn lemma_fp_top_byte(x: nat)
    requires
        x < fp_modulus(),
    ensures
        fp_encode(x).len() == 48,
        fp_encode(x)[47] < 0x20,
{
    lemma_pow256_radix(6);
    reveal_with_fuel(radix, 7);
    let w = crate::bytes::pow256(47);
    assert(crate::bytes::pow256(48) == 256 * w);
    assert(w == 0x10000000000000000000000000000000000000000000000000000000000000000000000000000000000000000000000nat);
    assert(x / w < 0x20);
    assert((x / w) % 256 == x / w);
}

/// What the square root finds is fully reduced and squares to the number.
pub proof fn lemma_fp_sqrt_squares(x: nat)
    requires
        x < fp_modulus(),
        fp_sqrt(x) is Some,
    ensures
        fp_sqrt(x)->0 < fp_modulus(),
        fp_mul(fp_sqrt(x)->0, fp_sqrt(x)->0) == x,
{
    let p = fp_modulus();
    let c = fp_sqrt_candidate(x);
    lemma_mod_bound(vstd::arithmetic::power::pow(x as int, (p + 1) / 4), p as int);
    lemma_mod_bound(-(c as int), p as int);
    if 2 * c > p {
        lemma_neg_square(c, p);
    }
}

/// Half of twice a number is the number.
pub proof fn lemma_fp_halve_double(v: nat, t: nat)
    requires
        v < fp_modulus(),
        t < fp_modulus(),
        crate::modmath::cong(v as int, 2 * (t as int), fp_modulus() as int),
    ensures
        fp_halve(v) == t,
{
    let p = fp_modulus();
    let m = p as int;
    let h = fp_halve(v);
    // 2 h is v or v + p
    assert(2 * h == v || 2 * h == v + p);
    assert(h < p);
    crate::modmath::lemma_mod_unique(2 * (h as int) - (v as int), 0, if 2 * h == v {
        0int
    } else {
        1int
    }, m);
    crate::modmath::lemma_cong_trans(2 * (h as int), v as int, 2 * (t as int), m);
    // cancel the factor 2, whose inverse is (p + 1) / 2
    let half = (p + 1) / 2;
    crate::modmath::lemma_mod_unique(2 * (half as int), 1, 1, m);
    crate::modmath::lemma_cong_rem(2 * (h as int), m);
    crate::modmath::lemma_cong_rem(2 * (t as int), m);
    crate::modmath::lemma_cong_sym((2 * (t as int)) % m, 2 * (t as int), m);
    crate::modmath::lemma_cong_trans((2 * (h as int)) % m, 2 * (h as int), 2 * (t as int), m);
    crate::modmath::lemma_cong_trans((2 * (h as int)) % m, 2 * (t as int), (2 * (t as int)) % m, m);
    lemma_mod_bound(2 * (h as int), m);
    lemma_mod_bound(2 * (t as int), m);
    crate::modmath::lemma_cong_eq((2 * (h as int)) % m, (2 * (t as int)) % m, m);
    assert((h as int) * 2 == 2 * (h as int) && (t as int) * 2 == 2 * (t as int));
    crate::modmath::lemma_cancel_unit(h as int, t as int, 2, half as int, m);
    lemma_small_mod(h, p);
    lemma_small_mod(t, p);
}

impl Fp {
    /// The element with the value `v`.
    pub open spec fn with_value(v: nat) -> Fp {
        choose|r: Fp| r@ == v
    }
}

impl<'a> core::ops::Add for &'a Fp {
    type Output = Fp;

    fn add(self, other: &Fp) -> (r: Fp) {
        let r = self.plus(other);
        proof {
            Fp::lemma_view_injective(r, Fp::with_value(fp_add(self@, other@)));
        }
        r
    }
}

impl<'a> vstd::std_specs::ops::AddSpecImpl for &'a Fp {
    open spec fn obeys_add_spec() -> bool {
        true
    }

    open spec fn add_req(self, other: &'a Fp) -> bool {
        self.wf() && other.wf()
    }

    open spec fn add_spec(self, other: &'a Fp) -> Fp {
        Fp::with_value(fp_add(self@, other@))
    }
}

impl<'a> core::ops::AddAssign<&'a Fp> for Fp {
    /// Where an operand is not fully reduced, `self` is left as it was.
    fn add_assign(&mut self, other: &Fp)
        ensures
            old(self).wf() && other.wf() ==> final(self).wf(),
            old(self).wf() && other.wf() ==> final(self)@ == fp_add(old(self)@, other@),
            !(old(self).wf() && other.wf()) ==> *final(self) == *old(self),
    {
        if self.is_valid() && other.is_valid() {
            let r = self.plus(other);
            *self = r;
        }
    }
}

impl<'a> core::ops::Sub for &'a Fp {
    type Output = Fp;

    fn sub(self, other: &Fp) -> (r: Fp) {
        let r = self.minus(other);
        proof {
            Fp::lemma_view_injective(r, Fp::with_value(fp_sub(self@, other@)));
        }
        r
    }
}

impl<'a> vstd::std_specs::ops::SubSpecImpl for &'a Fp {
    open spec fn obeys_sub_spec() -> bool {
        true
    }

    open spec fn sub_req(self, other: &'a Fp) -> bool {
        self.wf() && other.wf()
    }

    open spec fn sub_spec(self, other: &'a Fp) -> Fp {
        Fp::with_value(fp_sub(self@, other@))
    }
}

impl<'a> core::ops::SubAssign<&'a Fp> for Fp {
    /// Where an operand is not fully reduced, `self` is left as it was.
    fn sub_assign(&mut self, other: &Fp)
        ensures
            old(self).wf() && other.wf() ==> final(self).wf(),
            old(self).wf() && other.wf() ==> final(self)@ == fp_sub(old(self)@, other@),
            !(old(self).wf() && other.wf()) ==> *final(self) == *old(self),
    {
        if self.is_valid() && other.is_valid() {
            let r = self.minus(other);
            *self = r;
        }
    }
}

impl<'a> core::ops::Mul for &'a Fp {
    type Output = Fp;

    fn mul(self, other: &Fp) -> (r: Fp) {
        let r = self.times(other);
        proof {
            Fp::lemma_view_injective(r, Fp::with_value(fp_mul(self@, other@)));
        }
        r
    }
}

impl<'a> vstd::std_specs::ops::MulSpecImpl for &'a Fp {
    open spec fn obeys_mul_spec() -> bool {
        true
    }

    open spec fn mul_req(self, other: &'a Fp) -> bool {
        self.wf() && other.wf()
    }

    open spec fn mul_spec(self, other: &'a Fp) -> Fp {
        Fp::with_value(fp_mul(self@, other@))
    }
}

impl<'a> core::ops::MulAssign<&'a Fp> for Fp {
    /// Where an operand is not fully reduced, `self` is left as it was.
    fn mul_assign(&mut self, other: &Fp)
        ensures
            old(self).wf() && other.wf() ==> final(self).wf(),
            old(self).wf() && other.wf() ==> final(self)@ == fp_mul(old(self)@, other@),
            !(old(self).wf() && other.wf()) ==> *final(self) == *old(self),
    {
        if self.is_valid() && other.is_valid() {
            let r = self.times(other);
            *self = r;
        }
    }
}

impl<'a> core::ops::Div for &'a Fp {
    type Output = Fp;

    fn div(self, other: &Fp) -> (r: Fp) {
        let r = self.times(&other.inverse());
        proof {
            Fp::lemma_view_injective(r, Fp::with_value(fp_mul(self@, fp_inv(other@))));
        }
        r
    }
}

impl<'a> vstd::std_specs::ops::DivSpecImpl for &'a Fp {
    open spec fn obeys_div_spec() -> bool {
        true
    }

    open spec fn div_req(self, other: &'a Fp) -> bool {
        self.wf() && other.wf()
    }

    open spec fn div_spec(self, other: &'a Fp) -> Fp {
        Fp::with_value(fp_mul(self@, fp_inv(other@)))
    }
}

impl<'a> core::ops::DivAssign<&'a Fp> for Fp {
    /// Where an operand is not fully reduced, `self` is left as it was.
    fn div_assign(&mut self, other: &Fp)
        ensures
            old(self).wf() && other.wf() ==> final(self).wf(),
            old(self).wf() && other.wf() ==> final(self)@ == fp_mul(old(self)@, fp_inv(other@)),
            !(old(self).wf() && other.wf()) ==> *final(self) == *old(self),
    {
        if self.is_valid() && other.is_valid() {
            let r = self.times(&other.inverse());
            *self = r;
        }
    }
}

} // verus!
