//! The scalar field of the curve: the integers modulo the 255-bit prime `r`, the order
//! of the groups.

use crate::bytes::{
    from_le_bytes, le_bytes_val, le_encode, lemma_le_encode_val, lemma_pow256_radix,
    reduce_le_bytes, to_le_bytes,
};
use crate::hash::{expand, expand_message};
use crate::inverse::{eq_limbs, half_mod, inv_mod, lemma_parity, shr1};
use crate::limbs::{
    is_zero_limbs, lemma_prefix_val_bound, less_than, limbs_val, prefix_val, radix, zero_limbs,
};
use crate::modmath::cong;
use crate::modmath::{
    has_inverse, is_prime, lemma_add_sub_cancel, lemma_mul_div_cancel, lemma_neg_square,
    lemma_prime_has_inverse, lesser_root, mod_add, mod_div, mod_inv, mod_mul, mod_neg, mod_pow,
    mod_sub,
};
use crate::modular::{add_mod, mul_mod, neg_mod, one_limbs, pow_mod, small_limbs, sub_mod, Modulus};
use crate::random::fill_random;
use crate::text::{digits, format_limbs, lemma_parse_digits, parse_limbs, parse_nat};

use vstd::arithmetic::div_mod::{lemma_mod_bound, lemma_small_mod};
use vstd::prelude::*;
use vstd::std_specs::cmp::PartialEqSpecImpl;

verus! {

/// The order of the scalar field.
pub open spec fn fr_modulus() -> nat {
    0x73eda753299d7d483339d80809a1d80553bda402fffe5bfeffffffff00000001nat
}

/// The inverse of `radix(4)` modulo the order of the scalar field.
pub open spec fn fr_rinv() -> nat {
    0x1bbe869330009d577204078a4f77266aab6fca8f09dc705f13f75b69fe75c040nat
}

/// The scalar field's modulus with its multiplication constants.
pub fn fr_params() -> (m: Modulus<4>)
    ensures
        m.wf(),
        m.value() == fr_modulus(),
{
    let p: [u64; 4] = [
        0xffffffff00000001,
        0x53bda402fffe5bfe,
        0x3339d80809a1d805,
        0x73eda753299d7d48,
    ];
    let r2: [u64; 4] = [
        0xc999e990f3f29c6d,
        0x2b6cedcb87925c23,
        0x05d314967254398f,
        0x0748d9d99f59ff11,
    ];
    let m = Modulus { p, n0: 0xfffffffeffffffff, r2, rinv: Ghost(fr_rinv()) };
    proof {
        reveal_with_fuel(prefix_val, 2);
        reveal_with_fuel(radix, 2);
        assert(radix(0) == 1);
        assert(prefix_val(p@, 0) == 0);
        assert(prefix_val(r2@, 0) == 0);
        assert(radix(1) == 0x10000000000000000nat);
        assert(prefix_val(p@, 1) == 0xffffffff00000001nat);
        assert(prefix_val(r2@, 1) == 0xc999e990f3f29c6dnat);
        assert(radix(2) == 0x100000000000000000000000000000000nat);
        assert(prefix_val(p@, 2) == 0x53bda402fffe5bfeffffffff00000001nat);
        assert(prefix_val(r2@, 2) == 0x2b6cedcb87925c23c999e990f3f29c6dnat);
        assert(radix(3) == 0x1000000000000000000000000000000000000000000000000nat);
        assert(prefix_val(p@, 3) == 0x3339d80809a1d80553bda402fffe5bfeffffffff00000001nat);
        assert(prefix_val(r2@, 3) == 0x5d314967254398f2b6cedcb87925c23c999e990f3f29c6dnat);
        assert(radix(4) == 0x10000000000000000000000000000000000000000000000000000000000000000nat);
        assert(prefix_val(p@, 4) == 0x73eda753299d7d483339d80809a1d80553bda402fffe5bfeffffffff00000001nat);
        assert(prefix_val(r2@, 4) == 0x748d9d99f59ff1105d314967254398f2b6cedcb87925c23c999e990f3f29c6dnat);
        assert(limbs_val(p@) == fr_modulus());
        assert(limbs_val(r2@) == 0x748d9d99f59ff1105d314967254398f2b6cedcb87925c23c999e990f3f29c6dnat);
    }
    m
}

/// The sum of two elements' values.
pub open spec fn fr_add(a: nat, b: nat) -> nat {
    mod_add(a, b, fr_modulus())
}

/// The difference of two elements' values.
pub open spec fn fr_sub(a: nat, b: nat) -> nat {
    mod_sub(a, b, fr_modulus())
}

/// The negative of an element's value.
pub open spec fn fr_neg(a: nat) -> nat {
    mod_neg(a, fr_modulus())
}

/// The product of two elements' values.
pub open spec fn fr_mul(a: nat, b: nat) -> nat {
    mod_mul(a, b, fr_modulus())
}

/// The square of an element's value.
pub open spec fn fr_sqr(a: nat) -> nat {
    mod_pow(a, 2, fr_modulus())
}

/// The inverse of an element's value, and zero where it has none.
pub open spec fn fr_inv(a: nat) -> nat {
    mod_inv(a, fr_modulus())
}

/// The half of an element's value: the value whose double it is.
pub open spec fn fr_halve(a: nat) -> nat {
    if a % 2 == 0 {
        a / 2
    } else {
        (a + fr_modulus()) / 2
    }
}

/// The number that an integer stands for in the scalar field: the integer modulo
/// the field's order, so that negative integers count down from the order.
pub open spec fn fr_from_int(x: int) -> nat {
    (x % (fr_modulus() as int)) as nat
}

/// The bytes of an element: its value in 32 bytes, little-endian.
pub open spec fn fr_encode(v: nat) -> Seq<u8> {
    le_encode(v, 32)
}

/// The element that a byte string stands for: the string has 32 bytes and
/// its little-endian value is below the field's order.
pub open spec fn fr_decode(b: Seq<u8>) -> Option<nat> {
    if b.len() == 32 && le_bytes_val(b) < fr_modulus() {
        Some(le_bytes_val(b))
    } else {
        None
    }
}

/// The element that a text stands for in base 10 or 16: the text is a string
/// of digits whose value is below the field's order.
pub open spec fn fr_parse(s: Seq<char>, b: int) -> Option<nat> {
    if b == 10 || b == 16 {
        match parse_nat(s, b as nat) {
            Some(v) => if v < fr_modulus() {
                Some(v)
            } else {
                None
            },
            None => None,
        }
    } else {
        None
    }
}

/// A root of unity of order 2^32 in the scalar field: the power `(r - 1) /
/// 2^32` of the number 7.
pub open spec fn fr_root_of_unity() -> nat {
    0x16a2a19edfe81f20d09b681922c813b4b63683508c2280b93829971f439f0d2bnat
}

/// The exponent that starts the search for a square root: `(t - 1) / 2` for
/// the odd `t` with `r - 1 == 2^32 * t`.
pub open spec fn fr_sqrt_exponent() -> nat {
    0x39f6d3a994cebea4199cec0404d0ec02a9ded2017fff2dff7fffffffnat
}

/// `z` squared `n` times over.
pub open spec fn fr_square_times(z: nat, n: nat) -> nat
    decreases n,
{
    if n == 0 {
        z
    } else {
        fr_square_times(fr_mul(z, z), (n - 1) as nat)
    }
}

/// From `b2`, which is some number squared `k` times, the least count of
/// squarings up to `v` that reaches one.
pub open spec fn fr_order_exponent(b2: nat, k: nat, v: nat) -> nat
    decreases v - k,
{
    if k >= v || b2 == 1 {
        k
    } else {
        fr_order_exponent(fr_mul(b2, b2), k + 1, v)
    }
}

/// The search of Tonelli and Shanks from the candidate `xr`, the error `b`
/// and the root of unity `z` of order `2^v`: while the error is not one, its
/// order is found and the candidate corrected by a power of the root of
/// unity; the search fails where the error's order is not below `2^v`.
pub open spec fn fr_search(xr: nat, b: nat, z: nat, v: nat) -> Option<nat>
    decreases v,
{
    if b == 1 {
        Some(xr)
    } else {
        let k = fr_order_exponent(fr_mul(b, b), 1, v);
        if k >= v {
            None
        } else {
            let w = fr_square_times(z, (v - k - 1) as nat);
            let z2 = fr_mul(w, w);
            fr_search(fr_mul(xr, w), fr_mul(b, z2), z2, k)
        }
    }
}

/// What the search finds is fully reduced, where what it starts from is.
pub proof fn lemma_fr_search_bound(xr: nat, b: nat, z: nat, v: nat)
    requires
        xr < fr_modulus(),
    ensures
        fr_search(xr, b, z, v) matches Some(c) ==> c < fr_modulus(),
    decreases v,
{
    if b != 1 {
        let k = fr_order_exponent(fr_mul(b, b), 1, v);
        if k < v {
            let w = fr_square_times(z, (v - k - 1) as nat);
            let z2 = fr_mul(w, w);
            lemma_mod_bound((xr * w) as int, fr_modulus() as int);
            lemma_fr_search_bound(fr_mul(xr, w), fr_mul(b, z2), z2, k);
        }
    }
}

/// The square root of `x` that is not negative, where the search finds a
/// square root of `x`.
pub open spec fn fr_sqrt(x: nat) -> Option<nat> {
    if x == 0 {
        Some(0nat)
    } else {
        let w = mod_pow(x, fr_sqrt_exponent(), fr_modulus());
        let xr = fr_mul(x, w);
        match fr_search(xr, fr_mul(xr, w), fr_root_of_unity(), 32) {
            None => None,
            Some(c) => if fr_mul(c, c) == x {
                Some(lesser_root(c, fr_modulus()))
            } else {
                None
            },
        }
    }
}

/// A sample of random bytes with the bits above the order's length cleared.
pub open spec fn fr_masked_sample(s: Seq<u8>) -> Seq<u8> {
    s.update(31, s[31] & 0x7fu8)
}

/// The element that a message hashes to: the expanded message as a
/// little-endian number, modulo the field's order.
pub open spec fn fr_hash(msg: Seq<u8>) -> nat {
    le_bytes_val(expand_message(msg)) % fr_modulus()
}

/// An element of the scalar field: an integer modulo the field's order, held fully
/// reduced in 4 little-endian 64-bit limbs.
#[derive(Clone, Copy, Debug)]
pub struct Fr {
    d: [u64; 4],
}

impl View for Fr {
    type V = nat;

    /// The integer that the limbs hold.
    closed spec fn view(&self) -> nat {
        limbs_val(self.d@)
    }
}

impl PartialEq for Fr {
    fn eq(&self, rhs: &Self) -> (r: bool) {
        eq_limbs(&self.d, &rhs.d)
    }
}

impl PartialEqSpecImpl for Fr {
    open spec fn obeys_eq_spec() -> bool {
        true
    }

    open spec fn eq_spec(&self, rhs: &Self) -> bool {
        self@ == rhs@
    }
}

impl Default for Fr {
    fn default() -> (r: Fr)
        ensures
            r@ == 0,
            r.wf(),
    {
        Fr::zero()
    }
}

impl Fr {
    /// The element is fully reduced.
    pub open spec fn wf(&self) -> bool {
        self@ < fr_modulus()
    }

    /// Elements with one value are one element.
    pub proof fn lemma_view_injective(x: Fr, y: Fr)
        requires
            x@ == y@,
        ensures
            x == y,
    {
        crate::limbs::lemma_prefix_val_injective(x.d@, y.d@, 4);
        assert(x.d@ =~= y.d@);
        assert(x.d == y.d);
    }

    /// The limbs of the element's value.
    pub fn to_limbs(&self) -> (r: [u64; 4])
        ensures
            limbs_val(r@) == self@,
    {
        self.d
    }

    /// The element with the given value.
    pub fn from_limbs(d: [u64; 4]) -> (r: Fr)
        requires
            limbs_val(d@) < fr_modulus(),
        ensures
            r.wf(),
            r@ == limbs_val(d@),
    {
        Fr { d }
    }

    /// The zero element.
    pub fn zero() -> (r: Fr)
        ensures
            r@ == 0,
            r.wf(),
    {
        let like: [u64; 4] = [0, 0, 0, 0];
        Fr { d: zero_limbs(&like) }
    }

    /// The one element.
    pub fn one() -> (r: Fr)
        ensures
            r@ == 1,
            r.wf(),
    {
        let like: [u64; 4] = [0, 0, 0, 0];
        Fr { d: one_limbs(&like) }
    }

    /// `self + y`.
    pub fn plus(&self, y: &Fr) -> (r: Fr)
        requires
            self.wf(),
            y.wf(),
        ensures
            r.wf(),
            r@ == fr_add(self@, y@),
    {
        let m = fr_params();
        Fr { d: add_mod(&self.d, &y.d, &m) }
    }

    /// `self - y`.
    pub fn minus(&self, y: &Fr) -> (r: Fr)
        requires
            self.wf(),
            y.wf(),
        ensures
            r.wf(),
            r@ == fr_sub(self@, y@),
    {
        let m = fr_params();
        Fr { d: sub_mod(&self.d, &y.d, &m) }
    }

    /// `self * y`.
    pub fn times(&self, y: &Fr) -> (r: Fr)
        requires
            self.wf(),
            y.wf(),
        ensures
            r.wf(),
            r@ == fr_mul(self@, y@),
    {
        let m = fr_params();
        Fr { d: mul_mod(&self.d, &y.d, &m) }
    }

    /// `-self`.
    pub fn negated(&self) -> (r: Fr)
        requires
            self.wf(),
        ensures
            r.wf(),
            r@ == fr_neg(self@),
    {
        let m = fr_params();
        Fr { d: neg_mod(&self.d, &m) }
    }

    /// `self * self`.
    pub fn squared(&self) -> (r: Fr)
        requires
            self.wf(),
        ensures
            r.wf(),
            r@ == fr_mul(self@, self@),
    {
        let m = fr_params();
        Fr { d: mul_mod(&self.d, &self.d, &m) }
    }

    /// `1 / self`, and zero where `self` has no inverse.
    pub fn inverse(&self) -> (r: Fr)
        requires
            self.wf(),
        ensures
            r.wf(),
            r@ == fr_inv(self@),
    {
        let m = fr_params();
        Fr { d: inv_mod(&self.d, &m) }
    }

    /// `self / 2`.
    pub fn halved(&self) -> (r: Fr)
        requires
            self.wf(),
        ensures
            r.wf(),
            r@ == fr_halve(self@),
    {
        let m = fr_params();
        let h = half_mod(&self.d, &m);
        Fr { d: h }
    }

    /// A placeholder for a value that is about to be overwritten: the zero
    /// element.
    pub fn uninit() -> (r: Fr)
        ensures
            r@ == 0,
            r.wf(),
    {
        Fr::zero()
    }

    /// Sets the element to zero.
    pub fn clear(&mut self)
        ensures
            final(self)@ == 0,
            final(self).wf(),
    {
        *self = Fr::zero();
    }

    /// Whether the element is zero.
    pub fn is_zero(&self) -> (r: bool)
        ensures
            r == (self@ == 0),
    {
        is_zero_limbs(&self.d)
    }

    /// Whether the element is fully reduced.
    pub fn is_valid(&self) -> (r: bool)
        ensures
            r == self.wf(),
    {
        let m = fr_params();
        less_than(&self.d, &m.p)
    }

    /// Whether the element is one.
    pub fn is_one(&self) -> (r: bool)
        ensures
            r == (self@ == 1),
    {
        let one = one_limbs(&self.d);
        eq_limbs(&self.d, &one)
    }

    /// Whether the element's value is odd.
    pub fn is_odd(&self) -> (r: bool)
        ensures
            r == (self@ % 2 == 1),
    {
        proof {
            lemma_parity(self.d@, 4);
        }
        self.d[0] % 2 == 1
    }

    /// Whether the element is negative: its value is above half the order.
    pub fn is_negative(&self) -> (r: bool)
        ensures
            r == (2 * self@ > fr_modulus()),
    {
        let m = fr_params();
        proof {
            lemma_parity(m.p@, 4);
        }
        let half = shr1(&m.p);
        less_than(&half, &self.d)
    }

    /// Compares the values of two elements: -1 where `self` is below `rhs`, 0
    /// where they are equal, 1 where `self` is above.
    pub fn cmp(&self, rhs: &Fr) -> (r: i32)
        ensures
            r == (if self@ < rhs@ {
                -1i32
            } else if self@ == rhs@ {
                0i32
            } else {
                1i32
            }),
    {
        if less_than(&self.d, &rhs.d) {
            -1
        } else if less_than(&rhs.d, &self.d) {
            1
        } else {
            0
        }
    }

    /// The element that the integer stands for.
    pub fn from_int(x: i32) -> (r: Fr)
        ensures
            r.wf(),
            r@ == fr_from_int(x as int),
    {
        let mut v = Fr::zero();
        v.set_int(x);
        v
    }

    /// Sets the element to the one that the integer stands for.
    pub fn set_int(&mut self, x: i32)
        ensures
            final(self).wf(),
            final(self)@ == fr_from_int(x as int),
    {
        let m = fr_params();
        if x >= 0 {
            let t = small_limbs(&m.p, x as u64);
            proof {
                lemma_small_mod(x as nat, fr_modulus());
            }
            self.d = t;
        } else {
            let mag: u64 = (-(x as i64)) as u64;
            let t = small_limbs(&m.p, mag);
            self.d = neg_mod(&t, &m);
        }
    }

    /// The element that the text stands for, if it stands for one.
    pub fn from_str(s: &str, base: i32) -> (r: Option<Fr>)
        ensures
            r is Some <==> fr_parse(s@, base as int) is Some,
            r matches Some(v) ==> v.wf() && fr_parse(s@, base as int) == Some(v@),
    {
        let mut v = Fr::zero();
        if v.set_str(s, base) {
            Some(v)
        } else {
            None
        }
    }

    /// Sets the element from text in base 10 or 16. Where the text stands for
    /// no element, the element is left as it was.
    pub fn set_str(&mut self, s: &str, base: i32) -> (ok: bool)
        ensures
            ok <==> fr_parse(s@, base as int) is Some,
            ok ==> final(self).wf() && fr_parse(s@, base as int) == Some(final(self)@),
            !ok ==> *final(self) == *old(self),
    {
        let b: u64 = if base == 10 {
            10
        } else if base == 16 {
            16
        } else {
            return false;
        };
        let m = fr_params();
        match parse_limbs(s, b, &m) {
            Some(t) => {
                self.d = t;
                true
            },
            None => false,
        }
    }

    /// The element's value as text in base 10 or 16.
    pub fn get_str(&self, io_mode: i32) -> (s: String)
        requires
            io_mode == 10 || io_mode == 16,
        ensures
            s@ == digits(self@, io_mode as nat),
    {
        let b: u64 = if io_mode == 10 {
            10
        } else {
            16
        };
        format_limbs(&self.d, b)
    }

    /// The element's bytes.
    pub fn serialize(&self) -> (out: Vec<u8>)
        ensures
            out@ == fr_encode(self@),
    {
        to_le_bytes(&self.d)
    }

    /// Sets the element from its bytes. Where the bytes stand for no element,
    /// the element is left as it was.
    pub fn deserialize(&mut self, buf: &[u8]) -> (ok: bool)
        ensures
            ok <==> fr_decode(buf@) is Some,
            ok ==> final(self).wf() && fr_decode(buf@) == Some(final(self)@),
            !ok ==> *final(self) == *old(self),
    {
        if buf.len() != 32 {
            return false;
        }
        self.set_little_endian(buf)
    }

    /// Sets the element from a little-endian number of any length, where the
    /// number is below the field's order; else the element is left as it was.
    pub fn set_little_endian(&mut self, buf: &[u8]) -> (ok: bool)
        ensures
            ok <==> le_bytes_val(buf@) < fr_modulus(),
            ok ==> final(self).wf() && final(self)@ == le_bytes_val(buf@),
            !ok ==> *final(self) == *old(self),
    {
        let m = fr_params();
        proof {
            lemma_prefix_val_bound(m.p@, 4);
        }
        match from_le_bytes(buf, &m.p) {
            Some(t) => {
                if less_than(&t, &m.p) {
                    self.d = t;
                    true
                } else {
                    false
                }
            },
            None => false,
        }
    }

    /// Sets the element to a little-endian number of any length, reduced
    /// modulo the field's order. Always succeeds.
    pub fn set_little_endian_mod(&mut self, buf: &[u8]) -> (ok: bool)
        ensures
            ok,
            final(self).wf(),
            final(self)@ == le_bytes_val(buf@) % fr_modulus(),
    {
        let m = fr_params();
        self.d = reduce_le_bytes(buf, &m);
        true
    }

    /// Sets the element to the one that the message hashes to. Always
    /// succeeds.
    pub fn set_hash_of(&mut self, buf: &[u8]) -> (ok: bool)
        ensures
            ok,
            final(self).wf(),
            final(self)@ == fr_hash(buf@),
    {
        let e = expand(buf);
        self.set_little_endian_mod(e.as_slice())
    }

    /// Sets the element from a sample of 32 random bytes: the bits above
    /// the order's length are cleared, and the sample is taken where what is
    /// left is below the order. A rejected sample leaves the element as it was.
    pub fn set_from_sample(&mut self, sample: &[u8]) -> (ok: bool)
        ensures
            ok <==> sample@.len() == 32 && le_bytes_val(fr_masked_sample(sample@))
                < fr_modulus(),
            ok ==> final(self).wf() && final(self)@ == le_bytes_val(fr_masked_sample(sample@)),
            !ok ==> *final(self) == *old(self),
    {
        if sample.len() != 32 {
            return false;
        }
        let mut v: Vec<u8> = Vec::new();
        v.extend_from_slice(sample);
        let top: u8 = v[31] & 0x7f;
        v.set(31, top);
        proof {
            assert(v@ =~= fr_masked_sample(sample@));
        }
        self.set_little_endian(v.as_slice())
    }

    /// Sets the element to a uniformly random one: draws samples from the
    /// system's random source and takes the first that is not rejected, so
    /// that no value is favoured. Fails, leaving the element as it was, where
    /// the source fails or rejects 128 samples in a row.
    pub fn set_by_csprng(&mut self) -> (ok: bool)
        ensures
            ok ==> final(self).wf(),
            !ok ==> *final(self) == *old(self),
    {
        let ghost before = *self;
        let mut tries: u32 = 0;
        while tries < 128
            invariant
                *self == before,
                before == *old(self),
            decreases 128 - tries,
        {
            let mut buf: Vec<u8> = vec![0u8; 32];
            if !fill_random(&mut buf) {
                return false;
            }
            if self.set_from_sample(buf.as_slice()) {
                return true;
            }
            tries = tries + 1;
        }
        false
    }

    /// `z = x + y`.
    pub fn add(z: &mut Fr, x: &Fr, y: &Fr)
        requires
            x.wf(),
            y.wf(),
        ensures
            final(z).wf(),
            final(z)@ == mod_add(x@, y@, fr_modulus()),
    {
        let m = fr_params();
        z.d = add_mod(&x.d, &y.d, &m);
    }

    /// `z = x - y`.
    pub fn sub(z: &mut Fr, x: &Fr, y: &Fr)
        requires
            x.wf(),
            y.wf(),
        ensures
            final(z).wf(),
            final(z)@ == mod_sub(x@, y@, fr_modulus()),
    {
        let m = fr_params();
        z.d = sub_mod(&x.d, &y.d, &m);
    }

    /// `y = -x`.
    pub fn neg(y: &mut Fr, x: &Fr)
        requires
            x.wf(),
        ensures
            final(y).wf(),
            final(y)@ == mod_neg(x@, fr_modulus()),
    {
        let m = fr_params();
        y.d = neg_mod(&x.d, &m);
    }

    /// `z = x * y`.
    pub fn mul(z: &mut Fr, x: &Fr, y: &Fr)
        requires
            x.wf(),
            y.wf(),
        ensures
            final(z).wf(),
            final(z)@ == mod_mul(x@, y@, fr_modulus()),
    {
        let m = fr_params();
        z.d = mul_mod(&x.d, &y.d, &m);
    }

    /// `y = x^2`.
    pub fn sqr(y: &mut Fr, x: &Fr)
        requires
            x.wf(),
        ensures
            final(y).wf(),
            final(y)@ == fr_sqr(x@),
    {
        let m = fr_params();
        proof {
            crate::modmath::lemma_pow2_is_square(x@, fr_modulus());
        }
        y.d = mul_mod(&x.d, &x.d, &m);
    }

    /// `y = 1 / x`: the inverse of `x`, and zero where `x` has none, as zero
    /// itself has none.
    pub fn inv(y: &mut Fr, x: &Fr)
        requires
            x.wf(),
        ensures
            final(y).wf(),
            final(y)@ == mod_inv(x@, fr_modulus()),
    {
        let m = fr_params();
        y.d = inv_mod(&x.d, &m);
    }

    /// `z = x / y`: `x` times the inverse of `y`, and zero where `y` has none.
    pub fn div(z: &mut Fr, x: &Fr, y: &Fr)
        requires
            x.wf(),
            y.wf(),
        ensures
            final(z).wf(),
            final(z)@ == mod_div(x@, y@, fr_modulus()),
    {
        let m = fr_params();
        let yi = inv_mod(&y.d, &m);
        z.d = mul_mod(&x.d, &yi, &m);
    }

    /// The order of the field, in decimal.
    pub fn get_order() -> (s: String)
        ensures
            s@ == digits(fr_modulus(), 10),
    {
        let m = fr_params();
        format_limbs(&m.p, 10)
    }

    /// `y` = the square root of `x` that is not negative, where the search of
    /// Tonelli and Shanks finds a square root; else `y` is left as it was.
    pub fn square_root(y: &mut Fr, x: &Fr) -> (ok: bool)
        requires
            x.wf(),
        ensures
            ok <==> fr_sqrt(x@) is Some,
            ok ==> final(y).wf() && fr_sqrt(x@) == Some(final(y)@) && mod_mul(
                final(y)@,
                final(y)@,
                fr_modulus(),
            ) == x@,
            !ok ==> *final(y) == *old(y),
    {
        let m = fr_params();
        if is_zero_limbs(&x.d) {
            proof {
                assert(0 * 0 == 0) by (nonlinear_arith);
                lemma_small_mod(0, fr_modulus());
            }
            y.d = zero_limbs(&m.p);
            return true;
        }
        let one = one_limbs(&m.p);
        let e: [u64; 4] = [
            0x7fff2dff7fffffff,
            0x04d0ec02a9ded201,
            0x94cebea4199cec04,
            0x0000000039f6d3a9,
        ];
        let root: [u64; 4] = [
            0x3829971f439f0d2b,
            0xb63683508c2280b9,
            0xd09b681922c813b4,
            0x16a2a19edfe81f20,
        ];
        proof {
            reveal_with_fuel(prefix_val, 2);
            reveal_with_fuel(radix, 2);
            assert(radix(0) == 1);
            assert(prefix_val(root@, 0) == 0);
            assert(prefix_val(e@, 0) == 0);
            assert(radix(1) == 0x10000000000000000nat);
            assert(prefix_val(root@, 1) == 0x3829971f439f0d2bnat);
            assert(prefix_val(e@, 1) == 0x7fff2dff7fffffffnat);
            assert(radix(2) == 0x100000000000000000000000000000000nat);
            assert(prefix_val(root@, 2) == 0xb63683508c2280b93829971f439f0d2bnat);
            assert(prefix_val(e@, 2) == 0x4d0ec02a9ded2017fff2dff7fffffffnat);
            assert(radix(3) == 0x1000000000000000000000000000000000000000000000000nat);
            assert(prefix_val(root@, 3) == 0xd09b681922c813b4b63683508c2280b93829971f439f0d2bnat);
            assert(prefix_val(e@, 3) == 0x94cebea4199cec0404d0ec02a9ded2017fff2dff7fffffffnat);
            assert(radix(4) == 0x10000000000000000000000000000000000000000000000000000000000000000nat);
            assert(prefix_val(root@, 4) == 0x16a2a19edfe81f20d09b681922c813b4b63683508c2280b93829971f439f0d2bnat);
            assert(prefix_val(e@, 4) == 0x39f6d3a994cebea4199cec0404d0ec02a9ded2017fff2dff7fffffffnat);
            assert(limbs_val(root@) == fr_root_of_unity());
            assert(limbs_val(e@) == fr_sqrt_exponent());
        }
        let w = pow_mod(&x.d, &e, &m);
        let mut xr = mul_mod(&x.d, &w, &m);
        let mut b = mul_mod(&xr, &w, &m);
        let mut z = root;
        let mut v: u32 = 32;
        let ghost start = fr_search(limbs_val(xr@), limbs_val(b@), limbs_val(z@), 32);
        while !eq_limbs(&b, &one)
            invariant
                m.wf(),
                m.value() == fr_modulus(),
                limbs_val(xr@) < fr_modulus(),
                limbs_val(b@) < fr_modulus(),
                limbs_val(z@) < fr_modulus(),
                limbs_val(one@) == 1,
                1 <= v <= 32,
                *y == *old(y),
                x@ != 0,
                start == fr_search(limbs_val(xr@), limbs_val(b@), limbs_val(z@), v as nat),
                fr_sqrt(x@) == (match start {
                    None => None,
                    Some(c) => if fr_mul(c, c) == x@ {
                        Some(lesser_root(c, fr_modulus()))
                    } else {
                        None
                    },
                }),
            decreases v,
        {
            let mut k: u32 = 1;
            let mut b2 = mul_mod(&b, &b, &m);
            let ghost first = limbs_val(b2@);
            while k < v && !eq_limbs(&b2, &one)
                invariant
                    m.wf(),
                    m.value() == fr_modulus(),
                    limbs_val(b2@) < m.value(),
                    limbs_val(one@) == 1,
                    1 <= k <= v <= 32,
                    fr_order_exponent(first, 1, v as nat) == fr_order_exponent(
                        limbs_val(b2@),
                        k as nat,
                        v as nat,
                    ),
                decreases v - k,
            {
                b2 = mul_mod(&b2, &b2, &m);
                k = k + 1;
            }
            if k >= v {
                return false;
            }
            let mut w2 = z;
            let mut i: u32 = 0;
            let ghost steps = (v - k - 1) as nat;
            while i < v - k - 1
                invariant
                    m.wf(),
                    m.value() == fr_modulus(),
                    limbs_val(w2@) < m.value(),
                    k < v <= 32,
                    i <= v - k - 1,
                    steps == (v - k - 1) as nat,
                    fr_square_times(limbs_val(z@), steps) == fr_square_times(
                        limbs_val(w2@),
                        (steps - i) as nat,
                    ),
                decreases v - k - 1 - i,
            {
                w2 = mul_mod(&w2, &w2, &m);
                i = i + 1;
            }
            z = mul_mod(&w2, &w2, &m);
            b = mul_mod(&b, &z, &m);
            xr = mul_mod(&xr, &w2, &m);
            v = k;
        }
        let sq = mul_mod(&xr, &xr, &m);
        if !eq_limbs(&sq, &x.d) {
            return false;
        }
        let t = Fr { d: xr };
        if t.is_negative() {
            proof {
                lemma_neg_square(limbs_val(xr@), fr_modulus());
            }
            y.d = neg_mod(&xr, &m);
        } else {
            y.d = xr;
        }
        true
    }

    /// The square root of `self` that is not negative, where the search finds
    /// a square root.
    pub fn sqrt(&self) -> (r: Option<Fr>)
        requires
            self.wf(),
        ensures
            r is Some <==> fr_sqrt(self@) is Some,
            r matches Some(v) ==> v.wf() && fr_sqrt(self@) == Some(v@) && fr_mul(v@, v@) == self@,
    {
        let mut y = Fr::zero();
        if Fr::square_root(&mut y, self) {
            Some(y)
        } else {
            None
        }
    }

}

/// Adding and then subtracting `y` gives `x` back.
pub proof fn lemma_fr_add_then_sub(x: Fr, y: Fr)
    requires
        x.wf(),
        y.wf(),
    ensures
        mod_sub(mod_add(x@, y@, fr_modulus()), y@, fr_modulus()) == x@,
{
    lemma_add_sub_cancel(x@, y@, fr_modulus());
}

/// Multiplying and then dividing by `y` gives `x` back, for every `y` that has
/// an inverse.
pub proof fn lemma_fr_mul_then_div(x: Fr, y: Fr)
    requires
        x.wf(),
        y.wf(),
        has_inverse(y@, fr_modulus()),
    ensures
        mod_div(mod_mul(x@, y@, fr_modulus()), y@, fr_modulus()) == x@,
{
    lemma_mul_div_cancel(x@, y@, fr_modulus());
}

/// Where the order is prime, every element but zero has an inverse.
pub proof fn lemma_fr_nonzero_has_inverse(y: Fr)
    requires
        y.wf(),
        y@ != 0,
        is_prime(fr_modulus()),
    ensures
        has_inverse(y@, fr_modulus()),
{
    lemma_prime_has_inverse(y@, fr_modulus());
}

/// The square is the product with itself.
pub proof fn lemma_fr_sqr_is_mul(x: Fr)
    requires
        x.wf(),
    ensures
        fr_sqr(x@) == fr_mul(x@, x@),
{
    crate::modmath::lemma_pow2_is_square(x@, fr_modulus());
}

/// Both signs of a square root are square roots.
pub proof fn lemma_fr_both_roots(x: Fr, y: Fr)
    requires
        x.wf(),
        y.wf(),
        fr_sqr(y@) == x@,
    ensures
        fr_sqr(fr_neg(y@)) == x@,
{
    lemma_neg_square(y@, fr_modulus());
    crate::modmath::lemma_pow2_is_square(y@, fr_modulus());
    crate::modmath::lemma_pow2_is_square(fr_neg(y@), fr_modulus());
}

/// What `square_root` returns is a square root.
pub proof fn lemma_fr_sqrt_is_root(x: Fr)
    requires
        x.wf(),
        fr_sqrt(x@) is Some,
    ensures
        fr_sqr(fr_sqrt(x@)->0) == x@,
{
    let y = fr_sqrt(x@)->0;
    if x@ != 0 {
        let w = mod_pow(x@, fr_sqrt_exponent(), fr_modulus());
        let xr = fr_mul(x@, w);
        let c = fr_search(xr, fr_mul(xr, w), fr_root_of_unity(), 32)->0;
        lemma_mod_bound((c * c) as int, fr_modulus() as int);
        lemma_fr_search_bound(xr, fr_mul(xr, w), fr_root_of_unity(), 32);
        if 2 * c > fr_modulus() {
            lemma_neg_square(c, fr_modulus());
        }
    } else {
        assert(0 * 0 == 0) by (nonlinear_arith);
        lemma_small_mod(0, fr_modulus());
    }
    crate::modmath::lemma_pow2_is_square(y, fr_modulus());
}

/// Reading an element's bytes gives the element back.
pub proof fn lemma_fr_serialize_roundtrip(x: Fr)
    requires
        x.wf(),
    ensures
        fr_decode(fr_encode(x@)) == Some(x@),
{
    lemma_pow256_radix(4);
    reveal_with_fuel(radix, 5);
    lemma_le_encode_val(x@, 32);
}

/// Reading an element's text gives the element back, in base 10 and 16.
pub proof fn lemma_fr_text_roundtrip(x: Fr, base: int)
    requires
        x.wf(),
        base == 10 || base == 16,
    ensures
        fr_parse(digits(x@, base as nat), base) == Some(x@),
{
    lemma_parse_digits(x@, base as nat);
}

/// The odd part of the order of the units: `r - 1 == 2^32 * fr_odd_part()`.
pub open spec fn fr_odd_part() -> nat {
    0x73eda753299d7d483339d80809a1d80553bda402fffe5bfeffffffffnat
}

/// Whether `x` is a square in the scalar field.
pub open spec fn fr_is_square(x: nat) -> bool {
    exists|y: nat| y < fr_modulus() && fr_mul(y, y) == x
}

/// Squaring `i` times and then `j` times is squaring `i + j` times.
pub proof fn lemma_fr_square_times_add(z: nat, i: nat, j: nat)
    ensures
        fr_square_times(fr_square_times(z, i), j) == fr_square_times(z, i + j),
    decreases i,
{
    if i > 0 {
        lemma_fr_square_times_add(fr_mul(z, z), (i - 1) as nat, j);
    }
}

/// One more squaring squares what there is.
pub proof fn lemma_fr_square_times_last(z: nat, n: nat)
    ensures
        fr_square_times(z, n + 1) == fr_mul(fr_square_times(z, n), fr_square_times(z, n)),
{
    lemma_fr_square_times_add(z, n, 1);
    let s = fr_square_times(z, n);
    assert(fr_square_times(s, 1) == fr_square_times(fr_mul(s, s), 0));
}

/// What squaring gives is fully reduced.
pub proof fn lemma_fr_square_times_bound(z: nat, n: nat)
    requires
        z < fr_modulus(),
    ensures
        fr_square_times(z, n) < fr_modulus(),
    decreases n,
{
    if n > 0 {
        lemma_mod_bound((z * z) as int, fr_modulus() as int);
        lemma_fr_square_times_bound(fr_mul(z, z), (n - 1) as nat);
    }
}

/// Squaring one gives one.
pub proof fn lemma_fr_square_times_one(n: nat)
    ensures
        fr_square_times(1, n) == 1,
    decreases n,
{
    if n > 0 {
        lemma_small_mod(1, fr_modulus());
        assert(1 * 1 == 1);
        lemma_fr_square_times_one((n - 1) as nat);
    }
}

/// The square of a product is the product of the squares.
proof fn lemma_fr_square_of_product(a: nat, b: nat)
    ensures
        fr_mul(fr_mul(a, b), fr_mul(a, b)) == fr_mul(fr_mul(a, a), fr_mul(b, b)),
{
    let p = fr_modulus();
    let m = p as int;
    let ai = a as int;
    let bi = b as int;
    crate::modmath::lemma_cong_refl(ai, m);
    crate::modmath::lemma_cong_refl(bi, m);
    crate::modmath::lemma_mod_ops_cong(a, ai, b, bi, p);
    crate::modmath::lemma_mod_ops_cong(a, ai, a, ai, p);
    crate::modmath::lemma_mod_ops_cong(b, bi, b, bi, p);
    crate::modmath::lemma_mod_ops_cong(fr_mul(a, b), ai * bi, fr_mul(a, b), ai * bi, p);
    crate::modmath::lemma_mod_ops_cong(fr_mul(a, a), ai * ai, fr_mul(b, b), bi * bi, p);
    assert((ai * bi) * (ai * bi) == (ai * ai) * (bi * bi)) by (nonlinear_arith);
    let l = fr_mul(fr_mul(a, b), fr_mul(a, b));
    let q = fr_mul(fr_mul(a, a), fr_mul(b, b));
    crate::modmath::lemma_cong_sym(q as int, (ai * ai) * (bi * bi), m);
    crate::modmath::lemma_cong_trans(l as int, (ai * bi) * (ai * bi), q as int, m);
    lemma_mod_bound((fr_mul(a, b) * fr_mul(a, b)) as int, m);
    lemma_mod_bound((fr_mul(a, a) * fr_mul(b, b)) as int, m);
    crate::modmath::lemma_cong_eq(l as int, q as int, m);
}

/// Squaring a product is multiplying what squaring the factors gives.
pub proof fn lemma_fr_square_times_product(a: nat, b: nat, n: nat)
    ensures
        fr_square_times(fr_mul(a, b), n) == fr_mul(fr_square_times(a, n), fr_square_times(b, n)),
    decreases n,
{
    if n > 0 {
        lemma_fr_square_of_product(a, b);
        lemma_fr_square_times_product(fr_mul(a, a), fr_mul(b, b), (n - 1) as nat);
    }
}

/// Squaring `n` times is the power by `2^n`.
pub proof fn lemma_fr_square_times_power(z: nat, n: nat)
    ensures
        cong(
            fr_square_times(z, n) as int,
            vstd::arithmetic::power::pow(z as int, vstd::arithmetic::power2::pow2(n)),
            fr_modulus() as int,
        ),
    decreases n,
{
    let m = fr_modulus() as int;
    let zi = z as int;
    vstd::arithmetic::power2::lemma2_to64();
    if n == 0 {
        vstd::arithmetic::power::lemma_pow1(zi);
        crate::modmath::lemma_cong_refl(zi, m);
    } else {
        let n1 = (n - 1) as nat;
        let e = vstd::arithmetic::power2::pow2(n1);
        lemma_fr_square_times_power(fr_mul(z, z), n1);
        crate::modmath::lemma_cong_rem(zi * zi, m);
        crate::fermat::lemma_pow_cong(fr_mul(z, z) as int, zi * zi, e, m);
        vstd::arithmetic::power::lemma_square_is_pow2(zi);
        vstd::arithmetic::power::lemma_pow_multiplies(zi, 2, e);
        vstd::arithmetic::power2::lemma_pow2_unfold(n);
        crate::modmath::lemma_cong_trans(
            fr_square_times(z, n) as int,
            vstd::arithmetic::power::pow(fr_mul(z, z) as int, e),
            vstd::arithmetic::power::pow(zi * zi, e),
            m,
        );
    }
}

/// The count that the search for the order stops at: it is the least from
/// `k` on at which the squarings have reached one, where there is one below
/// `v`.
proof fn lemma_fr_order_exponent(c: nat, k: nat, v: nat, j: nat)
    requires
        k + j < v,
        fr_square_times(c, j) == 1,
    ensures
        ({
            let e = fr_order_exponent(c, k, v);
            &&& k <= e <= k + j
            &&& fr_square_times(c, (e - k) as nat) == 1
            &&& forall|i: nat| i < e - k ==> fr_square_times(c, i) != 1
        }),
    decreases j,
{
    if c == 1 {
    } else {
        assert(j > 0);
        lemma_fr_order_exponent(fr_mul(c, c), k + 1, v, (j - 1) as nat);
        let e = fr_order_exponent(c, k, v);
        assert forall|i: nat| i < e - k implies fr_square_times(c, i) != 1 by {
            if i > 0 {
                assert(fr_square_times(c, i) == fr_square_times(fr_mul(c, c), (i - 1) as nat));
            }
        }
    }
}

/// The root of unity that the search starts from has order `2^32`: squared
/// 31 times over it is minus one.
pub proof fn lemma_fr_root_of_unity()
    ensures
        fr_square_times(fr_root_of_unity(), 31) == fr_modulus() - 1,
        fr_root_of_unity() < fr_modulus(),
{
    reveal_with_fuel(fr_square_times, 2);
    assert((0x16a2a19edfe81f20d09b681922c813b4b63683508c2280b93829971f439f0d2bnat * 0x16a2a19edfe81f20d09b681922c813b4b63683508c2280b93829971f439f0d2bnat) % 0x73eda753299d7d483339d80809a1d80553bda402fffe5bfeffffffff00000001nat == 0x4b5371495990693fad1715b02e5713b5f070bb00e28a193d63e7cb4906ffc93fnat) by (nonlinear_arith);
    assert(fr_mul(0x16a2a19edfe81f20d09b681922c813b4b63683508c2280b93829971f439f0d2bnat, 0x16a2a19edfe81f20d09b681922c813b4b63683508c2280b93829971f439f0d2bnat) == 0x4b5371495990693fad1715b02e5713b5f070bb00e28a193d63e7cb4906ffc93fnat);
    assert(fr_square_times(0x16a2a19edfe81f20d09b681922c813b4b63683508c2280b93829971f439f0d2bnat, 31) == fr_square_times(0x4b5371495990693fad1715b02e5713b5f070bb00e28a193d63e7cb4906ffc93fnat, 30));
    assert((0x4b5371495990693fad1715b02e5713b5f070bb00e28a193d63e7cb4906ffc93fnat * 0x4b5371495990693fad1715b02e5713b5f070bb00e28a193d63e7cb4906ffc93fnat) % 0x73eda753299d7d483339d80809a1d80553bda402fffe5bfeffffffff00000001nat == 0x2c6d4e4511657e1e1339a815da8b398fed3a181fabb30adc694341f608c9dd56nat) by (nonlinear_arith);
    assert(fr_mul(0x4b5371495990693fad1715b02e5713b5f070bb00e28a193d63e7cb4906ffc93fnat, 0x4b5371495990693fad1715b02e5713b5f070bb00e28a193d63e7cb4906ffc93fnat) == 0x2c6d4e4511657e1e1339a815da8b398fed3a181fabb30adc694341f608c9dd56nat);
    assert(fr_square_times(0x4b5371495990693fad1715b02e5713b5f070bb00e28a193d63e7cb4906ffc93fnat, 30) == fr_square_times(0x2c6d4e4511657e1e1339a815da8b398fed3a181fabb30adc694341f608c9dd56nat, 29));
    assert((0x2c6d4e4511657e1e1339a815da8b398fed3a181fabb30adc694341f608c9dd56nat * 0x2c6d4e4511657e1e1339a815da8b398fed3a181fabb30adc694341f608c9dd56nat) % 0x73eda753299d7d483339d80809a1d80553bda402fffe5bfeffffffff00000001nat == 0xc83ea7744bf1bee8da40c1ef2bb459884d37b826214abc6474650359d8e211bnat) by (nonlinear_arith);
    assert(fr_mul(0x2c6d4e4511657e1e1339a815da8b398fed3a181fabb30adc694341f608c9dd56nat, 0x2c6d4e4511657e1e1339a815da8b398fed3a181fabb30adc694341f608c9dd56nat) == 0xc83ea7744bf1bee8da40c1ef2bb459884d37b826214abc6474650359d8e211bnat);
    assert(fr_square_times(0x2c6d4e4511657e1e1339a815da8b398fed3a181fabb30adc694341f608c9dd56nat, 29) == fr_square_times(0xc83ea7744bf1bee8da40c1ef2bb459884d37b826214abc6474650359d8e211bnat, 28));
    assert((0xc83ea7744bf1bee8da40c1ef2bb459884d37b826214abc6474650359d8e211bnat * 0xc83ea7744bf1bee8da40c1ef2bb459884d37b826214abc6474650359d8e211bnat) % 0x73eda753299d7d483339d80809a1d80553bda402fffe5bfeffffffff00000001nat == 0x52dd465e2f09425699e276b571905a7d6558e9e3f6ac7b41d7b688830a4f2089nat) by (nonlinear_arith);
    assert(fr_mul(0xc83ea7744bf1bee8da40c1ef2bb459884d37b826214abc6474650359d8e211bnat, 0xc83ea7744bf1bee8da40c1ef2bb459884d37b826214abc6474650359d8e211bnat) == 0x52dd465e2f09425699e276b571905a7d6558e9e3f6ac7b41d7b688830a4f2089nat);
    assert(fr_square_times(0xc83ea7744bf1bee8da40c1ef2bb459884d37b826214abc6474650359d8e211bnat, 28) == fr_square_times(0x52dd465e2f09425699e276b571905a7d6558e9e3f6ac7b41d7b688830a4f2089nat, 27));
    assert((0x52dd465e2f09425699e276b571905a7d6558e9e3f6ac7b41d7b688830a4f2089nat * 0x52dd465e2f09425699e276b571905a7d6558e9e3f6ac7b41d7b688830a4f2089nat) % 0x73eda753299d7d483339d80809a1d80553bda402fffe5bfeffffffff00000001nat == 0x23397a9300f8f98bece8ea224f31d25db94f1101b1d7a628e2d0a7869f0319ednat) by (nonlinear_arith);
    assert(fr_mul(0x52dd465e2f09425699e276b571905a7d6558e9e3f6ac7b41d7b688830a4f2089nat, 0x52dd465e2f09425699e276b571905a7d6558e9e3f6ac7b41d7b688830a4f2089nat) == 0x23397a9300f8f98bece8ea224f31d25db94f1101b1d7a628e2d0a7869f0319ednat);
    assert(fr_square_times(0x52dd465e2f09425699e276b571905a7d6558e9e3f6ac7b41d7b688830a4f2089nat, 27) == fr_square_times(0x23397a9300f8f98bece8ea224f31d25db94f1101b1d7a628e2d0a7869f0319ednat, 26));
    assert((0x23397a9300f8f98bece8ea224f31d25db94f1101b1d7a628e2d0a7869f0319ednat * 0x23397a9300f8f98bece8ea224f31d25db94f1101b1d7a628e2d0a7869f0319ednat) % 0x73eda753299d7d483339d80809a1d80553bda402fffe5bfeffffffff00000001nat == 0xa0a77a3b1980c0d116168bffbedc11d02c8118402867ddc531a11a0d2d75182nat) by (nonlinear_arith);
    assert(fr_mul(0x23397a9300f8f98bece8ea224f31d25db94f1101b1d7a628e2d0a7869f0319ednat, 0x23397a9300f8f98bece8ea224f31d25db94f1101b1d7a628e2d0a7869f0319ednat) == 0xa0a77a3b1980c0d116168bffbedc11d02c8118402867ddc531a11a0d2d75182nat);
    assert(fr_square_times(0x23397a9300f8f98bece8ea224f31d25db94f1101b1d7a628e2d0a7869f0319ednat, 26) == fr_square_times(0xa0a77a3b1980c0d116168bffbedc11d02c8118402867ddc531a11a0d2d75182nat, 25));
    assert((0xa0a77a3b1980c0d116168bffbedc11d02c8118402867ddc531a11a0d2d75182nat * 0xa0a77a3b1980c0d116168bffbedc11d02c8118402867ddc531a11a0d2d75182nat) % 0x73eda753299d7d483339d80809a1d80553bda402fffe5bfeffffffff00000001nat == 0x19fe632fd3287390454dc1edc61a1a3c0ba12bb3da64ca5ce32ef844e11a51enat) by (nonlinear_arith);
    assert(fr_mul(0xa0a77a3b1980c0d116168bffbedc11d02c8118402867ddc531a11a0d2d75182nat, 0xa0a77a3b1980c0d116168bffbedc11d02c8118402867ddc531a11a0d2d75182nat) == 0x19fe632fd3287390454dc1edc61a1a3c0ba12bb3da64ca5ce32ef844e11a51enat);
    assert(fr_square_times(0xa0a77a3b1980c0d116168bffbedc11d02c8118402867ddc531a11a0d2d75182nat, 25) == fr_square_times(0x19fe632fd3287390454dc1edc61a1a3c0ba12bb3da64ca5ce32ef844e11a51enat, 24));
    assert((0x19fe632fd3287390454dc1edc61a1a3c0ba12bb3da64ca5ce32ef844e11a51enat * 0x19fe632fd3287390454dc1edc61a1a3c0ba12bb3da64ca5ce32ef844e11a51enat) % 0x73eda753299d7d483339d80809a1d80553bda402fffe5bfeffffffff00000001nat == 0x291cf6d68823e6876e0bcd91ee76273072cf6a8029b7d7bc92cf4deb77bd779cnat) by (nonlinear_arith);
    assert(fr_mul(0x19fe632fd3287390454dc1edc61a1a3c0ba12bb3da64ca5ce32ef844e11a51enat, 0x19fe632fd3287390454dc1edc61a1a3c0ba12bb3da64ca5ce32ef844e11a51enat) == 0x291cf6d68823e6876e0bcd91ee76273072cf6a8029b7d7bc92cf4deb77bd779cnat);
    assert(fr_square_times(0x19fe632fd3287390454dc1edc61a1a3c0ba12bb3da64ca5ce32ef844e11a51enat, 24) == fr_square_times(0x291cf6d68823e6876e0bcd91ee76273072cf6a8029b7d7bc92cf4deb77bd779cnat, 23));
    assert((0x291cf6d68823e6876e0bcd91ee76273072cf6a8029b7d7bc92cf4deb77bd779cnat * 0x291cf6d68823e6876e0bcd91ee76273072cf6a8029b7d7bc92cf4deb77bd779cnat) % 0x73eda753299d7d483339d80809a1d80553bda402fffe5bfeffffffff00000001nat == 0x73560252aa0655b25121af06a3b51e3cc631ffb2585a72db5616c57de0ec9eaenat) by (nonlinear_arith);
    assert(fr_mul(0x291cf6d68823e6876e0bcd91ee76273072cf6a8029b7d7bc92cf4deb77bd779cnat, 0x291cf6d68823e6876e0bcd91ee76273072cf6a8029b7d7bc92cf4deb77bd779cnat) == 0x73560252aa0655b25121af06a3b51e3cc631ffb2585a72db5616c57de0ec9eaenat);
    assert(fr_square_times(0x291cf6d68823e6876e0bcd91ee76273072cf6a8029b7d7bc92cf4deb77bd779cnat, 23) == fr_square_times(0x73560252aa0655b25121af06a3b51e3cc631ffb2585a72db5616c57de0ec9eaenat, 22));
    assert((0x73560252aa0655b25121af06a3b51e3cc631ffb2585a72db5616c57de0ec9eaenat * 0x73560252aa0655b25121af06a3b51e3cc631ffb2585a72db5616c57de0ec9eaenat) % 0x73eda753299d7d483339d80809a1d80553bda402fffe5bfeffffffff00000001nat == 0xabe6a5e5abcaa32f2d38f10fbb8d1bbe08fec7c86389beec6e7a6ffb08e3363nat) by (nonlinear_arith);
    assert(fr_mul(0x73560252aa0655b25121af06a3b51e3cc631ffb2585a72db5616c57de0ec9eaenat, 0x73560252aa0655b25121af06a3b51e3cc631ffb2585a72db5616c57de0ec9eaenat) == 0xabe6a5e5abcaa32f2d38f10fbb8d1bbe08fec7c86389beec6e7a6ffb08e3363nat);
    assert(fr_square_times(0x73560252aa0655b25121af06a3b51e3cc631ffb2585a72db5616c57de0ec9eaenat, 22) == fr_square_times(0xabe6a5e5abcaa32f2d38f10fbb8d1bbe08fec7c86389beec6e7a6ffb08e3363nat, 21));
    assert((0xabe6a5e5abcaa32f2d38f10fbb8d1bbe08fec7c86389beec6e7a6ffb08e3363nat * 0xabe6a5e5abcaa32f2d38f10fbb8d1bbe08fec7c86389beec6e7a6ffb08e3363nat) % 0x73eda753299d7d483339d80809a1d80553bda402fffe5bfeffffffff00000001nat == 0x47c8b5817018af4fc70d0874b0691d4e46b3105f04db5844cd3979122d3ea03anat) by (nonlinear_arith);
    assert(fr_mul(0xabe6a5e5abcaa32f2d38f10fbb8d1bbe08fec7c86389beec6e7a6ffb08e3363nat, 0xabe6a5e5abcaa32f2d38f10fbb8d1bbe08fec7c86389beec6e7a6ffb08e3363nat) == 0x47c8b5817018af4fc70d0874b0691d4e46b3105f04db5844cd3979122d3ea03anat);
    assert(fr_square_times(0xabe6a5e5abcaa32f2d38f10fbb8d1bbe08fec7c86389beec6e7a6ffb08e3363nat, 21) == fr_square_times(0x47c8b5817018af4fc70d0874b0691d4e46b3105f04db5844cd3979122d3ea03anat, 20));
    assert((0x47c8b5817018af4fc70d0874b0691d4e46b3105f04db5844cd3979122d3ea03anat * 0x47c8b5817018af4fc70d0874b0691d4e46b3105f04db5844cd3979122d3ea03anat) % 0x73eda753299d7d483339d80809a1d80553bda402fffe5bfeffffffff00000001nat == 0x3e1c54bcb947035a57a6e07cb98de4a2f69e02d265e09d9fece7e0e39898d4bnat) by (nonlinear_arith);
    assert(fr_mul(0x47c8b5817018af4fc70d0874b0691d4e46b3105f04db5844cd3979122d3ea03anat, 0x47c8b5817018af4fc70d0874b0691d4e46b3105f04db5844cd3979122d3ea03anat) == 0x3e1c54bcb947035a57a6e07cb98de4a2f69e02d265e09d9fece7e0e39898d4bnat);
    assert(fr_square_times(0x47c8b5817018af4fc70d0874b0691d4e46b3105f04db5844cd3979122d3ea03anat, 20) == fr_square_times(0x3e1c54bcb947035a57a6e07cb98de4a2f69e02d265e09d9fece7e0e39898d4bnat, 19));
    assert((0x3e1c54bcb947035a57a6e07cb98de4a2f69e02d265e09d9fece7e0e39898d4bnat * 0x3e1c54bcb947035a57a6e07cb98de4a2f69e02d265e09d9fece7e0e39898d4bnat) % 0x73eda753299d7d483339d80809a1d80553bda402fffe5bfeffffffff00000001nat == 0x520e587a724a6955df625e80d0adef90ad8e16e84419c750194e8c62ecb38d9dnat) by (nonlinear_arith);
    assert(fr_mul(0x3e1c54bcb947035a57a6e07cb98de4a2f69e02d265e09d9fece7e0e39898d4bnat, 0x3e1c54bcb947035a57a6e07cb98de4a2f69e02d265e09d9fece7e0e39898d4bnat) == 0x520e587a724a6955df625e80d0adef90ad8e16e84419c750194e8c62ecb38d9dnat);
    assert(fr_square_times(0x3e1c54bcb947035a57a6e07cb98de4a2f69e02d265e09d9fece7e0e39898d4bnat, 19) == fr_square_times(0x520e587a724a6955df625e80d0adef90ad8e16e84419c750194e8c62ecb38d9dnat, 18));
    assert((0x520e587a724a6955df625e80d0adef90ad8e16e84419c750194e8c62ecb38d9dnat * 0x520e587a724a6955df625e80d0adef90ad8e16e84419c750194e8c62ecb38d9dnat) % 0x73eda753299d7d483339d80809a1d80553bda402fffe5bfeffffffff00000001nat == 0x2d3056a530794f01652f717ae1c34bb0bb97a3bf30ce40fd6f421a7d8ef674fbnat) by (nonlinear_arith);
    assert(fr_mul(0x520e587a724a6955df625e80d0adef90ad8e16e84419c750194e8c62ecb38d9dnat, 0x520e587a724a6955df625e80d0adef90ad8e16e84419c750194e8c62ecb38d9dnat) == 0x2d3056a530794f01652f717ae1c34bb0bb97a3bf30ce40fd6f421a7d8ef674fbnat);
    assert(fr_square_times(0x520e587a724a6955df625e80d0adef90ad8e16e84419c750194e8c62ecb38d9dnat, 18) == fr_square_times(0x2d3056a530794f01652f717ae1c34bb0bb97a3bf30ce40fd6f421a7d8ef674fbnat, 17));
    assert((0x2d3056a530794f01652f717ae1c34bb0bb97a3bf30ce40fd6f421a7d8ef674fbnat * 0x2d3056a530794f01652f717ae1c34bb0bb97a3bf30ce40fd6f421a7d8ef674fbnat) % 0x73eda753299d7d483339d80809a1d80553bda402fffe5bfeffffffff00000001nat == 0x224262332d8acbf4473a2eef772c33d6cd7f2bd6d0711b7d08692405f3b70f10nat) by (nonlinear_arith);
    assert(fr_mul(0x2d3056a530794f01652f717ae1c34bb0bb97a3bf30ce40fd6f421a7d8ef674fbnat, 0x2d3056a530794f01652f717ae1c34bb0bb97a3bf30ce40fd6f421a7d8ef674fbnat) == 0x224262332d8acbf4473a2eef772c33d6cd7f2bd6d0711b7d08692405f3b70f10nat);
    assert(fr_square_times(0x2d3056a530794f01652f717ae1c34bb0bb97a3bf30ce40fd6f421a7d8ef674fbnat, 17) == fr_square_times(0x224262332d8acbf4473a2eef772c33d6cd7f2bd6d0711b7d08692405f3b70f10nat, 16));
    assert((0x224262332d8acbf4473a2eef772c33d6cd7f2bd6d0711b7d08692405f3b70f10nat * 0x224262332d8acbf4473a2eef772c33d6cd7f2bd6d0711b7d08692405f3b70f10nat) % 0x73eda753299d7d483339d80809a1d80553bda402fffe5bfeffffffff00000001nat == 0x2155379d12180caa88f39a78f1aeb57867a665ae1fcadc91d7118f85cd96b8adnat) by (nonlinear_arith);
    assert(fr_mul(0x224262332d8acbf4473a2eef772c33d6cd7f2bd6d0711b7d08692405f3b70f10nat, 0x224262332d8acbf4473a2eef772c33d6cd7f2bd6d0711b7d08692405f3b70f10nat) == 0x2155379d12180caa88f39a78f1aeb57867a665ae1fcadc91d7118f85cd96b8adnat);
    assert(fr_square_times(0x224262332d8acbf4473a2eef772c33d6cd7f2bd6d0711b7d08692405f3b70f10nat, 16) == fr_square_times(0x2155379d12180caa88f39a78f1aeb57867a665ae1fcadc91d7118f85cd96b8adnat, 15));
    assert((0x2155379d12180caa88f39a78f1aeb57867a665ae1fcadc91d7118f85cd96b8adnat * 0x2155379d12180caa88f39a78f1aeb57867a665ae1fcadc91d7118f85cd96b8adnat) % 0x73eda753299d7d483339d80809a1d80553bda402fffe5bfeffffffff00000001nat == 0x3291357ee558b50d483405417a0cbe39c8d5f51db3f32699fbd047e11279bb6enat) by (nonlinear_arith);
    assert(fr_mul(0x2155379d12180caa88f39a78f1aeb57867a665ae1fcadc91d7118f85cd96b8adnat, 0x2155379d12180caa88f39a78f1aeb57867a665ae1fcadc91d7118f85cd96b8adnat) == 0x3291357ee558b50d483405417a0cbe39c8d5f51db3f32699fbd047e11279bb6enat);
    assert(fr_square_times(0x2155379d12180caa88f39a78f1aeb57867a665ae1fcadc91d7118f85cd96b8adnat, 15) == fr_square_times(0x3291357ee558b50d483405417a0cbe39c8d5f51db3f32699fbd047e11279bb6enat, 14));
    assert((0x3291357ee558b50d483405417a0cbe39c8d5f51db3f32699fbd047e11279bb6enat * 0x3291357ee558b50d483405417a0cbe39c8d5f51db3f32699fbd047e11279bb6enat) % 0x73eda753299d7d483339d80809a1d80553bda402fffe5bfeffffffff00000001nat == 0x56624634b500a166dc86b01c0d477fa6ae4622f6a9152435034d2ff22a5ad9e1nat) by (nonlinear_arith);
    assert(fr_mul(0x3291357ee558b50d483405417a0cbe39c8d5f51db3f32699fbd047e11279bb6enat, 0x3291357ee558b50d483405417a0cbe39c8d5f51db3f32699fbd047e11279bb6enat) == 0x56624634b500a166dc86b01c0d477fa6ae4622f6a9152435034d2ff22a5ad9e1nat);
    assert(fr_square_times(0x3291357ee558b50d483405417a0cbe39c8d5f51db3f32699fbd047e11279bb6enat, 14) == fr_square_times(0x56624634b500a166dc86b01c0d477fa6ae4622f6a9152435034d2ff22a5ad9e1nat, 13));
    assert((0x56624634b500a166dc86b01c0d477fa6ae4622f6a9152435034d2ff22a5ad9e1nat * 0x56624634b500a166dc86b01c0d477fa6ae4622f6a9152435034d2ff22a5ad9e1nat) % 0x73eda753299d7d483339d80809a1d80553bda402fffe5bfeffffffff00000001nat == 0x485d512737b1da3d2ccddea2972e89ed146b58bc434906ac6fdd00bfc78c8967nat) by (nonlinear_arith);
    assert(fr_mul(0x56624634b500a166dc86b01c0d477fa6ae4622f6a9152435034d2ff22a5ad9e1nat, 0x56624634b500a166dc86b01c0d477fa6ae4622f6a9152435034d2ff22a5ad9e1nat) == 0x485d512737b1da3d2ccddea2972e89ed146b58bc434906ac6fdd00bfc78c8967nat);
    assert(fr_square_times(0x56624634b500a166dc86b01c0d477fa6ae4622f6a9152435034d2ff22a5ad9e1nat, 13) == fr_square_times(0x485d512737b1da3d2ccddea2972e89ed146b58bc434906ac6fdd00bfc78c8967nat, 12));
    assert((0x485d512737b1da3d2ccddea2972e89ed146b58bc434906ac6fdd00bfc78c8967nat * 0x485d512737b1da3d2ccddea2972e89ed146b58bc434906ac6fdd00bfc78c8967nat) % 0x73eda753299d7d483339d80809a1d80553bda402fffe5bfeffffffff00000001nat == 0x564c0a11a0f704f4fc3e8acfe0f8245f0ad1347b378fbf96e206da11a5d36306nat) by (nonlinear_arith);
    assert(fr_mul(0x485d512737b1da3d2ccddea2972e89ed146b58bc434906ac6fdd00bfc78c8967nat, 0x485d512737b1da3d2ccddea2972e89ed146b58bc434906ac6fdd00bfc78c8967nat) == 0x564c0a11a0f704f4fc3e8acfe0f8245f0ad1347b378fbf96e206da11a5d36306nat);
    assert(fr_square_times(0x485d512737b1da3d2ccddea2972e89ed146b58bc434906ac6fdd00bfc78c8967nat, 12) == fr_square_times(0x564c0a11a0f704f4fc3e8acfe0f8245f0ad1347b378fbf96e206da11a5d36306nat, 11));
    assert((0x564c0a11a0f704f4fc3e8acfe0f8245f0ad1347b378fbf96e206da11a5d36306nat * 0x564c0a11a0f704f4fc3e8acfe0f8245f0ad1347b378fbf96e206da11a5d36306nat) % 0x73eda753299d7d483339d80809a1d80553bda402fffe5bfeffffffff00000001nat == 0x6d031f1b5c49c83409f1ca610a08f16655ea6811be9c622d4a838b5d59cd79e5nat) by (nonlinear_arith);
    assert(fr_mul(0x564c0a11a0f704f4fc3e8acfe0f8245f0ad1347b378fbf96e206da11a5d36306nat, 0x564c0a11a0f704f4fc3e8acfe0f8245f0ad1347b378fbf96e206da11a5d36306nat) == 0x6d031f1b5c49c83409f1ca610a08f16655ea6811be9c622d4a838b5d59cd79e5nat);
    assert(fr_square_times(0x564c0a11a0f704f4fc3e8acfe0f8245f0ad1347b378fbf96e206da11a5d36306nat, 11) == fr_square_times(0x6d031f1b5c49c83409f1ca610a08f16655ea6811be9c622d4a838b5d59cd79e5nat, 10));
    assert((0x6d031f1b5c49c83409f1ca610a08f16655ea6811be9c622d4a838b5d59cd79e5nat * 0x6d031f1b5c49c83409f1ca610a08f16655ea6811be9c622d4a838b5d59cd79e5nat) % 0x73eda753299d7d483339d80809a1d80553bda402fffe5bfeffffffff00000001nat == 0x325db5c3debf77a18f4de02c0f776af3ea437f9626fc085e3c28d666a5c2d854nat) by (nonlinear_arith);
    assert(fr_mul(0x6d031f1b5c49c83409f1ca610a08f16655ea6811be9c622d4a838b5d59cd79e5nat, 0x6d031f1b5c49c83409f1ca610a08f16655ea6811be9c622d4a838b5d59cd79e5nat) == 0x325db5c3debf77a18f4de02c0f776af3ea437f9626fc085e3c28d666a5c2d854nat);
    assert(fr_square_times(0x6d031f1b5c49c83409f1ca610a08f16655ea6811be9c622d4a838b5d59cd79e5nat, 10) == fr_square_times(0x325db5c3debf77a18f4de02c0f776af3ea437f9626fc085e3c28d666a5c2d854nat, 9));
    assert((0x325db5c3debf77a18f4de02c0f776af3ea437f9626fc085e3c28d666a5c2d854nat * 0x325db5c3debf77a18f4de02c0f776af3ea437f9626fc085e3c28d666a5c2d854nat) % 0x73eda753299d7d483339d80809a1d80553bda402fffe5bfeffffffff00000001nat == 0x95166525526a65439feec240d80689fd697168a3a6000fe4541b8ff2ee0434enat) by (nonlinear_arith);
    assert(fr_mul(0x325db5c3debf77a18f4de02c0f776af3ea437f9626fc085e3c28d666a5c2d854nat, 0x325db5c3debf77a18f4de02c0f776af3ea437f9626fc085e3c28d666a5c2d854nat) == 0x95166525526a65439feec240d80689fd697168a3a6000fe4541b8ff2ee0434enat);
    assert(fr_square_times(0x325db5c3debf77a18f4de02c0f776af3ea437f9626fc085e3c28d666a5c2d854nat, 9) == fr_square_times(0x95166525526a65439feec240d80689fd697168a3a6000fe4541b8ff2ee0434enat, 8));
    assert((0x95166525526a65439feec240d80689fd697168a3a6000fe4541b8ff2ee0434enat * 0x95166525526a65439feec240d80689fd697168a3a6000fe4541b8ff2ee0434enat) % 0x73eda753299d7d483339d80809a1d80553bda402fffe5bfeffffffff00000001nat == 0x4f9b4098e2e9f12e6b368121ac0cf4ad0a0865a899e8deff4935bd2f817f694bnat) by (nonlinear_arith);
    assert(fr_mul(0x95166525526a65439feec240d80689fd697168a3a6000fe4541b8ff2ee0434enat, 0x95166525526a65439feec240d80689fd697168a3a6000fe4541b8ff2ee0434enat) == 0x4f9b4098e2e9f12e6b368121ac0cf4ad0a0865a899e8deff4935bd2f817f694bnat);
    assert(fr_square_times(0x95166525526a65439feec240d80689fd697168a3a6000fe4541b8ff2ee0434enat, 8) == fr_square_times(0x4f9b4098e2e9f12e6b368121ac0cf4ad0a0865a899e8deff4935bd2f817f694bnat, 7));
    assert((0x4f9b4098e2e9f12e6b368121ac0cf4ad0a0865a899e8deff4935bd2f817f694bnat * 0x4f9b4098e2e9f12e6b368121ac0cf4ad0a0865a899e8deff4935bd2f817f694bnat) % 0x73eda753299d7d483339d80809a1d80553bda402fffe5bfeffffffff00000001nat == 0x6898111413588742b7c68b4d7fdd60d098d0caac87f5713c5130c2c1660125benat) by (nonlinear_arith);
    assert(fr_mul(0x4f9b4098e2e9f12e6b368121ac0cf4ad0a0865a899e8deff4935bd2f817f694bnat, 0x4f9b4098e2e9f12e6b368121ac0cf4ad0a0865a899e8deff4935bd2f817f694bnat) == 0x6898111413588742b7c68b4d7fdd60d098d0caac87f5713c5130c2c1660125benat);
    assert(fr_square_times(0x4f9b4098e2e9f12e6b368121ac0cf4ad0a0865a899e8deff4935bd2f817f694bnat, 7) == fr_square_times(0x6898111413588742b7c68b4d7fdd60d098d0caac87f5713c5130c2c1660125benat, 6));
    assert((0x6898111413588742b7c68b4d7fdd60d098d0caac87f5713c5130c2c1660125benat * 0x6898111413588742b7c68b4d7fdd60d098d0caac87f5713c5130c2c1660125benat) % 0x73eda753299d7d483339d80809a1d80553bda402fffe5bfeffffffff00000001nat == 0x45af6345ec055e4d14a1e27164d8fdbd2d967f4be2f951558140d032f0a9ee53nat) by (nonlinear_arith);
    assert(fr_mul(0x6898111413588742b7c68b4d7fdd60d098d0caac87f5713c5130c2c1660125benat, 0x6898111413588742b7c68b4d7fdd60d098d0caac87f5713c5130c2c1660125benat) == 0x45af6345ec055e4d14a1e27164d8fdbd2d967f4be2f951558140d032f0a9ee53nat);
    assert(fr_square_times(0x6898111413588742b7c68b4d7fdd60d098d0caac87f5713c5130c2c1660125benat, 6) == fr_square_times(0x45af6345ec055e4d14a1e27164d8fdbd2d967f4be2f951558140d032f0a9ee53nat, 5));
    assert((0x45af6345ec055e4d14a1e27164d8fdbd2d967f4be2f951558140d032f0a9ee53nat * 0x45af6345ec055e4d14a1e27164d8fdbd2d967f4be2f951558140d032f0a9ee53nat) % 0x73eda753299d7d483339d80809a1d80553bda402fffe5bfeffffffff00000001nat == 0x50e0903a157988bab4bcd40e22f55448bf6e88fb4c38fb8a360c60997369df4enat) by (nonlinear_arith);
    assert(fr_mul(0x45af6345ec055e4d14a1e27164d8fdbd2d967f4be2f951558140d032f0a9ee53nat, 0x45af6345ec055e4d14a1e27164d8fdbd2d967f4be2f951558140d032f0a9ee53nat) == 0x50e0903a157988bab4bcd40e22f55448bf6e88fb4c38fb8a360c60997369df4enat);
    assert(fr_square_times(0x45af6345ec055e4d14a1e27164d8fdbd2d967f4be2f951558140d032f0a9ee53nat, 5) == fr_square_times(0x50e0903a157988bab4bcd40e22f55448bf6e88fb4c38fb8a360c60997369df4enat, 4));
    assert((0x50e0903a157988bab4bcd40e22f55448bf6e88fb4c38fb8a360c60997369df4enat * 0x50e0903a157988bab4bcd40e22f55448bf6e88fb4c38fb8a360c60997369df4enat) % 0x73eda753299d7d483339d80809a1d80553bda402fffe5bfeffffffff00000001nat == 0x20b1ce9140267af9dd1c0af834cec32c17beb312f20b6f7653ea61d87742bccenat) by (nonlinear_arith);
    assert(fr_mul(0x50e0903a157988bab4bcd40e22f55448bf6e88fb4c38fb8a360c60997369df4enat, 0x50e0903a157988bab4bcd40e22f55448bf6e88fb4c38fb8a360c60997369df4enat) == 0x20b1ce9140267af9dd1c0af834cec32c17beb312f20b6f7653ea61d87742bccenat);
    assert(fr_square_times(0x50e0903a157988bab4bcd40e22f55448bf6e88fb4c38fb8a360c60997369df4enat, 4) == fr_square_times(0x20b1ce9140267af9dd1c0af834cec32c17beb312f20b6f7653ea61d87742bccenat, 3));
    assert((0x20b1ce9140267af9dd1c0af834cec32c17beb312f20b6f7653ea61d87742bccenat * 0x20b1ce9140267af9dd1c0af834cec32c17beb312f20b6f7653ea61d87742bccenat) % 0x73eda753299d7d483339d80809a1d80553bda402fffe5bfeffffffff00000001nat == 0x345766f603fa66e78c0625cd70d77ce2b38b21c28713b7007228fd3397743f7anat) by (nonlinear_arith);
    assert(fr_mul(0x20b1ce9140267af9dd1c0af834cec32c17beb312f20b6f7653ea61d87742bccenat, 0x20b1ce9140267af9dd1c0af834cec32c17beb312f20b6f7653ea61d87742bccenat) == 0x345766f603fa66e78c0625cd70d77ce2b38b21c28713b7007228fd3397743f7anat);
    assert(fr_square_times(0x20b1ce9140267af9dd1c0af834cec32c17beb312f20b6f7653ea61d87742bccenat, 3) == fr_square_times(0x345766f603fa66e78c0625cd70d77ce2b38b21c28713b7007228fd3397743f7anat, 2));
    assert((0x345766f603fa66e78c0625cd70d77ce2b38b21c28713b7007228fd3397743f7anat * 0x345766f603fa66e78c0625cd70d77ce2b38b21c28713b7007228fd3397743f7anat) % 0x73eda753299d7d483339d80809a1d80553bda402fffe5bfeffffffff00000001nat == 0x8d51ccce760304d0ec030002760300000001000000000000nat) by (nonlinear_arith);
    assert(fr_mul(0x345766f603fa66e78c0625cd70d77ce2b38b21c28713b7007228fd3397743f7anat, 0x345766f603fa66e78c0625cd70d77ce2b38b21c28713b7007228fd3397743f7anat) == 0x8d51ccce760304d0ec030002760300000001000000000000nat);
    assert(fr_square_times(0x345766f603fa66e78c0625cd70d77ce2b38b21c28713b7007228fd3397743f7anat, 2) == fr_square_times(0x8d51ccce760304d0ec030002760300000001000000000000nat, 1));
    assert((0x8d51ccce760304d0ec030002760300000001000000000000nat * 0x8d51ccce760304d0ec030002760300000001000000000000nat) % 0x73eda753299d7d483339d80809a1d80553bda402fffe5bfeffffffff00000001nat == 0x73eda753299d7d483339d80809a1d80553bda402fffe5bfeffffffff00000000nat) by (nonlinear_arith);
    assert(fr_mul(0x8d51ccce760304d0ec030002760300000001000000000000nat, 0x8d51ccce760304d0ec030002760300000001000000000000nat) == 0x73eda753299d7d483339d80809a1d80553bda402fffe5bfeffffffff00000000nat);
    assert(fr_square_times(0x8d51ccce760304d0ec030002760300000001000000000000nat, 1) == fr_square_times(0x73eda753299d7d483339d80809a1d80553bda402fffe5bfeffffffff00000000nat, 0));
}

/// Where the order is prime: from a candidate whose square is `x` times the
/// error, an error that 31 or fewer squarings take to one, and a root of
/// unity that as many squarings take to minus one, the search finds a square
/// root of `x`.
proof fn lemma_fr_search_finds(x: nat, xr: nat, b: nat, z: nat, v: nat)
    requires
        is_prime(fr_modulus()),
        x < fr_modulus(),
        xr < fr_modulus(),
        b < fr_modulus(),
        z < fr_modulus(),
        v >= 1,
        fr_mul(xr, xr) == fr_mul(x, b),
        fr_square_times(b, (v - 1) as nat) == 1,
        fr_square_times(z, (v - 1) as nat) == fr_modulus() - 1,
    ensures
        fr_search(xr, b, z, v) is Some,
        fr_mul(fr_search(xr, b, z, v)->0, fr_search(xr, b, z, v)->0) == x,
    decreases v,
{
    let p = fr_modulus();
    let m = p as int;
    if b == 1 {
        lemma_small_mod(x, p);
        assert(x * 1 == x);
    } else {
        assert(v >= 2);
        let c = fr_mul(b, b);
        assert(fr_square_times(b, (v - 1) as nat) == fr_square_times(c, (v - 2) as nat));
        lemma_fr_order_exponent(c, 1, v, (v - 2) as nat);
        let k = fr_order_exponent(c, 1, v);
        assert(1 <= k < v);
        // b squared k times is one; squared k - 1 times it is minus one
        assert(fr_square_times(b, k) == fr_square_times(c, (k - 1) as nat));
        let half = fr_square_times(b, (k - 1) as nat);
        lemma_fr_square_times_bound(b, (k - 1) as nat);
        lemma_fr_square_times_last(b, (k - 1) as nat);
        if k >= 2 {
            assert(half == fr_square_times(c, (k - 2) as nat));
        }
        assert(half != 1);
        lemma_small_mod(1, p);
        assert(1 * 1 == 1);
        crate::fermat::lemma_roots_agree(half, 1, p);
        crate::modmath::lemma_mod_unique(-1, p - 1, -1, m);
        assert(half == p - 1);
        // the correction
        let steps = (v - k - 1) as nat;
        let w = fr_square_times(z, steps);
        let z2 = fr_mul(w, w);
        lemma_fr_square_times_bound(z, steps);
        lemma_mod_bound((w * w) as int, m);
        lemma_fr_square_times_last(z, steps);
        lemma_fr_square_times_add(z, steps + 1, (k - 1) as nat);
        assert(fr_square_times(z2, (k - 1) as nat) == p - 1);
        let b2 = fr_mul(b, z2);
        let xr2 = fr_mul(xr, w);
        lemma_mod_bound((b * z2) as int, m);
        lemma_mod_bound((xr * w) as int, m);
        lemma_fr_square_times_product(b, z2, (k - 1) as nat);
        // minus one times minus one is one
        crate::modmath::lemma_mod_unique(((p - 1) * (p - 1)) as int, 1, p - 2, m);
        assert(((p - 1) * (p - 1)) as int == 1 + (p - 2) * m) by (nonlinear_arith)
            requires
                m == p,
                p >= 2,
        ;
        assert(fr_square_times(b2, (k - 1) as nat) == 1);
        // the new candidate squares to x times the new error
        lemma_fr_square_of_product(xr, w);
        lemma_fr_mul_assoc(x, b, z2);
        lemma_fr_search_finds(x, xr2, b2, z2, k);
    }
}

/// The product is associative.
proof fn lemma_fr_mul_assoc(a: nat, b: nat, c: nat)
    ensures
        fr_mul(fr_mul(a, b), c) == fr_mul(a, fr_mul(b, c)),
{
    let p = fr_modulus();
    let m = p as int;
    let ai = a as int;
    let bi = b as int;
    let ci = c as int;
    crate::modmath::lemma_cong_refl(ai, m);
    crate::modmath::lemma_cong_refl(bi, m);
    crate::modmath::lemma_cong_refl(ci, m);
    crate::modmath::lemma_mod_ops_cong(a, ai, b, bi, p);
    crate::modmath::lemma_mod_ops_cong(b, bi, c, ci, p);
    crate::modmath::lemma_mod_ops_cong(fr_mul(a, b), ai * bi, c, ci, p);
    crate::modmath::lemma_mod_ops_cong(a, ai, fr_mul(b, c), bi * ci, p);
    assert((ai * bi) * ci == ai * (bi * ci)) by (nonlinear_arith);
    let l = fr_mul(fr_mul(a, b), c);
    let q = fr_mul(a, fr_mul(b, c));
    crate::modmath::lemma_cong_sym(q as int, ai * (bi * ci), m);
    crate::modmath::lemma_cong_trans(l as int, (ai * bi) * ci, q as int, m);
    lemma_mod_bound((fr_mul(a, b) * c) as int, m);
    lemma_mod_bound((a * fr_mul(b, c)) as int, m);
    crate::modmath::lemma_cong_eq(l as int, q as int, m);
}

/// Where the order is prime, the search finds a square root of every square.
pub proof fn lemma_fr_sqrt_of_square(x: nat, y: nat)
    requires
        is_prime(fr_modulus()),
        x < fr_modulus(),
        y < fr_modulus(),
        fr_mul(y, y) == x,
    ensures
        fr_sqrt(x) is Some,
{
    let p = fr_modulus();
    let m = p as int;
    if x != 0 {
        let xi = x as int;
        let yi = y as int;
        lemma_small_mod(y, p);
        if y == 0 {
            assert(0 * 0 == 0) by (nonlinear_arith);
            lemma_small_mod(0, p);
        }
        let e = fr_sqrt_exponent();
        let t = fr_odd_part();
        assert(t == 2 * e + 1);
        let w = mod_pow(x, e, p);
        let xr = fr_mul(x, w);
        let b = fr_mul(xr, w);
        crate::modmath::lemma_pow_nonneg(x, e);
        lemma_mod_bound(vstd::arithmetic::power::pow(xi, e), m);
        lemma_mod_bound((x * w) as int, m);
        lemma_mod_bound((xr * w) as int, m);
        // the candidate squares to x times the error
        lemma_fr_square_of_product(x, w);
        lemma_fr_mul_assoc(x, xr, w);
        lemma_fr_mul_assoc(x, x, fr_mul(w, w));
        lemma_fr_mul_assoc(x, w, w);
        assert(fr_mul(xr, xr) == fr_mul(x, b));
        // the error is x to the power t
        let pe = vstd::arithmetic::power::pow(xi, e);
        crate::modmath::lemma_cong_rem(pe, m);
        crate::modmath::lemma_cong_refl(xi, m);
        crate::modmath::lemma_mod_ops_cong(x, xi, w, pe, p);
        crate::modmath::lemma_mod_ops_cong(xr, xi * pe, w, pe, p);
        vstd::arithmetic::power::lemma_pow1(xi);
        vstd::arithmetic::power::lemma_pow_adds(xi, 1, e);
        vstd::arithmetic::power::lemma_pow_adds(xi, 1 + e, e);
        let pt = vstd::arithmetic::power::pow(xi, t);
        assert(pt == (xi * pe) * pe);
        // squared 31 times over, the error is y to the power r - 1
        vstd::arithmetic::power2::lemma2_to64();
        let h = vstd::arithmetic::power2::pow2(31);
        lemma_fr_square_times_power(b, 31);
        crate::fermat::lemma_pow_cong(b as int, pt, h, m);
        vstd::arithmetic::power::lemma_pow_multiplies(xi, t, h);
        crate::modmath::lemma_cong_rem(yi * yi, m);
        crate::fermat::lemma_pow_cong(xi, yi * yi, t * h, m);
        vstd::arithmetic::power::lemma_square_is_pow2(yi);
        vstd::arithmetic::power::lemma_pow_multiplies(yi, 2, t * h);
        assert(2 * (t * h) == p - 1);
        crate::fermat::lemma_fermat(y, p);
        let sq = fr_square_times(b, 31);
        crate::modmath::lemma_cong_trans(
            sq as int,
            vstd::arithmetic::power::pow(b as int, h),
            vstd::arithmetic::power::pow(pt, h),
            m,
        );
        crate::modmath::lemma_cong_trans(
            sq as int,
            vstd::arithmetic::power::pow(xi, t * h),
            vstd::arithmetic::power::pow(yi * yi, t * h),
            m,
        );
        crate::modmath::lemma_cong_trans(
            sq as int,
            vstd::arithmetic::power::pow(yi, (p - 1) as nat),
            1,
            m,
        );
        lemma_fr_square_times_bound(b, 31);
        crate::modmath::lemma_cong_eq(sq as int, 1, m);
        lemma_fr_root_of_unity();
        lemma_fr_search_finds(x, xr, b, fr_root_of_unity(), 32);
    }
}

/// Where the order is prime, `square_root` succeeds on the squares and on
/// nothing else.
pub proof fn lemma_fr_sqrt_finds_squares(x: Fr)
    requires
        x.wf(),
        is_prime(fr_modulus()),
    ensures
        fr_sqrt(x@) is Some <==> fr_is_square(x@),
{
    let p = fr_modulus();
    if fr_sqrt(x@) is Some {
        if x@ == 0 {
            assert(0 * 0 == 0) by (nonlinear_arith);
            lemma_small_mod(0, p);
            assert(fr_mul(0, 0) == 0);
        } else {
            let w = mod_pow(x@, fr_sqrt_exponent(), p);
            let xr = fr_mul(x@, w);
            let c = fr_search(xr, fr_mul(xr, w), fr_root_of_unity(), 32)->0;
            lemma_mod_bound((x@ * w) as int, p as int);
            lemma_fr_search_bound(xr, fr_mul(xr, w), fr_root_of_unity(), 32);
            assert(c < p && fr_mul(c, c) == x@);
        }
    }
    if fr_is_square(x@) {
        let y = choose|y: nat| y < p && fr_mul(y, y) == x@;
        lemma_fr_sqrt_of_square(x@, y);
    }
}

impl Fr {
    /// The element with the value `v`.
    pub open spec fn with_value(v: nat) -> Fr {
        choose|r: Fr| r@ == v
    }
}

impl<'a> core::ops::Add for &'a Fr {
    type Output = Fr;

    fn add(self, other: &Fr) -> (r: Fr) {
        let r = self.plus(other);
        proof {
            Fr::lemma_view_injective(r, Fr::with_value(fr_add(self@, other@)));
        }
        r
    }
}

impl<'a> vstd::std_specs::ops::AddSpecImpl for &'a Fr {
    open spec fn obeys_add_spec() -> bool {
        true
    }

    open spec fn add_req(self, other: &'a Fr) -> bool {
        self.wf() && other.wf()
    }

    open spec fn add_spec(self, other: &'a Fr) -> Fr {
        Fr::with_value(fr_add(self@, other@))
    }
}

impl<'a> core::ops::AddAssign<&'a Fr> for Fr {
    /// Where an operand is not fully reduced, `self` is left as it was.
    fn add_assign(&mut self, other: &Fr)
        ensures
            old(self).wf() && other.wf() ==> final(self).wf(),
            old(self).wf() && other.wf() ==> final(self)@ == fr_add(old(self)@, other@),
            !(old(self).wf() && other.wf()) ==> *final(self) == *old(self),
    {
        if self.is_valid() && other.is_valid() {
            let r = self.plus(other);
            *self = r;
        }
    }
}

impl<'a> core::ops::Sub for &'a Fr {
    type Output = Fr;

    fn sub(self, other: &Fr) -> (r: Fr) {
        let r = self.minus(other);
        proof {
            Fr::lemma_view_injective(r, Fr::with_value(fr_sub(self@, other@)));
        }
        r
    }
}

impl<'a> vstd::std_specs::ops::SubSpecImpl for &'a Fr {
    open spec fn obeys_sub_spec() -> bool {
        true
    }

    open spec fn sub_req(self, other: &'a Fr) -> bool {
        self.wf() && other.wf()
    }

    open spec fn sub_spec(self, other: &'a Fr) -> Fr {
        Fr::with_value(fr_sub(self@, other@))
    }
}

impl<'a> core::ops::SubAssign<&'a Fr> for Fr {
    /// Where an operand is not fully reduced, `self` is left as it was.
    fn sub_assign(&mut self, other: &Fr)
        ensures
            old(self).wf() && other.wf() ==> final(self).wf(),
            old(self).wf() && other.wf() ==> final(self)@ == fr_sub(old(self)@, other@),
            !(old(self).wf() && other.wf()) ==> *final(self) == *old(self),
    {
        if self.is_valid() && other.is_valid() {
            let r = self.minus(other);
            *self = r;
        }
    }
}

impl<'a> core::ops::Mul for &'a Fr {
    type Output = Fr;

    fn mul(self, other: &Fr) -> (r: Fr) {
        let r = self.times(other);
        proof {
            Fr::lemma_view_injective(r, Fr::with_value(fr_mul(self@, other@)));
        }
        r
    }
}

impl<'a> vstd::std_specs::ops::MulSpecImpl for &'a Fr {
    open spec fn obeys_mul_spec() -> bool {
        true
    }

    open spec fn mul_req(self, other: &'a Fr) -> bool {
        self.wf() && other.wf()
    }

    open spec fn mul_spec(self, other: &'a Fr) -> Fr {
        Fr::with_value(fr_mul(self@, other@))
    }
}

impl<'a> core::ops::MulAssign<&'a Fr> for Fr {
    /// Where an operand is not fully reduced, `self` is left as it was.
    fn mul_assign(&mut self, other: &Fr)
        ensures
            old(self).wf() && other.wf() ==> final(self).wf(),
            old(self).wf() && other.wf() ==> final(self)@ == fr_mul(old(self)@, other@),
            !(old(self).wf() && other.wf()) ==> *final(self) == *old(self),
    {
        if self.is_valid() && other.is_valid() {
            let r = self.times(other);
            *self = r;
        }
    }
}

impl<'a> core::ops::Div for &'a Fr {
    type Output = Fr;

    fn div(self, other: &Fr) -> (r: Fr) {
        let r = self.times(&other.inverse());
        proof {
            Fr::lemma_view_injective(r, Fr::with_value(fr_mul(self@, fr_inv(other@))));
        }
        r
    }
}

impl<'a> vstd::std_specs::ops::DivSpecImpl for &'a Fr {
    open spec fn obeys_div_spec() -> bool {
        true
    }

    open spec fn div_req(self, other: &'a Fr) -> bool {
        self.wf() && other.wf()
    }

    open spec fn div_spec(self, other: &'a Fr) -> Fr {
        Fr::with_value(fr_mul(self@, fr_inv(other@)))
    }
}

impl<'a> core::ops::DivAssign<&'a Fr> for Fr {
    /// Where an operand is not fully reduced, `self` is left as it was.
    fn div_assign(&mut self, other: &Fr)
        ensures
            old(self).wf() && other.wf() ==> final(self).wf(),
            old(self).wf() && other.wf() ==> final(self)@ == fr_mul(old(self)@, fr_inv(other@)),
            !(old(self).wf() && other.wf()) ==> *final(self) == *old(self),
    {
        if self.is_valid() && other.is_valid() {
            let r = self.times(&other.inverse());
            *self = r;
        }
    }
}

} // verus!
