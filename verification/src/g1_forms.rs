//! The forms of one point of G1: triples of coordinates that differ by a
//! factor with an inverse stand for one point, and doubling, adding and
//! multiplying treat them alike. From this, the affine form of a point of the
//! group is a point of the group, and reading what was written of a point
//! gives the point back.

use crate::fp::{fp_inv, fp_modulus, fp_mul};
use crate::fp_ring::{
    fp_minus, fp_plus, fp_pw, fp_scaled, fp_times, lemma_fp_closed, lemma_fp_closed_all,
    lemma_fp_interchange, lemma_fp_inverse, lemma_fp_mul_assoc, lemma_fp_mul_comm, lemma_fp_mul_one,
    lemma_fp_scaled_add, lemma_fp_scaled_mul, lemma_fp_scaled_zero, lemma_fp_steps_closed,
    lemma_fp_steps_one, lemma_fp_steps_square_of_sum,
};
use crate::fr::fr_modulus;
use crate::g1::{
    g1_add, g1_b, g1_dbl, g1_decode, g1_encode, g1_format, g1_is_zero, g1_mul, g1_normalize,
    g1_on_curve, g1_parse, g1_same, g1_valid, g1_zero, lemma_g1_normalize_affine,
    lemma_g1_serialize_roundtrip_affine, lemma_g1_text_roundtrip_affine, G1, G1Value,
};
use crate::modmath::is_prime;
use vstd::prelude::*;

verus! {

/// Whether the three coordinates are fully reduced.
pub open spec fn g1_reduced(p: G1Value) -> bool {
    p.0 < fp_modulus() && p.1 < fp_modulus() && p.2 < fp_modulus()
}

/// Whether `q` is the form of the point `p` that the factor `l^k` gives: `x`
/// times `l^(2k)`, `y` times `l^(3k)` and `z` times `l^k`. All forms of the
/// identity are alike.
pub open spec fn g1_alike(q: G1Value, p: G1Value, l: nat, k: nat) -> bool {
    if g1_is_zero(p) {
        g1_is_zero(q)
    } else {
        !g1_is_zero(q) && fp_scaled(q.0, p.0, l, 2 * k) && fp_scaled(q.1, p.1, l, 3 * k)
            && fp_scaled(q.2, p.2, l, k)
    }
}

/// The double, written with the named operations.
pub open spec fn g1_dbl_steps(p: G1Value) -> G1Value {
    if g1_is_zero(p) {
        p
    } else {
        let a = fp_times(p.0, p.0);
        let b = fp_times(p.1, p.1);
        let c = fp_times(b, b);
        let t = fp_plus(p.0, b);
        let d0 = fp_minus(fp_minus(fp_times(t, t), a), c);
        let d = fp_plus(d0, d0);
        let e = fp_plus(fp_plus(a, a), a);
        let f = fp_times(e, e);
        let x3 = fp_minus(f, fp_plus(d, d));
        let c2 = fp_plus(c, c);
        let c4 = fp_plus(c2, c2);
        let c8 = fp_plus(c4, c4);
        let y3 = fp_minus(fp_times(e, fp_minus(d, x3)), c8);
        let yz = fp_times(p.1, p.2);
        (x3, y3, fp_plus(yz, yz))
    }
}

/// The sum, written with the named operations.
pub open spec fn g1_add_steps(p: G1Value, q: G1Value) -> G1Value {
    if g1_is_zero(p) {
        q
    } else if g1_is_zero(q) {
        p
    } else {
        let z1z1 = fp_times(p.2, p.2);
        let z2z2 = fp_times(q.2, q.2);
        let u1 = fp_times(p.0, z2z2);
        let u2 = fp_times(q.0, z1z1);
        let s1 = fp_times(fp_times(p.1, q.2), z2z2);
        let s2 = fp_times(fp_times(q.1, p.2), z1z1);
        let h = fp_minus(u2, u1);
        let r = fp_minus(s2, s1);
        if h == 0nat {
            if r == 0nat {
                g1_dbl_steps(p)
            } else {
                g1_zero()
            }
        } else {
            let hh = fp_times(h, h);
            let hhh = fp_times(h, hh);
            let v = fp_times(u1, hh);
            let x3 = fp_minus(fp_minus(fp_times(r, r), hhh), fp_plus(v, v));
            let y3 = fp_minus(fp_times(r, fp_minus(v, x3)), fp_times(s1, hhh));
            (x3, y3, fp_times(fp_times(p.2, q.2), h))
        }
    }
}

/// The curve equation, written with the named operations.
pub open spec fn g1_on_curve_steps(p: G1Value) -> bool {
    if g1_is_zero(p) {
        true
    } else {
        let z2 = fp_times(p.2, p.2);
        let z6 = fp_times(fp_times(z2, z2), z2);
        fp_times(p.1, p.1) == fp_plus(fp_times(fp_times(p.0, p.0), p.0), fp_times(g1_b(), z6))
    }
}

/// Written with the named operations, the double, the sum and the curve
/// equation are what they are.
proof fn lemma_g1_steps(p: G1Value, q: G1Value)
    ensures
        g1_dbl_steps(p) == g1_dbl(p),
        g1_add_steps(p, q) == g1_add(p, q),
        g1_on_curve_steps(p) == g1_on_curve(p),
{
    reveal(fp_times);
    reveal(fp_plus);
    reveal(fp_minus);
}

/// Coordinates that are multiples by the right powers of a factor with an
/// inverse make a form of the point.
proof fn lemma_g1_alike_of_coordinates(q: G1Value, p: G1Value, l: nat, li: nat, k: nat)
    requires
        p.2 < fp_modulus(),
        fp_times(l, li) == 1nat,
        fp_scaled(q.0, p.0, l, 2 * k),
        fp_scaled(q.1, p.1, l, 3 * k),
        fp_scaled(q.2, p.2, l, k),
    ensures
        g1_alike(q, p, l, k),
{
    lemma_fp_scaled_zero(q.2, p.2, l, li, k);
}

/// The double of fully reduced coordinates is fully reduced.
pub proof fn lemma_g1_dbl_reduced(p: G1Value)
    requires
        g1_reduced(p),
    ensures
        g1_reduced(g1_dbl(p)),
{
    if !g1_is_zero(p) {
        let d = g1_dbl(p);
        assert(d.0 < fp_modulus() && d.1 < fp_modulus() && d.2 < fp_modulus()) by {
            lemma_fp_closed_all();
        }
    }
}

/// The sum of fully reduced coordinates is fully reduced.
pub proof fn lemma_g1_add_reduced(p: G1Value, q: G1Value)
    requires
        g1_reduced(p),
        g1_reduced(q),
    ensures
        g1_reduced(g1_add(p, q)),
{
    lemma_g1_dbl_reduced(p);
    let d = g1_add(p, q);
    assert(d.0 < fp_modulus() && d.1 < fp_modulus() && d.2 < fp_modulus()) by {
        lemma_fp_closed_all();
    }
}

/// Every multiple of fully reduced coordinates is fully reduced.
pub proof fn lemma_g1_mul_reduced(p: G1Value, n: nat)
    requires
        g1_reduced(p),
    ensures
        g1_reduced(g1_mul(p, n)),
    decreases n,
{
    if n > 0 {
        lemma_g1_mul_reduced(p, n / 2);
        lemma_g1_dbl_reduced(g1_mul(p, n / 2));
        lemma_g1_add_reduced(g1_dbl(g1_mul(p, n / 2)), p);
    }
}

/// The doubles of two forms of a point, written with the named operations,
/// are forms of one point.
proof fn lemma_g1_dbl_steps_alike(q: G1Value, p: G1Value, l: nat, li: nat, k: nat)
    requires
        g1_reduced(p),
        fp_times(l, li) == 1nat,
        g1_alike(q, p, l, k),
    ensures
        g1_alike(g1_dbl_steps(q), g1_dbl_steps(p), l, 4 * k),
{
    if !g1_is_zero(p) {
        let a = fp_times(p.0, p.0);
        let a_q = fp_times(q.0, q.0);
        lemma_fp_scaled_mul(q.0, p.0, 2 * k, q.0, p.0, 2 * k, l);
        assert(fp_scaled(a_q, a, l, 4 * k));
        let b = fp_times(p.1, p.1);
        let b_q = fp_times(q.1, q.1);
        lemma_fp_scaled_mul(q.1, p.1, 3 * k, q.1, p.1, 3 * k, l);
        assert(fp_scaled(b_q, b, l, 6 * k));
        let c = fp_times(b, b);
        let c_q = fp_times(b_q, b_q);
        lemma_fp_scaled_mul(b_q, b, 6 * k, b_q, b, 6 * k, l);
        assert(fp_scaled(c_q, c, l, 12 * k));
        lemma_fp_steps_square_of_sum(p.0, b);
        lemma_fp_steps_square_of_sum(q.0, b_q);
        let xb = fp_times(p.0, b);
        let xb_q = fp_times(q.0, b_q);
        lemma_fp_scaled_mul(q.0, p.0, 2 * k, b_q, b, 6 * k, l);
        assert(fp_scaled(xb_q, xb, l, 8 * k));
        let d0 = fp_plus(xb, xb);
        let d0_q = fp_plus(xb_q, xb_q);
        lemma_fp_scaled_add(xb_q, xb, xb_q, xb, 8 * k, l);
        let d = fp_plus(d0, d0);
        let d_q = fp_plus(d0_q, d0_q);
        lemma_fp_scaled_add(d0_q, d0, d0_q, d0, 8 * k, l);
        let e0 = fp_plus(a, a);
        let e0_q = fp_plus(a_q, a_q);
        lemma_fp_scaled_add(a_q, a, a_q, a, 4 * k, l);
        let e = fp_plus(e0, a);
        let e_q = fp_plus(e0_q, a_q);
        lemma_fp_scaled_add(e0_q, e0, a_q, a, 4 * k, l);
        let f = fp_times(e, e);
        let f_q = fp_times(e_q, e_q);
        lemma_fp_scaled_mul(e_q, e, 4 * k, e_q, e, 4 * k, l);
        assert(fp_scaled(f_q, f, l, 8 * k));
        let dd = fp_plus(d, d);
        let dd_q = fp_plus(d_q, d_q);
        lemma_fp_scaled_add(d_q, d, d_q, d, 8 * k, l);
        let x3 = fp_minus(f, dd);
        let x3_q = fp_minus(f_q, dd_q);
        lemma_fp_scaled_add(f_q, f, dd_q, dd, 8 * k, l);
        let c2 = fp_plus(c, c);
        let c2_q = fp_plus(c_q, c_q);
        lemma_fp_scaled_add(c_q, c, c_q, c, 12 * k, l);
        let c4 = fp_plus(c2, c2);
        let c4_q = fp_plus(c2_q, c2_q);
        lemma_fp_scaled_add(c2_q, c2, c2_q, c2, 12 * k, l);
        let c8 = fp_plus(c4, c4);
        let c8_q = fp_plus(c4_q, c4_q);
        lemma_fp_scaled_add(c4_q, c4, c4_q, c4, 12 * k, l);
        let dx = fp_minus(d, x3);
        let dx_q = fp_minus(d_q, x3_q);
        lemma_fp_scaled_add(d_q, d, x3_q, x3, 8 * k, l);
        let ed = fp_times(e, dx);
        let ed_q = fp_times(e_q, dx_q);
        lemma_fp_scaled_mul(e_q, e, 4 * k, dx_q, dx, 8 * k, l);
        assert(fp_scaled(ed_q, ed, l, 12 * k));
        let y3 = fp_minus(ed, c8);
        let y3_q = fp_minus(ed_q, c8_q);
        lemma_fp_scaled_add(ed_q, ed, c8_q, c8, 12 * k, l);
        let yz = fp_times(p.1, p.2);
        let yz_q = fp_times(q.1, q.2);
        lemma_fp_scaled_mul(q.1, p.1, 3 * k, q.2, p.2, 1 * k, l);
        assert(fp_scaled(yz_q, yz, l, 4 * k));
        let z3 = fp_plus(yz, yz);
        let z3_q = fp_plus(yz_q, yz_q);
        lemma_fp_scaled_add(yz_q, yz, yz_q, yz, 4 * k, l);

        assert(g1_dbl_steps(p) == (x3, y3, z3));
        assert(g1_dbl_steps(q) == (x3_q, y3_q, z3_q));
        lemma_fp_steps_closed(yz, yz);
        lemma_g1_alike_of_coordinates(g1_dbl_steps(q), g1_dbl_steps(p), l, li, 4 * k);
    }
}

/// The doubles of two forms of a point are forms of one point: where the
/// factor between the forms is `l^k`, the one between the doubles is
/// `l^(4k)`.
pub proof fn lemma_g1_dbl_alike(q: G1Value, p: G1Value, l: nat, li: nat, k: nat)
    requires
        g1_reduced(p),
        fp_times(l, li) == 1nat,
        g1_alike(q, p, l, k),
    ensures
        g1_alike(g1_dbl(q), g1_dbl(p), l, 4 * k),
{
    lemma_g1_steps(p, p);
    lemma_g1_steps(q, q);
    lemma_g1_dbl_steps_alike(q, p, l, li, k);
}

/// The sums of forms of two points, written with the named operations, are
/// forms of one point. The result is the exponent of the factor between the
/// sums.
proof fn lemma_g1_add_steps_alike(
    q1: G1Value,
    p1: G1Value,
    k1: nat,
    q2: G1Value,
    p2: G1Value,
    k2: nat,
    l: nat,
    li: nat,
) -> (k: nat)
    requires
        g1_reduced(p1),
        g1_reduced(p2),
        fp_times(l, li) == 1nat,
        g1_alike(q1, p1, l, k1),
        g1_alike(q2, p2, l, k2),
    ensures
        g1_alike(g1_add_steps(q1, q2), g1_add_steps(p1, p2), l, k),
{
    if g1_is_zero(p1) {
        k2
    } else if g1_is_zero(p2) {
        k1
    } else {
        assert(fp_scaled(q1.0, p1.0, l, 2 * k1 + 0 * k2));
        assert(fp_scaled(q1.1, p1.1, l, 3 * k1 + 0 * k2));
        assert(fp_scaled(q1.2, p1.2, l, 1 * k1 + 0 * k2));
        assert(fp_scaled(q2.0, p2.0, l, 0 * k1 + 2 * k2));
        assert(fp_scaled(q2.1, p2.1, l, 0 * k1 + 3 * k2));
        assert(fp_scaled(q2.2, p2.2, l, 0 * k1 + 1 * k2));
        let z1z1 = fp_times(p1.2, p1.2);
        let z1z1_q = fp_times(q1.2, q1.2);
        lemma_fp_scaled_mul(q1.2, p1.2, 1 * k1 + 0 * k2, q1.2, p1.2, 1 * k1 + 0 * k2, l);
        assert(fp_scaled(z1z1_q, z1z1, l, 2 * k1 + 0 * k2));
        let z2z2 = fp_times(p2.2, p2.2);
        let z2z2_q = fp_times(q2.2, q2.2);
        lemma_fp_scaled_mul(q2.2, p2.2, 0 * k1 + 1 * k2, q2.2, p2.2, 0 * k1 + 1 * k2, l);
        assert(fp_scaled(z2z2_q, z2z2, l, 0 * k1 + 2 * k2));
        let u1 = fp_times(p1.0, z2z2);
        let u1_q = fp_times(q1.0, z2z2_q);
        lemma_fp_scaled_mul(q1.0, p1.0, 2 * k1 + 0 * k2, z2z2_q, z2z2, 0 * k1 + 2 * k2, l);
        assert(fp_scaled(u1_q, u1, l, 2 * k1 + 2 * k2));
        let u2 = fp_times(p2.0, z1z1);
        let u2_q = fp_times(q2.0, z1z1_q);
        lemma_fp_scaled_mul(q2.0, p2.0, 0 * k1 + 2 * k2, z1z1_q, z1z1, 2 * k1 + 0 * k2, l);
        assert(fp_scaled(u2_q, u2, l, 2 * k1 + 2 * k2));
        let yz1 = fp_times(p1.1, p2.2);
        let yz1_q = fp_times(q1.1, q2.2);
        lemma_fp_scaled_mul(q1.1, p1.1, 3 * k1 + 0 * k2, q2.2, p2.2, 0 * k1 + 1 * k2, l);
        assert(fp_scaled(yz1_q, yz1, l, 3 * k1 + 1 * k2));
        let s1 = fp_times(yz1, z2z2);
        let s1_q = fp_times(yz1_q, z2z2_q);
        lemma_fp_scaled_mul(yz1_q, yz1, 3 * k1 + 1 * k2, z2z2_q, z2z2, 0 * k1 + 2 * k2, l);
        assert(fp_scaled(s1_q, s1, l, 3 * k1 + 3 * k2));
        let yz2 = fp_times(p2.1, p1.2);
        let yz2_q = fp_times(q2.1, q1.2);
        lemma_fp_scaled_mul(q2.1, p2.1, 0 * k1 + 3 * k2, q1.2, p1.2, 1 * k1 + 0 * k2, l);
        assert(fp_scaled(yz2_q, yz2, l, 1 * k1 + 3 * k2));
        let s2 = fp_times(yz2, z1z1);
        let s2_q = fp_times(yz2_q, z1z1_q);
        lemma_fp_scaled_mul(yz2_q, yz2, 1 * k1 + 3 * k2, z1z1_q, z1z1, 2 * k1 + 0 * k2, l);
        assert(fp_scaled(s2_q, s2, l, 3 * k1 + 3 * k2));
        let h = fp_minus(u2, u1);
        let h_q = fp_minus(u2_q, u1_q);
        lemma_fp_scaled_add(u2_q, u2, u1_q, u1, 2 * k1 + 2 * k2, l);
        let r = fp_minus(s2, s1);
        let r_q = fp_minus(s2_q, s1_q);
        lemma_fp_scaled_add(s2_q, s2, s1_q, s1, 3 * k1 + 3 * k2, l);

        lemma_fp_steps_closed(u2, u1);
        lemma_fp_steps_closed(s2, s1);
        lemma_fp_scaled_zero(h_q, h, l, li, 2 * k1 + 2 * k2);
        lemma_fp_scaled_zero(r_q, r, l, li, 3 * k1 + 3 * k2);
        if h == 0nat {
            if r == 0nat {
                lemma_g1_dbl_steps_alike(q1, p1, l, li, k1);
                4 * k1
            } else {
                0
            }
        } else {
            let hh = fp_times(h, h);
            let hh_q = fp_times(h_q, h_q);
            lemma_fp_scaled_mul(h_q, h, 2 * k1 + 2 * k2, h_q, h, 2 * k1 + 2 * k2, l);
            assert(fp_scaled(hh_q, hh, l, 4 * k1 + 4 * k2));
            let hhh = fp_times(h, hh);
            let hhh_q = fp_times(h_q, hh_q);
            lemma_fp_scaled_mul(h_q, h, 2 * k1 + 2 * k2, hh_q, hh, 4 * k1 + 4 * k2, l);
            assert(fp_scaled(hhh_q, hhh, l, 6 * k1 + 6 * k2));
            let v = fp_times(u1, hh);
            let v_q = fp_times(u1_q, hh_q);
            lemma_fp_scaled_mul(u1_q, u1, 2 * k1 + 2 * k2, hh_q, hh, 4 * k1 + 4 * k2, l);
            assert(fp_scaled(v_q, v, l, 6 * k1 + 6 * k2));
            let rr = fp_times(r, r);
            let rr_q = fp_times(r_q, r_q);
            lemma_fp_scaled_mul(r_q, r, 3 * k1 + 3 * k2, r_q, r, 3 * k1 + 3 * k2, l);
            assert(fp_scaled(rr_q, rr, l, 6 * k1 + 6 * k2));
            let rh = fp_minus(rr, hhh);
            let rh_q = fp_minus(rr_q, hhh_q);
            lemma_fp_scaled_add(rr_q, rr, hhh_q, hhh, 6 * k1 + 6 * k2, l);
            let vv = fp_plus(v, v);
            let vv_q = fp_plus(v_q, v_q);
            lemma_fp_scaled_add(v_q, v, v_q, v, 6 * k1 + 6 * k2, l);
            let x3 = fp_minus(rh, vv);
            let x3_q = fp_minus(rh_q, vv_q);
            lemma_fp_scaled_add(rh_q, rh, vv_q, vv, 6 * k1 + 6 * k2, l);
            let vx = fp_minus(v, x3);
            let vx_q = fp_minus(v_q, x3_q);
            lemma_fp_scaled_add(v_q, v, x3_q, x3, 6 * k1 + 6 * k2, l);
            let rv = fp_times(r, vx);
            let rv_q = fp_times(r_q, vx_q);
            lemma_fp_scaled_mul(r_q, r, 3 * k1 + 3 * k2, vx_q, vx, 6 * k1 + 6 * k2, l);
            assert(fp_scaled(rv_q, rv, l, 9 * k1 + 9 * k2));
            let sh = fp_times(s1, hhh);
            let sh_q = fp_times(s1_q, hhh_q);
            lemma_fp_scaled_mul(s1_q, s1, 3 * k1 + 3 * k2, hhh_q, hhh, 6 * k1 + 6 * k2, l);
            assert(fp_scaled(sh_q, sh, l, 9 * k1 + 9 * k2));
            let y3 = fp_minus(rv, sh);
            let y3_q = fp_minus(rv_q, sh_q);
            lemma_fp_scaled_add(rv_q, rv, sh_q, sh, 9 * k1 + 9 * k2, l);
            let zz = fp_times(p1.2, p2.2);
            let zz_q = fp_times(q1.2, q2.2);
            lemma_fp_scaled_mul(q1.2, p1.2, 1 * k1 + 0 * k2, q2.2, p2.2, 0 * k1 + 1 * k2, l);
            assert(fp_scaled(zz_q, zz, l, 1 * k1 + 1 * k2));
            let z3 = fp_times(zz, h);
            let z3_q = fp_times(zz_q, h_q);
            lemma_fp_scaled_mul(zz_q, zz, 1 * k1 + 1 * k2, h_q, h, 2 * k1 + 2 * k2, l);
            assert(fp_scaled(z3_q, z3, l, 3 * k1 + 3 * k2));

            assert(g1_add_steps(p1, p2) == (x3, y3, z3));
            assert(g1_add_steps(q1, q2) == (x3_q, y3_q, z3_q));
            lemma_fp_steps_closed(zz, h);
            let k = 3 * k1 + 3 * k2;
            assert(fp_scaled(x3_q, x3, l, 2 * k));
            assert(fp_scaled(y3_q, y3, l, 3 * k));
            lemma_g1_alike_of_coordinates(g1_add_steps(q1, q2), g1_add_steps(p1, p2), l, li, k);
            k
        }
    }
}

/// The sums of forms of two points are forms of one point. The result is the
/// exponent of the factor between the sums.
pub proof fn lemma_g1_add_alike(
    q1: G1Value,
    p1: G1Value,
    k1: nat,
    q2: G1Value,
    p2: G1Value,
    k2: nat,
    l: nat,
    li: nat,
) -> (k: nat)
    requires
        g1_reduced(p1),
        g1_reduced(p2),
        fp_times(l, li) == 1nat,
        g1_alike(q1, p1, l, k1),
        g1_alike(q2, p2, l, k2),
    ensures
        g1_alike(g1_add(q1, q2), g1_add(p1, p2), l, k),
{
    lemma_g1_steps(p1, p2);
    lemma_g1_steps(q1, q2);
    lemma_g1_add_steps_alike(q1, p1, k1, q2, p2, k2, l, li)
}

/// The multiples of two forms of a point are forms of one point. The result
/// is the exponent of the factor between the multiples.
pub proof fn lemma_g1_mul_alike(
    q: G1Value,
    p: G1Value,
    l: nat,
    li: nat,
    k: nat,
    n: nat,
) -> (kn: nat)
    requires
        g1_reduced(p),
        fp_times(l, li) == 1nat,
        g1_alike(q, p, l, k),
    ensures
        g1_alike(g1_mul(q, n), g1_mul(p, n), l, kn),
    decreases n,
{
    if n == 0 {
        0
    } else {
        let kh = lemma_g1_mul_alike(q, p, l, li, k, n / 2);
        let hp = g1_mul(p, n / 2);
        let hq = g1_mul(q, n / 2);
        lemma_g1_mul_reduced(p, n / 2);
        lemma_g1_dbl_alike(hq, hp, l, li, kh);
        lemma_g1_dbl_reduced(hp);
        if n % 2 == 1 {
            lemma_g1_add_alike(g1_dbl(hq), g1_dbl(hp), 4 * kh, q, p, k, l, li)
        } else {
            4 * kh
        }
    }
}

/// A form of a point of the curve is on the curve, the equation written with
/// the named operations.
proof fn lemma_g1_on_curve_steps_alike(q: G1Value, p: G1Value, l: nat, li: nat, k: nat)
    requires
        g1_reduced(p),
        g1_b() < fp_modulus(),
        fp_times(l, li) == 1nat,
        g1_alike(q, p, l, k),
        g1_on_curve_steps(p),
    ensures
        g1_on_curve_steps(q),
{
    if !g1_is_zero(p) {
        lemma_fp_steps_one(g1_b());
        assert(fp_pw(l, 0) == 1nat);
        assert(fp_scaled(g1_b(), g1_b(), l, 0 * k));
        let z2 = fp_times(p.2, p.2);
        let z2_q = fp_times(q.2, q.2);
        lemma_fp_scaled_mul(q.2, p.2, 1 * k, q.2, p.2, 1 * k, l);
        assert(fp_scaled(z2_q, z2, l, 2 * k));
        let z4 = fp_times(z2, z2);
        let z4_q = fp_times(z2_q, z2_q);
        lemma_fp_scaled_mul(z2_q, z2, 2 * k, z2_q, z2, 2 * k, l);
        assert(fp_scaled(z4_q, z4, l, 4 * k));
        let z6 = fp_times(z4, z2);
        let z6_q = fp_times(z4_q, z2_q);
        lemma_fp_scaled_mul(z4_q, z4, 4 * k, z2_q, z2, 2 * k, l);
        assert(fp_scaled(z6_q, z6, l, 6 * k));
        let yy = fp_times(p.1, p.1);
        let yy_q = fp_times(q.1, q.1);
        lemma_fp_scaled_mul(q.1, p.1, 3 * k, q.1, p.1, 3 * k, l);
        assert(fp_scaled(yy_q, yy, l, 6 * k));
        let xx = fp_times(p.0, p.0);
        let xx_q = fp_times(q.0, q.0);
        lemma_fp_scaled_mul(q.0, p.0, 2 * k, q.0, p.0, 2 * k, l);
        assert(fp_scaled(xx_q, xx, l, 4 * k));
        let xxx = fp_times(xx, p.0);
        let xxx_q = fp_times(xx_q, q.0);
        lemma_fp_scaled_mul(xx_q, xx, 4 * k, q.0, p.0, 2 * k, l);
        assert(fp_scaled(xxx_q, xxx, l, 6 * k));
        let bz = fp_times(g1_b(), z6);
        let bz_q = fp_times(g1_b(), z6_q);
        lemma_fp_scaled_mul(g1_b(), g1_b(), 0 * k, z6_q, z6, 6 * k, l);
        assert(fp_scaled(bz_q, bz, l, 6 * k));
        let rhs = fp_plus(xxx, bz);
        let rhs_q = fp_plus(xxx_q, bz_q);
        lemma_fp_scaled_add(xxx_q, xxx, bz_q, bz, 6 * k, l);

    }
}

/// A form of a point of the curve is on the curve.
pub proof fn lemma_g1_on_curve_alike(q: G1Value, p: G1Value, l: nat, li: nat, k: nat)
    requires
        g1_reduced(p),
        fp_times(l, li) == 1nat,
        g1_alike(q, p, l, k),
        g1_on_curve(p),
    ensures
        g1_on_curve(q),
{
    lemma_g1_steps(p, p);
    lemma_g1_steps(q, q);
    lemma_g1_on_curve_steps_alike(q, p, l, li, k);
}

/// A form of a point of the group is a point of the group.
pub proof fn lemma_g1_valid_alike(q: G1Value, p: G1Value, l: nat, li: nat, k: nat)
    requires
        g1_reduced(p),
        fp_times(l, li) == 1nat,
        g1_alike(q, p, l, k),
        g1_valid(p),
    ensures
        g1_valid(q),
{
    reveal(g1_valid);
    lemma_g1_on_curve_alike(q, p, l, li, k);
    let kn = lemma_g1_mul_alike(q, p, l, li, k, fr_modulus());
}

/// Where the order of the base field is prime, the affine form of a point
/// that is not the identity is the form that the inverse of `z` gives.
pub proof fn lemma_g1_normalize_alike(p: G1Value)
    requires
        g1_reduced(p),
        !g1_is_zero(p),
        is_prime(fp_modulus()),
    ensures
        fp_times(fp_inv(p.2), p.2) == 1nat,
        g1_alike(g1_normalize(p), p, fp_inv(p.2), 1),
        g1_reduced(g1_normalize(p)),
{
    reveal(fp_times);
    reveal(fp_plus);
    reveal(fp_minus);
    let z = p.2;
    let zi = fp_inv(z);
    lemma_fp_inverse(z);
    lemma_fp_mul_comm(z, zi);
    lemma_fp_mul_one(zi);
    lemma_fp_mul_comm(zi, 1nat);
    assert(fp_pw(zi, 0) == 1nat);
    assert(fp_pw(zi, 1) == fp_mul(fp_pw(zi, 0), zi));
    assert(fp_pw(zi, 1) == zi);
    assert(fp_pw(zi, 2) == fp_mul(fp_pw(zi, 1), zi));
    assert(fp_pw(zi, 3) == fp_mul(fp_pw(zi, 2), zi));
    let n = g1_normalize(p);
    assert(n.2 == 1nat);
    assert(fp_scaled(n.0, p.0, zi, 2));
    assert(fp_scaled(n.1, p.1, zi, 3));
    assert(fp_scaled(n.2, p.2, zi, 1));
    lemma_fp_closed(p.0, fp_mul(zi, zi));
    lemma_fp_closed(p.1, fp_mul(fp_mul(zi, zi), zi));
}

/// Where the order of the base field is prime, the affine form of a point
/// stands for the point.
pub proof fn lemma_g1_normalize_same(p: G1Value)
    requires
        g1_reduced(p),
        is_prime(fp_modulus()),
    ensures
        g1_same(g1_normalize(p), p),
{
    reveal(fp_times);
    reveal(fp_plus);
    reveal(fp_minus);
    if !g1_is_zero(p) {
        let z = p.2;
        let zi = fp_inv(z);
        let n = g1_normalize(p);
        lemma_g1_normalize_alike(p);
        let zi2 = fp_mul(zi, zi);
        let zz = fp_mul(z, z);
        // zi2 * zz == 1
        lemma_fp_interchange(zi, zi, z, z);
        lemma_fp_mul_one(1nat);
        assert(fp_mul(zi2, zz) == 1nat);
        // x
        lemma_fp_mul_assoc(p.0, zi2, zz);
        assert(fp_mul(n.0, zz) == fp_mul(p.0, 1nat));
        // y
        let zi3 = fp_mul(zi2, zi);
        lemma_fp_mul_assoc(p.1, zi3, z);
        lemma_fp_mul_assoc(zi2, zi, z);
        lemma_fp_closed(zi, zi);
        lemma_fp_mul_one(zi2);
        assert(fp_mul(fp_mul(n.1, z), zz) == fp_mul(fp_mul(p.1, zi2), zz));
        lemma_fp_mul_assoc(p.1, zi2, zz);
        lemma_fp_mul_one(p.1);
        assert(fp_mul(fp_mul(n.1, z), zz) == fp_mul(fp_mul(p.1, 1nat), 1nat));
    }
}

/// Where the order of the base field is prime, the affine form of a point
/// of the group is a point of the group.
pub proof fn lemma_g1_normalize_valid(p: G1Value)
    requires
        g1_reduced(p),
        g1_valid(p),
        is_prime(fp_modulus()),
    ensures
        g1_valid(g1_normalize(p)),
{
    if g1_is_zero(p) {
        reveal(g1_valid);
        assert(g1_is_zero(g1_mul(g1_zero(), fr_modulus()))) by {
            lemma_g1_mul_of_zero(fr_modulus());
        }
    } else {
        lemma_g1_normalize_alike(p);
        lemma_g1_valid_alike(g1_normalize(p), p, fp_inv(p.2), p.2, 1);
    }
}

/// Every multiple of the canonical identity is the identity.
pub proof fn lemma_g1_mul_of_zero(n: nat)
    ensures
        g1_is_zero(g1_mul(g1_zero(), n)),
    decreases n,
{
    if n > 0 {
        lemma_g1_mul_of_zero(n / 2);
    }
}

/// Where the order of the base field is prime, reading the bytes of a point
/// of the group gives the point back: what is read is the affine form of the
/// point, which stands for the point.
pub proof fn lemma_g1_serialize_roundtrip(p: G1)
    requires
        p.wf(),
        g1_valid(p@),
        is_prime(fp_modulus()),
    ensures
        g1_decode(g1_encode(p@)) == Some(g1_normalize(p@)),
        g1_same(g1_normalize(p@), p@),
        g1_same(p@, g1_normalize(p@)),
{
    let n = g1_normalize(p@);
    lemma_g1_normalize_same(p@);
    lemma_g1_normalize_valid(p@);
    if !g1_is_zero(p@) {
        lemma_g1_normalize_alike(p@);
        lemma_g1_normalize_affine(n);
    }
    lemma_g1_serialize_roundtrip_affine(n);
    assert(g1_encode(p@) == g1_encode(n));
}

/// Where the order of the base field is prime, reading the text of a point
/// of the group gives the point back, in base 10 and 16: what is read is the
/// affine form of the point, which stands for the point.
pub proof fn lemma_g1_text_roundtrip(p: G1, base: int)
    requires
        p.wf(),
        g1_valid(p@),
        is_prime(fp_modulus()),
        base == 10 || base == 16,
    ensures
        g1_parse(g1_format(p@, base as nat), base) == Some(g1_normalize(p@)),
        g1_same(g1_normalize(p@), p@),
        g1_same(p@, g1_normalize(p@)),
{
    let n = g1_normalize(p@);
    lemma_g1_normalize_same(p@);
    lemma_g1_normalize_valid(p@);
    if !g1_is_zero(p@) {
        lemma_g1_normalize_alike(p@);
        lemma_g1_normalize_affine(n);
    }
    lemma_g1_text_roundtrip_affine(n, base);
    assert(g1_format(p@, base as nat) == g1_format(n, base as nat));
}

} // verus!
