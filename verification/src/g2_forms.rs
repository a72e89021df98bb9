//! The forms of one point of G2: triples of coordinates that differ by a
//! factor with an inverse stand for one point, and doubling, adding and
//! multiplying treat them alike. From this, the affine form of a point of the
//! group is a point of the group, and reading what was written of a point
//! gives the point back.

use crate::fp::fp_modulus;
use crate::fp2::{fp2_inv, fp2_mul, fp2_reduced, F2};
use crate::fp2_ring::{
    fp2_minus, fp2_plus, fp2_pw, fp2_scaled, fp2_times, lemma_fp2_closed, lemma_fp2_closed_all,
    lemma_fp2_interchange, lemma_fp2_inverse, lemma_fp2_mul_assoc, lemma_fp2_mul_comm,
    lemma_fp2_mul_one, lemma_fp2_scaled_add, lemma_fp2_scaled_mul, lemma_fp2_scaled_zero,
    lemma_fp2_steps_closed, lemma_fp2_steps_one, lemma_fp2_steps_square_of_sum,
};
use crate::fr::fr_modulus;
use crate::g2::{
    g2_add, g2_b, g2_dbl, g2_decode, g2_encode, g2_format, g2_is_zero, g2_mul, g2_normalize,
    g2_on_curve, g2_parse, g2_same, g2_valid, g2_zero, lemma_g2_normalize_affine,
    lemma_g2_serialize_roundtrip_affine, lemma_g2_text_roundtrip_affine, G2, G2Value,
};
use crate::modmath::is_prime;
use vstd::prelude::*;

verus! {

/// Whether the three coordinates are fully reduced.
pub open spec fn g2_reduced(p: G2Value) -> bool {
    fp2_reduced(p.0) && fp2_reduced(p.1) && fp2_reduced(p.2)
}

/// Whether `q` is the form of the point `p` that the factor `l^k` gives: `x`
/// times `l^(2k)`, `y` times `l^(3k)` and `z` times `l^k`. All forms of the
/// identity are alike.
pub open spec fn g2_alike(q: G2Value, p: G2Value, l: F2, k: nat) -> bool {
    if g2_is_zero(p) {
        g2_is_zero(q)
    } else {
        !g2_is_zero(q) && fp2_scaled(q.0, p.0, l, 2 * k) && fp2_scaled(q.1, p.1, l, 3 * k)
            && fp2_scaled(q.2, p.2, l, k)
    }
}

/// The double, written with the named operations.
pub open spec fn g2_dbl_steps(p: G2Value) -> G2Value {
    if g2_is_zero(p) {
        p
    } else {
        let a = fp2_times(p.0, p.0);
        let b = fp2_times(p.1, p.1);
        let c = fp2_times(b, b);
        let t = fp2_plus(p.0, b);
        let d0 = fp2_minus(fp2_minus(fp2_times(t, t), a), c);
        let d = fp2_plus(d0, d0);
        let e = fp2_plus(fp2_plus(a, a), a);
        let f = fp2_times(e, e);
        let x3 = fp2_minus(f, fp2_plus(d, d));
        let c2 = fp2_plus(c, c);
        let c4 = fp2_plus(c2, c2);
        let c8 = fp2_plus(c4, c4);
        let y3 = fp2_minus(fp2_times(e, fp2_minus(d, x3)), c8);
        let yz = fp2_times(p.1, p.2);
        (x3, y3, fp2_plus(yz, yz))
    }
}

/// The sum, written with the named operations.
pub open spec fn g2_add_steps(p: G2Value, q: G2Value) -> G2Value {
    if g2_is_zero(p) {
        q
    } else if g2_is_zero(q) {
        p
    } else {
        let z1z1 = fp2_times(p.2, p.2);
        let z2z2 = fp2_times(q.2, q.2);
        let u1 = fp2_times(p.0, z2z2);
        let u2 = fp2_times(q.0, z1z1);
        let s1 = fp2_times(fp2_times(p.1, q.2), z2z2);
        let s2 = fp2_times(fp2_times(q.1, p.2), z1z1);
        let h = fp2_minus(u2, u1);
        let r = fp2_minus(s2, s1);
        if h == (0nat, 0nat) {
            if r == (0nat, 0nat) {
                g2_dbl_steps(p)
            } else {
                g2_zero()
            }
        } else {
            let hh = fp2_times(h, h);
            let hhh = fp2_times(h, hh);
            let v = fp2_times(u1, hh);
            let x3 = fp2_minus(fp2_minus(fp2_times(r, r), hhh), fp2_plus(v, v));
            let y3 = fp2_minus(fp2_times(r, fp2_minus(v, x3)), fp2_times(s1, hhh));
            (x3, y3, fp2_times(fp2_times(p.2, q.2), h))
        }
    }
}

/// The curve equation, written with the named operations.
pub open spec fn g2_on_curve_steps(p: G2Value) -> bool {
    if g2_is_zero(p) {
        true
    } else {
        let z2 = fp2_times(p.2, p.2);
        let z6 = fp2_times(fp2_times(z2, z2), z2);
        fp2_times(p.1, p.1) == fp2_plus(fp2_times(fp2_times(p.0, p.0), p.0), fp2_times(g2_b(), z6))
    }
}

/// Written with the named operations, the double, the sum and the curve
/// equation are what they are.
proof fn lemma_g2_steps(p: G2Value, q: G2Value)
    ensures
        g2_dbl_steps(p) == g2_dbl(p),
        g2_add_steps(p, q) == g2_add(p, q),
        g2_on_curve_steps(p) == g2_on_curve(p),
{
    reveal(fp2_times);
    reveal(fp2_plus);
    reveal(fp2_minus);
}

/// Coordinates that are multiples by the right powers of a factor with an
/// inverse make a form of the point.
proof fn lemma_g2_alike_of_coordinates(q: G2Value, p: G2Value, l: F2, li: F2, k: nat)
    requires
        fp2_reduced(p.2),
        fp2_times(l, li) == (1nat, 0nat),
        fp2_scaled(q.0, p.0, l, 2 * k),
        fp2_scaled(q.1, p.1, l, 3 * k),
        fp2_scaled(q.2, p.2, l, k),
    ensures
        g2_alike(q, p, l, k),
{
    lemma_fp2_scaled_zero(q.2, p.2, l, li, k);
}

/// The double of fully reduced coordinates is fully reduced.
pub proof fn lemma_g2_dbl_reduced(p: G2Value)
    requires
        g2_reduced(p),
    ensures
        g2_reduced(g2_dbl(p)),
{
    if !g2_is_zero(p) {
        let d = g2_dbl(p);
        assert(fp2_reduced(d.0) && fp2_reduced(d.1) && fp2_reduced(d.2)) by {
            lemma_fp2_closed_all();
        }
    }
}

/// The sum of fully reduced coordinates is fully reduced.
pub proof fn lemma_g2_add_reduced(p: G2Value, q: G2Value)
    requires
        g2_reduced(p),
        g2_reduced(q),
    ensures
        g2_reduced(g2_add(p, q)),
{
    lemma_g2_dbl_reduced(p);
    let d = g2_add(p, q);
    assert(fp2_reduced(d.0) && fp2_reduced(d.1) && fp2_reduced(d.2)) by {
        lemma_fp2_closed_all();
    }
}

/// Every multiple of fully reduced coordinates is fully reduced.
pub proof fn lemma_g2_mul_reduced(p: G2Value, n: nat)
    requires
        g2_reduced(p),
    ensures
        g2_reduced(g2_mul(p, n)),
    decreases n,
{
    if n > 0 {
        lemma_g2_mul_reduced(p, n / 2);
        lemma_g2_dbl_reduced(g2_mul(p, n / 2));
        lemma_g2_add_reduced(g2_dbl(g2_mul(p, n / 2)), p);
    }
}

/// The doubles of two forms of a point, written with the named operations,
/// are forms of one point.
proof fn lemma_g2_dbl_steps_alike(q: G2Value, p: G2Value, l: F2, li: F2, k: nat)
    requires
        g2_reduced(p),
        fp2_times(l, li) == (1nat, 0nat),
        g2_alike(q, p, l, k),
    ensures
        g2_alike(g2_dbl_steps(q), g2_dbl_steps(p), l, 4 * k),
{
    if !g2_is_zero(p) {
        let a = fp2_times(p.0, p.0);
        let a_q = fp2_times(q.0, q.0);
        lemma_fp2_scaled_mul(q.0, p.0, 2 * k, q.0, p.0, 2 * k, l);
        assert(fp2_scaled(a_q, a, l, 4 * k));
        let b = fp2_times(p.1, p.1);
        let b_q = fp2_times(q.1, q.1);
        lemma_fp2_scaled_mul(q.1, p.1, 3 * k, q.1, p.1, 3 * k, l);
        assert(fp2_scaled(b_q, b, l, 6 * k));
        let c = fp2_times(b, b);
        let c_q = fp2_times(b_q, b_q);
        lemma_fp2_scaled_mul(b_q, b, 6 * k, b_q, b, 6 * k, l);
        assert(fp2_scaled(c_q, c, l, 12 * k));
        lemma_fp2_steps_square_of_sum(p.0, b);
        lemma_fp2_steps_square_of_sum(q.0, b_q);
        let xb = fp2_times(p.0, b);
        let xb_q = fp2_times(q.0, b_q);
        lemma_fp2_scaled_mul(q.0, p.0, 2 * k, b_q, b, 6 * k, l);
        assert(fp2_scaled(xb_q, xb, l, 8 * k));
        let d0 = fp2_plus(xb, xb);
        let d0_q = fp2_plus(xb_q, xb_q);
        lemma_fp2_scaled_add(xb_q, xb, xb_q, xb, 8 * k, l);
        let d = fp2_plus(d0, d0);
        let d_q = fp2_plus(d0_q, d0_q);
        lemma_fp2_scaled_add(d0_q, d0, d0_q, d0, 8 * k, l);
        let e0 = fp2_plus(a, a);
        let e0_q = fp2_plus(a_q, a_q);
        lemma_fp2_scaled_add(a_q, a, a_q, a, 4 * k, l);
        let e = fp2_plus(e0, a);
        let e_q = fp2_plus(e0_q, a_q);
        lemma_fp2_scaled_add(e0_q, e0, a_q, a, 4 * k, l);
        let f = fp2_times(e, e);
        let f_q = fp2_times(e_q, e_q);
        lemma_fp2_scaled_mul(e_q, e, 4 * k, e_q, e, 4 * k, l);
        assert(fp2_scaled(f_q, f, l, 8 * k));
        let dd = fp2_plus(d, d);
        let dd_q = fp2_plus(d_q, d_q);
        lemma_fp2_scaled_add(d_q, d, d_q, d, 8 * k, l);
        let x3 = fp2_minus(f, dd);
        let x3_q = fp2_minus(f_q, dd_q);
        lemma_fp2_scaled_add(f_q, f, dd_q, dd, 8 * k, l);
        let c2 = fp2_plus(c, c);
        let c2_q = fp2_plus(c_q, c_q);
        lemma_fp2_scaled_add(c_q, c, c_q, c, 12 * k, l);
        let c4 = fp2_plus(c2, c2);
        let c4_q = fp2_plus(c2_q, c2_q);
        lemma_fp2_scaled_add(c2_q, c2, c2_q, c2, 12 * k, l);
        let c8 = fp2_plus(c4, c4);
        let c8_q = fp2_plus(c4_q, c4_q);
        lemma_fp2_scaled_add(c4_q, c4, c4_q, c4, 12 * k, l);
        let dx = fp2_minus(d, x3);
        let dx_q = fp2_minus(d_q, x3_q);
        lemma_fp2_scaled_add(d_q, d, x3_q, x3, 8 * k, l);
        let ed = fp2_times(e, dx);
        let ed_q = fp2_times(e_q, dx_q);
        lemma_fp2_scaled_mul(e_q, e, 4 * k, dx_q, dx, 8 * k, l);
        assert(fp2_scaled(ed_q, ed, l, 12 * k));
        let y3 = fp2_minus(ed, c8);
        let y3_q = fp2_minus(ed_q, c8_q);
        lemma_fp2_scaled_add(ed_q, ed, c8_q, c8, 12 * k, l);
        let yz = fp2_times(p.1, p.2);
        let yz_q = fp2_times(q.1, q.2);
        lemma_fp2_scaled_mul(q.1, p.1, 3 * k, q.2, p.2, 1 * k, l);
        assert(fp2_scaled(yz_q, yz, l, 4 * k));
        let z3 = fp2_plus(yz, yz);
        let z3_q = fp2_plus(yz_q, yz_q);
        lemma_fp2_scaled_add(yz_q, yz, yz_q, yz, 4 * k, l);

        assert(g2_dbl_steps(p) == (x3, y3, z3));
        assert(g2_dbl_steps(q) == (x3_q, y3_q, z3_q));
        lemma_fp2_steps_closed(yz, yz);
        lemma_g2_alike_of_coordinates(g2_dbl_steps(q), g2_dbl_steps(p), l, li, 4 * k);
    }
}

/// The doubles of two forms of a point are forms of one point: where the
/// factor between the forms is `l^k`, the one between the doubles is
/// `l^(4k)`.
pub proof fn lemma_g2_dbl_alike(q: G2Value, p: G2Value, l: F2, li: F2, k: nat)
    requires
        g2_reduced(p),
        fp2_times(l, li) == (1nat, 0nat),
        g2_alike(q, p, l, k),
    ensures
        g2_alike(g2_dbl(q), g2_dbl(p), l, 4 * k),
{
    lemma_g2_steps(p, p);
    lemma_g2_steps(q, q);
    lemma_g2_dbl_steps_alike(q, p, l, li, k);
}

/// The sums of forms of two points, written with the named operations, are
/// forms of one point. The result is the exponent of the factor between the
/// sums.
proof fn lemma_g2_add_steps_alike(
    q1: G2Value,
    p1: G2Value,
    k1: nat,
    q2: G2Value,
    p2: G2Value,
    k2: nat,
    l: F2,
    li: F2,
) -> (k: nat)
    requires
        g2_reduced(p1),
        g2_reduced(p2),
        fp2_times(l, li) == (1nat, 0nat),
        g2_alike(q1, p1, l, k1),
        g2_alike(q2, p2, l, k2),
    ensures
        g2_alike(g2_add_steps(q1, q2), g2_add_steps(p1, p2), l, k),
{
    if g2_is_zero(p1) {
        k2
    } else if g2_is_zero(p2) {
        k1
    } else {
        assert(fp2_scaled(q1.0, p1.0, l, 2 * k1 + 0 * k2));
        assert(fp2_scaled(q1.1, p1.1, l, 3 * k1 + 0 * k2));
        assert(fp2_scaled(q1.2, p1.2, l, 1 * k1 + 0 * k2));
        assert(fp2_scaled(q2.0, p2.0, l, 0 * k1 + 2 * k2));
        assert(fp2_scaled(q2.1, p2.1, l, 0 * k1 + 3 * k2));
        assert(fp2_scaled(q2.2, p2.2, l, 0 * k1 + 1 * k2));
        let z1z1 = fp2_times(p1.2, p1.2);
        let z1z1_q = fp2_times(q1.2, q1.2);
        lemma_fp2_scaled_mul(q1.2, p1.2, 1 * k1 + 0 * k2, q1.2, p1.2, 1 * k1 + 0 * k2, l);
        assert(fp2_scaled(z1z1_q, z1z1, l, 2 * k1 + 0 * k2));
        let z2z2 = fp2_times(p2.2, p2.2);
        let z2z2_q = fp2_times(q2.2, q2.2);
        lemma_fp2_scaled_mul(q2.2, p2.2, 0 * k1 + 1 * k2, q2.2, p2.2, 0 * k1 + 1 * k2, l);
        assert(fp2_scaled(z2z2_q, z2z2, l, 0 * k1 + 2 * k2));
        let u1 = fp2_times(p1.0, z2z2);
        let u1_q = fp2_times(q1.0, z2z2_q);
        lemma_fp2_scaled_mul(q1.0, p1.0, 2 * k1 + 0 * k2, z2z2_q, z2z2, 0 * k1 + 2 * k2, l);
        assert(fp2_scaled(u1_q, u1, l, 2 * k1 + 2 * k2));
        let u2 = fp2_times(p2.0, z1z1);
        let u2_q = fp2_times(q2.0, z1z1_q);
        lemma_fp2_scaled_mul(q2.0, p2.0, 0 * k1 + 2 * k2, z1z1_q, z1z1, 2 * k1 + 0 * k2, l);
        assert(fp2_scaled(u2_q, u2, l, 2 * k1 + 2 * k2));
        let yz1 = fp2_times(p1.1, p2.2);
        let yz1_q = fp2_times(q1.1, q2.2);
        lemma_fp2_scaled_mul(q1.1, p1.1, 3 * k1 + 0 * k2, q2.2, p2.2, 0 * k1 + 1 * k2, l);
        assert(fp2_scaled(yz1_q, yz1, l, 3 * k1 + 1 * k2));
        let s1 = fp2_times(yz1, z2z2);
        let s1_q = fp2_times(yz1_q, z2z2_q);
        lemma_fp2_scaled_mul(yz1_q, yz1, 3 * k1 + 1 * k2, z2z2_q, z2z2, 0 * k1 + 2 * k2, l);
        assert(fp2_scaled(s1_q, s1, l, 3 * k1 + 3 * k2));
        let yz2 = fp2_times(p2.1, p1.2);
        let yz2_q = fp2_times(q2.1, q1.2);
        lemma_fp2_scaled_mul(q2.1, p2.1, 0 * k1 + 3 * k2, q1.2, p1.2, 1 * k1 + 0 * k2, l);
        assert(fp2_scaled(yz2_q, yz2, l, 1 * k1 + 3 * k2));
        let s2 = fp2_times(yz2, z1z1);
        let s2_q = fp2_times(yz2_q, z1z1_q);
        lemma_fp2_scaled_mul(yz2_q, yz2, 1 * k1 + 3 * k2, z1z1_q, z1z1, 2 * k1 + 0 * k2, l);
        assert(fp2_scaled(s2_q, s2, l, 3 * k1 + 3 * k2));
        let h = fp2_minus(u2, u1);
        let h_q = fp2_minus(u2_q, u1_q);
        lemma_fp2_scaled_add(u2_q, u2, u1_q, u1, 2 * k1 + 2 * k2, l);
        let r = fp2_minus(s2, s1);
        let r_q = fp2_minus(s2_q, s1_q);
        lemma_fp2_scaled_add(s2_q, s2, s1_q, s1, 3 * k1 + 3 * k2, l);

        lemma_fp2_steps_closed(u2, u1);
        lemma_fp2_steps_closed(s2, s1);
        lemma_fp2_scaled_zero(h_q, h, l, li, 2 * k1 + 2 * k2);
        lemma_fp2_scaled_zero(r_q, r, l, li, 3 * k1 + 3 * k2);
        if h == (0nat, 0nat) {
            if r == (0nat, 0nat) {
                lemma_g2_dbl_steps_alike(q1, p1, l, li, k1);
                4 * k1
            } else {
                0
            }
        } else {
            let hh = fp2_times(h, h);
            let hh_q = fp2_times(h_q, h_q);
            lemma_fp2_scaled_mul(h_q, h, 2 * k1 + 2 * k2, h_q, h, 2 * k1 + 2 * k2, l);
            assert(fp2_scaled(hh_q, hh, l, 4 * k1 + 4 * k2));
            let hhh = fp2_times(h, hh);
            let hhh_q = fp2_times(h_q, hh_q);
            lemma_fp2_scaled_mul(h_q, h, 2 * k1 + 2 * k2, hh_q, hh, 4 * k1 + 4 * k2, l);
            assert(fp2_scaled(hhh_q, hhh, l, 6 * k1 + 6 * k2));
            let v = fp2_times(u1, hh);
            let v_q = fp2_times(u1_q, hh_q);
            lemma_fp2_scaled_mul(u1_q, u1, 2 * k1 + 2 * k2, hh_q, hh, 4 * k1 + 4 * k2, l);
            assert(fp2_scaled(v_q, v, l, 6 * k1 + 6 * k2));
            let rr = fp2_times(r, r);
            let rr_q = fp2_times(r_q, r_q);
            lemma_fp2_scaled_mul(r_q, r, 3 * k1 + 3 * k2, r_q, r, 3 * k1 + 3 * k2, l);
            assert(fp2_scaled(rr_q, rr, l, 6 * k1 + 6 * k2));
            let rh = fp2_minus(rr, hhh);
            let rh_q = fp2_minus(rr_q, hhh_q);
            lemma_fp2_scaled_add(rr_q, rr, hhh_q, hhh, 6 * k1 + 6 * k2, l);
            let vv = fp2_plus(v, v);
            let vv_q = fp2_plus(v_q, v_q);
            lemma_fp2_scaled_add(v_q, v, v_q, v, 6 * k1 + 6 * k2, l);
            let x3 = fp2_minus(rh, vv);
            let x3_q = fp2_minus(rh_q, vv_q);
            lemma_fp2_scaled_add(rh_q, rh, vv_q, vv, 6 * k1 + 6 * k2, l);
            let vx = fp2_minus(v, x3);
            let vx_q = fp2_minus(v_q, x3_q);
            lemma_fp2_scaled_add(v_q, v, x3_q, x3, 6 * k1 + 6 * k2, l);
            let rv = fp2_times(r, vx);
            let rv_q = fp2_times(r_q, vx_q);
            lemma_fp2_scaled_mul(r_q, r, 3 * k1 + 3 * k2, vx_q, vx, 6 * k1 + 6 * k2, l);
            assert(fp2_scaled(rv_q, rv, l, 9 * k1 + 9 * k2));
            let sh = fp2_times(s1, hhh);
            let sh_q = fp2_times(s1_q, hhh_q);
            lemma_fp2_scaled_mul(s1_q, s1, 3 * k1 + 3 * k2, hhh_q, hhh, 6 * k1 + 6 * k2, l);
            assert(fp2_scaled(sh_q, sh, l, 9 * k1 + 9 * k2));
            let y3 = fp2_minus(rv, sh);
            let y3_q = fp2_minus(rv_q, sh_q);
            lemma_fp2_scaled_add(rv_q, rv, sh_q, sh, 9 * k1 + 9 * k2, l);
            let zz = fp2_times(p1.2, p2.2);
            let zz_q = fp2_times(q1.2, q2.2);
            lemma_fp2_scaled_mul(q1.2, p1.2, 1 * k1 + 0 * k2, q2.2, p2.2, 0 * k1 + 1 * k2, l);
            assert(fp2_scaled(zz_q, zz, l, 1 * k1 + 1 * k2));
            let z3 = fp2_times(zz, h);
            let z3_q = fp2_times(zz_q, h_q);
            lemma_fp2_scaled_mul(zz_q, zz, 1 * k1 + 1 * k2, h_q, h, 2 * k1 + 2 * k2, l);
            assert(fp2_scaled(z3_q, z3, l, 3 * k1 + 3 * k2));

            assert(g2_add_steps(p1, p2) == (x3, y3, z3));
            assert(g2_add_steps(q1, q2) == (x3_q, y3_q, z3_q));
            lemma_fp2_steps_closed(zz, h);
            let k = 3 * k1 + 3 * k2;
            assert(fp2_scaled(x3_q, x3, l, 2 * k));
            assert(fp2_scaled(y3_q, y3, l, 3 * k));
            lemma_g2_alike_of_coordinates(g2_add_steps(q1, q2), g2_add_steps(p1, p2), l, li, k);
            k
        }
    }
}

/// The sums of forms of two points are forms of one point. The result is the
/// exponent of the factor between the sums.
pub proof fn lemma_g2_add_alike(
    q1: G2Value,
    p1: G2Value,
    k1: nat,
    q2: G2Value,
    p2: G2Value,
    k2: nat,
    l: F2,
    li: F2,
) -> (k: nat)
    requires
        g2_reduced(p1),
        g2_reduced(p2),
        fp2_times(l, li) == (1nat, 0nat),
        g2_alike(q1, p1, l, k1),
        g2_alike(q2, p2, l, k2),
    ensures
        g2_alike(g2_add(q1, q2), g2_add(p1, p2), l, k),
{
    lemma_g2_steps(p1, p2);
    lemma_g2_steps(q1, q2);
    lemma_g2_add_steps_alike(q1, p1, k1, q2, p2, k2, l, li)
}

/// The multiples of two forms of a point are forms of one point. The result
/// is the exponent of the factor between the multiples.
pub proof fn lemma_g2_mul_alike(q: G2Value, p: G2Value, l: F2, li: F2, k: nat, n: nat) -> (kn: nat)
    requires
        g2_reduced(p),
        fp2_times(l, li) == (1nat, 0nat),
        g2_alike(q, p, l, k),
    ensures
        g2_alike(g2_mul(q, n), g2_mul(p, n), l, kn),
    decreases n,
{
    if n == 0 {
        0
    } else {
        let kh = lemma_g2_mul_alike(q, p, l, li, k, n / 2);
        let hp = g2_mul(p, n / 2);
        let hq = g2_mul(q, n / 2);
        lemma_g2_mul_reduced(p, n / 2);
        lemma_g2_dbl_alike(hq, hp, l, li, kh);
        lemma_g2_dbl_reduced(hp);
        if n % 2 == 1 {
            lemma_g2_add_alike(g2_dbl(hq), g2_dbl(hp), 4 * kh, q, p, k, l, li)
        } else {
            4 * kh
        }
    }
}

/// A form of a point of the curve is on the curve, the equation written with
/// the named operations.
proof fn lemma_g2_on_curve_steps_alike(q: G2Value, p: G2Value, l: F2, li: F2, k: nat)
    requires
        g2_reduced(p),
        fp2_reduced(g2_b()),
        fp2_times(l, li) == (1nat, 0nat),
        g2_alike(q, p, l, k),
        g2_on_curve_steps(p),
    ensures
        g2_on_curve_steps(q),
{
    if !g2_is_zero(p) {
        lemma_fp2_steps_one(g2_b());
        assert(fp2_pw(l, 0) == (1nat, 0nat));
        assert(fp2_scaled(g2_b(), g2_b(), l, 0 * k));
        let z2 = fp2_times(p.2, p.2);
        let z2_q = fp2_times(q.2, q.2);
        lemma_fp2_scaled_mul(q.2, p.2, 1 * k, q.2, p.2, 1 * k, l);
        assert(fp2_scaled(z2_q, z2, l, 2 * k));
        let z4 = fp2_times(z2, z2);
        let z4_q = fp2_times(z2_q, z2_q);
        lemma_fp2_scaled_mul(z2_q, z2, 2 * k, z2_q, z2, 2 * k, l);
        assert(fp2_scaled(z4_q, z4, l, 4 * k));
        let z6 = fp2_times(z4, z2);
        let z6_q = fp2_times(z4_q, z2_q);
        lemma_fp2_scaled_mul(z4_q, z4, 4 * k, z2_q, z2, 2 * k, l);
        assert(fp2_scaled(z6_q, z6, l, 6 * k));
        let yy = fp2_times(p.1, p.1);
        let yy_q = fp2_times(q.1, q.1);
        lemma_fp2_scaled_mul(q.1, p.1, 3 * k, q.1, p.1, 3 * k, l);
        assert(fp2_scaled(yy_q, yy, l, 6 * k));
        let xx = fp2_times(p.0, p.0);
        let xx_q = fp2_times(q.0, q.0);
        lemma_fp2_scaled_mul(q.0, p.0, 2 * k, q.0, p.0, 2 * k, l);
        assert(fp2_scaled(xx_q, xx, l, 4 * k));
        let xxx = fp2_times(xx, p.0);
        let xxx_q = fp2_times(xx_q, q.0);
        lemma_fp2_scaled_mul(xx_q, xx, 4 * k, q.0, p.0, 2 * k, l);
        assert(fp2_scaled(xxx_q, xxx, l, 6 * k));
        let bz = fp2_times(g2_b(), z6);
        let bz_q = fp2_times(g2_b(), z6_q);
        lemma_fp2_scaled_mul(g2_b(), g2_b(), 0 * k, z6_q, z6, 6 * k, l);
        assert(fp2_scaled(bz_q, bz, l, 6 * k));
        let rhs = fp2_plus(xxx, bz);
        let rhs_q = fp2_plus(xxx_q, bz_q);
        lemma_fp2_scaled_add(xxx_q, xxx, bz_q, bz, 6 * k, l);

    }
}

/// A form of a point of the curve is on the curve.
pub proof fn lemma_g2_on_curve_alike(q: G2Value, p: G2Value, l: F2, li: F2, k: nat)
    requires
        g2_reduced(p),
        fp2_times(l, li) == (1nat, 0nat),
        g2_alike(q, p, l, k),
        g2_on_curve(p),
    ensures
        g2_on_curve(q),
{
    lemma_g2_steps(p, p);
    lemma_g2_steps(q, q);
    lemma_g2_on_curve_steps_alike(q, p, l, li, k);
}

/// A form of a point of the group is a point of the group.
pub proof fn lemma_g2_valid_alike(q: G2Value, p: G2Value, l: F2, li: F2, k: nat)
    requires
        g2_reduced(p),
        fp2_times(l, li) == (1nat, 0nat),
        g2_alike(q, p, l, k),
        g2_valid(p),
    ensures
        g2_valid(q),
{
    reveal(g2_valid);
    lemma_g2_on_curve_alike(q, p, l, li, k);
    let kn = lemma_g2_mul_alike(q, p, l, li, k, fr_modulus());
}

/// Where the order of the base field is prime, the affine form of a point
/// that is not the identity is the form that the inverse of `z` gives.
pub proof fn lemma_g2_normalize_alike(p: G2Value)
    requires
        g2_reduced(p),
        !g2_is_zero(p),
        is_prime(fp_modulus()),
    ensures
        fp2_times(fp2_inv(p.2), p.2) == (1nat, 0nat),
        g2_alike(g2_normalize(p), p, fp2_inv(p.2), 1),
        g2_reduced(g2_normalize(p)),
{
    reveal(fp2_times);
    reveal(fp2_plus);
    reveal(fp2_minus);
    let z = p.2;
    let zi = fp2_inv(z);
    lemma_fp2_inverse(z);
    lemma_fp2_mul_comm(z, zi);
    lemma_fp2_mul_one(zi);
    lemma_fp2_mul_comm(zi, (1nat, 0nat));
    assert(fp2_pw(zi, 0) == (1nat, 0nat));
    assert(fp2_pw(zi, 1) == fp2_mul(fp2_pw(zi, 0), zi));
    assert(fp2_pw(zi, 1) == zi);
    assert(fp2_pw(zi, 2) == fp2_mul(fp2_pw(zi, 1), zi));
    assert(fp2_pw(zi, 3) == fp2_mul(fp2_pw(zi, 2), zi));
    let n = g2_normalize(p);
    assert(n.2 == (1nat, 0nat));
    assert(fp2_scaled(n.0, p.0, zi, 2));
    assert(fp2_scaled(n.1, p.1, zi, 3));
    assert(fp2_scaled(n.2, p.2, zi, 1));
    lemma_fp2_closed(p.0, fp2_mul(zi, zi));
    lemma_fp2_closed(p.1, fp2_mul(fp2_mul(zi, zi), zi));
}

/// Where the order of the base field is prime, the affine form of a point
/// stands for the point.
pub proof fn lemma_g2_normalize_same(p: G2Value)
    requires
        g2_reduced(p),
        is_prime(fp_modulus()),
    ensures
        g2_same(g2_normalize(p), p),
{
    reveal(fp2_times);
    reveal(fp2_plus);
    reveal(fp2_minus);
    if !g2_is_zero(p) {
        let z = p.2;
        let zi = fp2_inv(z);
        let n = g2_normalize(p);
        lemma_g2_normalize_alike(p);
        let zi2 = fp2_mul(zi, zi);
        let zz = fp2_mul(z, z);
        // zi2 * zz == 1
        lemma_fp2_interchange(zi, zi, z, z);
        lemma_fp2_mul_one((1nat, 0nat));
        assert(fp2_mul(zi2, zz) == (1nat, 0nat));
        // x
        lemma_fp2_mul_assoc(p.0, zi2, zz);
        assert(fp2_mul(n.0, zz) == fp2_mul(p.0, (1nat, 0nat)));
        // y
        let zi3 = fp2_mul(zi2, zi);
        lemma_fp2_mul_assoc(p.1, zi3, z);
        lemma_fp2_mul_assoc(zi2, zi, z);
        lemma_fp2_closed(zi, zi);
        lemma_fp2_mul_one(zi2);
        assert(fp2_mul(fp2_mul(n.1, z), zz) == fp2_mul(fp2_mul(p.1, zi2), zz));
        lemma_fp2_mul_assoc(p.1, zi2, zz);
        lemma_fp2_mul_one(p.1);
        assert(fp2_mul(fp2_mul(n.1, z), zz) == fp2_mul(fp2_mul(p.1, (1nat, 0nat)), (1nat, 0nat)));
    }
}

/// Where the order of the base field is prime, the affine form of a point
/// of the group is a point of the group.
pub proof fn lemma_g2_normalize_valid(p: G2Value)
    requires
        g2_reduced(p),
        g2_valid(p),
        is_prime(fp_modulus()),
    ensures
        g2_valid(g2_normalize(p)),
{
    if g2_is_zero(p) {
        reveal(g2_valid);
        assert(g2_is_zero(g2_mul(g2_zero(), fr_modulus()))) by {
            lemma_g2_mul_of_zero(fr_modulus());
        }
    } else {
        lemma_g2_normalize_alike(p);
        lemma_g2_valid_alike(g2_normalize(p), p, fp2_inv(p.2), p.2, 1);
    }
}

/// Every multiple of the canonical identity is the identity.
pub proof fn lemma_g2_mul_of_zero(n: nat)
    ensures
        g2_is_zero(g2_mul(g2_zero(), n)),
    decreases n,
{
    if n > 0 {
        lemma_g2_mul_of_zero(n / 2);
    }
}

/// Where the order of the base field is prime, reading the bytes of a point
/// of the group gives the point back: what is read is the affine form of the
/// point, which stands for the point.
pub proof fn lemma_g2_serialize_roundtrip(p: G2)
    requires
        p.wf(),
        g2_valid(p@),
        is_prime(fp_modulus()),
    ensures
        g2_decode(g2_encode(p@)) == Some(g2_normalize(p@)),
        g2_same(g2_normalize(p@), p@),
        g2_same(p@, g2_normalize(p@)),
{
    let n = g2_normalize(p@);
    lemma_g2_normalize_same(p@);
    lemma_g2_normalize_valid(p@);
    if !g2_is_zero(p@) {
        lemma_g2_normalize_alike(p@);
        lemma_g2_normalize_affine(n);
    }
    lemma_g2_serialize_roundtrip_affine(n);
    assert(g2_encode(p@) == g2_encode(n));
}

/// Where the order of the base field is prime, reading the text of a point
/// of the group gives the point back, in base 10 and 16: what is read is the
/// affine form of the point, which stands for the point.
pub proof fn lemma_g2_text_roundtrip(p: G2, base: int)
    requires
        p.wf(),
        g2_valid(p@),
        is_prime(fp_modulus()),
        base == 10 || base == 16,
    ensures
        g2_parse(g2_format(p@, base as nat), base) == Some(g2_normalize(p@)),
        g2_same(g2_normalize(p@), p@),
        g2_same(p@, g2_normalize(p@)),
{
    let n = g2_normalize(p@);
    lemma_g2_normalize_same(p@);
    lemma_g2_normalize_valid(p@);
    if !g2_is_zero(p@) {
        lemma_g2_normalize_alike(p@);
        lemma_g2_normalize_affine(n);
    }
    lemma_g2_text_roundtrip_affine(n, base);
    assert(g2_format(p@, base as nat) == g2_format(n, base as nat));
}

} // verus!
