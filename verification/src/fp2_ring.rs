//! The ring laws of the quadratic extension, and how products, sums and
//! differences behave when their operands are multiplied by powers of one
//! value.

use crate::fermat::{lemma_negative_square_is_no_square, lemma_prime_no_zero_divisors};
use crate::fp::{fp_add, fp_inv, fp_modulus, fp_mul, fp_neg, fp_sub, lemma_fp_modulus_mod_four};
use crate::fp2::{fp2_add, fp2_inv, fp2_mul, fp2_norm, fp2_reduced, fp2_sub, F2};
use crate::modmath::{
    cong, is_prime, lemma_cong_eq, lemma_cong_refl, lemma_cong_rem, lemma_cong_sym,
    lemma_cong_trans, lemma_mod_inv_is_inverse, lemma_mod_ops_cong, lemma_prime_has_inverse,
    mod_neg,
};
use vstd::arithmetic::div_mod::{lemma_mod_bound, lemma_small_mod};
use vstd::prelude::*;

verus! {

/// The polynomial identity behind the second component of a product of three.
proof fn lemma_fp2_assoc_cross(a0: int, a1: int, b0: int, b1: int, c0: int, c1: int)
    ensures
        ((((a0 * b0) - (a1 * b1)) * c1) + (((a0 * b1) + (a1 * b0)) * c0))
            == ((a0 * ((b0 * c1) + (b1 * c0))) + (a1 * ((b0 * c0) - (b1 * c1)))),
{
    assert((a0 * b0 - a1 * b1) * c1 == a0 * b0 * c1 - a1 * b1 * c1) by (nonlinear_arith);
    assert((a0 * b1 + a1 * b0) * c0 == a0 * b1 * c0 + a1 * b0 * c0) by (nonlinear_arith);
    assert(a0 * (b0 * c1 + b1 * c0) == a0 * b0 * c1 + a0 * b1 * c0) by (nonlinear_arith);
    assert(a1 * (b0 * c0 - b1 * c1) == a1 * b0 * c0 - a1 * b1 * c1) by (nonlinear_arith);
}

/// Products do not depend on the order of the factors.
pub proof fn lemma_fp2_mul_comm(a: F2, b: F2)
    ensures
        fp2_mul(a, b) == fp2_mul(b, a),
{
    let p = fp_modulus();
    let m = p as int;
    lemma_cong_refl(a.0 as int, m);
    lemma_cong_refl(b.0 as int, m);
    lemma_mod_ops_cong(a.0, (a.0 as int), b.0, (b.0 as int), p);
    lemma_cong_refl(a.1 as int, m);
    lemma_cong_refl(b.1 as int, m);
    lemma_mod_ops_cong(a.1, (a.1 as int), b.1, (b.1 as int), p);
    lemma_mod_ops_cong(
        fp_mul(a.0, b.0),
        ((a.0 as int) * (b.0 as int)),
        fp_mul(a.1, b.1),
        ((a.1 as int) * (b.1 as int)),
        p,
    );
    lemma_mod_ops_cong(b.0, (b.0 as int), a.0, (a.0 as int), p);
    lemma_mod_ops_cong(b.1, (b.1 as int), a.1, (a.1 as int), p);
    lemma_mod_ops_cong(
        fp_mul(b.0, a.0),
        ((b.0 as int) * (a.0 as int)),
        fp_mul(b.1, a.1),
        ((b.1 as int) * (a.1 as int)),
        p,
    );
    assert(
        (((a.0 as int) * (b.0 as int)) - ((a.1 as int) * (b.1 as int)))
            == (((b.0 as int) * (a.0 as int)) - ((b.1 as int) * (a.1 as int)))
    ) by (nonlinear_arith);
    lemma_cong_sym(
        fp_sub(fp_mul(b.0, a.0), fp_mul(b.1, a.1)) as int,
        (((b.0 as int) * (a.0 as int)) - ((b.1 as int) * (a.1 as int))),
        m,
    );
    lemma_cong_trans(
        fp_sub(fp_mul(a.0, b.0), fp_mul(a.1, b.1)) as int,
        (((a.0 as int) * (b.0 as int)) - ((a.1 as int) * (b.1 as int))),
        fp_sub(fp_mul(b.0, a.0), fp_mul(b.1, a.1)) as int,
        m,
    );
    lemma_cong_eq(
        fp_sub(fp_mul(a.0, b.0), fp_mul(a.1, b.1)) as int,
        fp_sub(fp_mul(b.0, a.0), fp_mul(b.1, a.1)) as int,
        m,
    );
    lemma_mod_ops_cong(a.0, (a.0 as int), b.1, (b.1 as int), p);
    lemma_mod_ops_cong(a.1, (a.1 as int), b.0, (b.0 as int), p);
    lemma_mod_ops_cong(
        fp_mul(a.0, b.1),
        ((a.0 as int) * (b.1 as int)),
        fp_mul(a.1, b.0),
        ((a.1 as int) * (b.0 as int)),
        p,
    );
    lemma_mod_ops_cong(b.0, (b.0 as int), a.1, (a.1 as int), p);
    lemma_mod_ops_cong(b.1, (b.1 as int), a.0, (a.0 as int), p);
    lemma_mod_ops_cong(
        fp_mul(b.0, a.1),
        ((b.0 as int) * (a.1 as int)),
        fp_mul(b.1, a.0),
        ((b.1 as int) * (a.0 as int)),
        p,
    );
    assert(
        (((a.0 as int) * (b.1 as int)) + ((a.1 as int) * (b.0 as int)))
            == (((b.0 as int) * (a.1 as int)) + ((b.1 as int) * (a.0 as int)))
    ) by (nonlinear_arith);
    lemma_cong_sym(
        fp_add(fp_mul(b.0, a.1), fp_mul(b.1, a.0)) as int,
        (((b.0 as int) * (a.1 as int)) + ((b.1 as int) * (a.0 as int))),
        m,
    );
    lemma_cong_trans(
        fp_add(fp_mul(a.0, b.1), fp_mul(a.1, b.0)) as int,
        (((a.0 as int) * (b.1 as int)) + ((a.1 as int) * (b.0 as int))),
        fp_add(fp_mul(b.0, a.1), fp_mul(b.1, a.0)) as int,
        m,
    );
    lemma_cong_eq(
        fp_add(fp_mul(a.0, b.1), fp_mul(a.1, b.0)) as int,
        fp_add(fp_mul(b.0, a.1), fp_mul(b.1, a.0)) as int,
        m,
    );
}

/// Products do not depend on how the factors are grouped.
pub proof fn lemma_fp2_mul_assoc(a: F2, b: F2, c: F2)
    ensures
        fp2_mul(fp2_mul(a, b), c) == fp2_mul(a, fp2_mul(b, c)),
{
    let p = fp_modulus();
    let m = p as int;
    lemma_cong_refl(a.0 as int, m);
    lemma_cong_refl(b.0 as int, m);
    lemma_mod_ops_cong(a.0, (a.0 as int), b.0, (b.0 as int), p);
    lemma_cong_refl(a.1 as int, m);
    lemma_cong_refl(b.1 as int, m);
    lemma_mod_ops_cong(a.1, (a.1 as int), b.1, (b.1 as int), p);
    lemma_mod_ops_cong(
        fp_mul(a.0, b.0),
        ((a.0 as int) * (b.0 as int)),
        fp_mul(a.1, b.1),
        ((a.1 as int) * (b.1 as int)),
        p,
    );
    lemma_cong_refl(c.0 as int, m);
    lemma_mod_ops_cong(
        fp_sub(fp_mul(a.0, b.0), fp_mul(a.1, b.1)),
        (((a.0 as int) * (b.0 as int)) - ((a.1 as int) * (b.1 as int))),
        c.0,
        (c.0 as int),
        p,
    );
    lemma_mod_ops_cong(a.0, (a.0 as int), b.1, (b.1 as int), p);
    lemma_mod_ops_cong(a.1, (a.1 as int), b.0, (b.0 as int), p);
    lemma_mod_ops_cong(
        fp_mul(a.0, b.1),
        ((a.0 as int) * (b.1 as int)),
        fp_mul(a.1, b.0),
        ((a.1 as int) * (b.0 as int)),
        p,
    );
    lemma_cong_refl(c.1 as int, m);
    lemma_mod_ops_cong(
        fp_add(fp_mul(a.0, b.1), fp_mul(a.1, b.0)),
        (((a.0 as int) * (b.1 as int)) + ((a.1 as int) * (b.0 as int))),
        c.1,
        (c.1 as int),
        p,
    );
    lemma_mod_ops_cong(
        fp_mul(fp_sub(fp_mul(a.0, b.0), fp_mul(a.1, b.1)), c.0),
        ((((a.0 as int) * (b.0 as int)) - ((a.1 as int) * (b.1 as int))) * (c.0 as int)),
        fp_mul(fp_add(fp_mul(a.0, b.1), fp_mul(a.1, b.0)), c.1),
        ((((a.0 as int) * (b.1 as int)) + ((a.1 as int) * (b.0 as int))) * (c.1 as int)),
        p,
    );
    lemma_mod_ops_cong(b.0, (b.0 as int), c.0, (c.0 as int), p);
    lemma_mod_ops_cong(b.1, (b.1 as int), c.1, (c.1 as int), p);
    lemma_mod_ops_cong(
        fp_mul(b.0, c.0),
        ((b.0 as int) * (c.0 as int)),
        fp_mul(b.1, c.1),
        ((b.1 as int) * (c.1 as int)),
        p,
    );
    lemma_mod_ops_cong(
        a.0,
        (a.0 as int),
        fp_sub(fp_mul(b.0, c.0), fp_mul(b.1, c.1)),
        (((b.0 as int) * (c.0 as int)) - ((b.1 as int) * (c.1 as int))),
        p,
    );
    lemma_mod_ops_cong(b.0, (b.0 as int), c.1, (c.1 as int), p);
    lemma_mod_ops_cong(b.1, (b.1 as int), c.0, (c.0 as int), p);
    lemma_mod_ops_cong(
        fp_mul(b.0, c.1),
        ((b.0 as int) * (c.1 as int)),
        fp_mul(b.1, c.0),
        ((b.1 as int) * (c.0 as int)),
        p,
    );
    lemma_mod_ops_cong(
        a.1,
        (a.1 as int),
        fp_add(fp_mul(b.0, c.1), fp_mul(b.1, c.0)),
        (((b.0 as int) * (c.1 as int)) + ((b.1 as int) * (c.0 as int))),
        p,
    );
    lemma_mod_ops_cong(
        fp_mul(a.0, fp_sub(fp_mul(b.0, c.0), fp_mul(b.1, c.1))),
        ((a.0 as int) * (((b.0 as int) * (c.0 as int)) - ((b.1 as int) * (c.1 as int)))),
        fp_mul(a.1, fp_add(fp_mul(b.0, c.1), fp_mul(b.1, c.0))),
        ((a.1 as int) * (((b.0 as int) * (c.1 as int)) + ((b.1 as int) * (c.0 as int)))),
        p,
    );
    assert(
        (
            ((((a.0 as int) * (b.0 as int)) - ((a.1 as int) * (b.1 as int))) * (c.0 as int))
                - ((((a.0 as int) * (b.1 as int)) + ((a.1 as int) * (b.0 as int))) * (c.1 as int))
        )
            == (
                ((a.0 as int) * (((b.0 as int) * (c.0 as int)) - ((b.1 as int) * (c.1 as int))))
                    - (
                        (a.1 as int)
                            * (((b.0 as int) * (c.1 as int)) + ((b.1 as int) * (c.0 as int)))
                    )
            )
    ) by (nonlinear_arith);
    lemma_cong_sym(
        fp_sub(
            fp_mul(a.0, fp_sub(fp_mul(b.0, c.0), fp_mul(b.1, c.1))),
            fp_mul(a.1, fp_add(fp_mul(b.0, c.1), fp_mul(b.1, c.0))),
        ) as int,
        (
            ((a.0 as int) * (((b.0 as int) * (c.0 as int)) - ((b.1 as int) * (c.1 as int))))
                - ((a.1 as int) * (((b.0 as int) * (c.1 as int)) + ((b.1 as int) * (c.0 as int))))
        ),
        m,
    );
    lemma_cong_trans(
        fp_sub(
            fp_mul(fp_sub(fp_mul(a.0, b.0), fp_mul(a.1, b.1)), c.0),
            fp_mul(fp_add(fp_mul(a.0, b.1), fp_mul(a.1, b.0)), c.1),
        ) as int,
        (
            ((((a.0 as int) * (b.0 as int)) - ((a.1 as int) * (b.1 as int))) * (c.0 as int))
                - ((((a.0 as int) * (b.1 as int)) + ((a.1 as int) * (b.0 as int))) * (c.1 as int))
        ),
        fp_sub(
            fp_mul(a.0, fp_sub(fp_mul(b.0, c.0), fp_mul(b.1, c.1))),
            fp_mul(a.1, fp_add(fp_mul(b.0, c.1), fp_mul(b.1, c.0))),
        ) as int,
        m,
    );
    lemma_cong_eq(
        fp_sub(
            fp_mul(fp_sub(fp_mul(a.0, b.0), fp_mul(a.1, b.1)), c.0),
            fp_mul(fp_add(fp_mul(a.0, b.1), fp_mul(a.1, b.0)), c.1),
        ) as int,
        fp_sub(
            fp_mul(a.0, fp_sub(fp_mul(b.0, c.0), fp_mul(b.1, c.1))),
            fp_mul(a.1, fp_add(fp_mul(b.0, c.1), fp_mul(b.1, c.0))),
        ) as int,
        m,
    );
    lemma_mod_ops_cong(
        fp_sub(fp_mul(a.0, b.0), fp_mul(a.1, b.1)),
        (((a.0 as int) * (b.0 as int)) - ((a.1 as int) * (b.1 as int))),
        c.1,
        (c.1 as int),
        p,
    );
    lemma_mod_ops_cong(
        fp_add(fp_mul(a.0, b.1), fp_mul(a.1, b.0)),
        (((a.0 as int) * (b.1 as int)) + ((a.1 as int) * (b.0 as int))),
        c.0,
        (c.0 as int),
        p,
    );
    lemma_mod_ops_cong(
        fp_mul(fp_sub(fp_mul(a.0, b.0), fp_mul(a.1, b.1)), c.1),
        ((((a.0 as int) * (b.0 as int)) - ((a.1 as int) * (b.1 as int))) * (c.1 as int)),
        fp_mul(fp_add(fp_mul(a.0, b.1), fp_mul(a.1, b.0)), c.0),
        ((((a.0 as int) * (b.1 as int)) + ((a.1 as int) * (b.0 as int))) * (c.0 as int)),
        p,
    );
    lemma_mod_ops_cong(
        a.0,
        (a.0 as int),
        fp_add(fp_mul(b.0, c.1), fp_mul(b.1, c.0)),
        (((b.0 as int) * (c.1 as int)) + ((b.1 as int) * (c.0 as int))),
        p,
    );
    lemma_mod_ops_cong(
        a.1,
        (a.1 as int),
        fp_sub(fp_mul(b.0, c.0), fp_mul(b.1, c.1)),
        (((b.0 as int) * (c.0 as int)) - ((b.1 as int) * (c.1 as int))),
        p,
    );
    lemma_mod_ops_cong(
        fp_mul(a.0, fp_add(fp_mul(b.0, c.1), fp_mul(b.1, c.0))),
        ((a.0 as int) * (((b.0 as int) * (c.1 as int)) + ((b.1 as int) * (c.0 as int)))),
        fp_mul(a.1, fp_sub(fp_mul(b.0, c.0), fp_mul(b.1, c.1))),
        ((a.1 as int) * (((b.0 as int) * (c.0 as int)) - ((b.1 as int) * (c.1 as int)))),
        p,
    );
    lemma_fp2_assoc_cross(a.0 as int, a.1 as int, b.0 as int, b.1 as int, c.0 as int, c.1 as int);
    lemma_cong_sym(
        fp_add(
            fp_mul(a.0, fp_add(fp_mul(b.0, c.1), fp_mul(b.1, c.0))),
            fp_mul(a.1, fp_sub(fp_mul(b.0, c.0), fp_mul(b.1, c.1))),
        ) as int,
        (
            ((a.0 as int) * (((b.0 as int) * (c.1 as int)) + ((b.1 as int) * (c.0 as int))))
                + ((a.1 as int) * (((b.0 as int) * (c.0 as int)) - ((b.1 as int) * (c.1 as int))))
        ),
        m,
    );
    lemma_cong_trans(
        fp_add(
            fp_mul(fp_sub(fp_mul(a.0, b.0), fp_mul(a.1, b.1)), c.1),
            fp_mul(fp_add(fp_mul(a.0, b.1), fp_mul(a.1, b.0)), c.0),
        ) as int,
        (
            ((((a.0 as int) * (b.0 as int)) - ((a.1 as int) * (b.1 as int))) * (c.1 as int))
                + ((((a.0 as int) * (b.1 as int)) + ((a.1 as int) * (b.0 as int))) * (c.0 as int))
        ),
        fp_add(
            fp_mul(a.0, fp_add(fp_mul(b.0, c.1), fp_mul(b.1, c.0))),
            fp_mul(a.1, fp_sub(fp_mul(b.0, c.0), fp_mul(b.1, c.1))),
        ) as int,
        m,
    );
    lemma_cong_eq(
        fp_add(
            fp_mul(fp_sub(fp_mul(a.0, b.0), fp_mul(a.1, b.1)), c.1),
            fp_mul(fp_add(fp_mul(a.0, b.1), fp_mul(a.1, b.0)), c.0),
        ) as int,
        fp_add(
            fp_mul(a.0, fp_add(fp_mul(b.0, c.1), fp_mul(b.1, c.0))),
            fp_mul(a.1, fp_sub(fp_mul(b.0, c.0), fp_mul(b.1, c.1))),
        ) as int,
        m,
    );
}

/// A product with a sum or a difference is the sum or the difference of the products.
pub proof fn lemma_fp2_distrib(a: F2, b: F2, c: F2)
    ensures
        fp2_mul(fp2_add(a, b), c) == fp2_add(fp2_mul(a, c), fp2_mul(b, c)),
        fp2_mul(fp2_sub(a, b), c) == fp2_sub(fp2_mul(a, c), fp2_mul(b, c)),
{
    let p = fp_modulus();
    let m = p as int;
    lemma_cong_refl(a.0 as int, m);
    lemma_cong_refl(b.0 as int, m);
    lemma_mod_ops_cong(a.0, (a.0 as int), b.0, (b.0 as int), p);
    lemma_cong_refl(c.0 as int, m);
    lemma_mod_ops_cong(fp_add(a.0, b.0), ((a.0 as int) + (b.0 as int)), c.0, (c.0 as int), p);
    lemma_cong_refl(a.1 as int, m);
    lemma_cong_refl(b.1 as int, m);
    lemma_mod_ops_cong(a.1, (a.1 as int), b.1, (b.1 as int), p);
    lemma_cong_refl(c.1 as int, m);
    lemma_mod_ops_cong(fp_add(a.1, b.1), ((a.1 as int) + (b.1 as int)), c.1, (c.1 as int), p);
    lemma_mod_ops_cong(
        fp_mul(fp_add(a.0, b.0), c.0),
        (((a.0 as int) + (b.0 as int)) * (c.0 as int)),
        fp_mul(fp_add(a.1, b.1), c.1),
        (((a.1 as int) + (b.1 as int)) * (c.1 as int)),
        p,
    );
    lemma_mod_ops_cong(a.0, (a.0 as int), c.0, (c.0 as int), p);
    lemma_mod_ops_cong(a.1, (a.1 as int), c.1, (c.1 as int), p);
    lemma_mod_ops_cong(
        fp_mul(a.0, c.0),
        ((a.0 as int) * (c.0 as int)),
        fp_mul(a.1, c.1),
        ((a.1 as int) * (c.1 as int)),
        p,
    );
    lemma_mod_ops_cong(b.0, (b.0 as int), c.0, (c.0 as int), p);
    lemma_mod_ops_cong(b.1, (b.1 as int), c.1, (c.1 as int), p);
    lemma_mod_ops_cong(
        fp_mul(b.0, c.0),
        ((b.0 as int) * (c.0 as int)),
        fp_mul(b.1, c.1),
        ((b.1 as int) * (c.1 as int)),
        p,
    );
    lemma_mod_ops_cong(
        fp_sub(fp_mul(a.0, c.0), fp_mul(a.1, c.1)),
        (((a.0 as int) * (c.0 as int)) - ((a.1 as int) * (c.1 as int))),
        fp_sub(fp_mul(b.0, c.0), fp_mul(b.1, c.1)),
        (((b.0 as int) * (c.0 as int)) - ((b.1 as int) * (c.1 as int))),
        p,
    );
    assert(
        (
            (((a.0 as int) + (b.0 as int)) * (c.0 as int))
                - (((a.1 as int) + (b.1 as int)) * (c.1 as int))
        )
            == (
                (((a.0 as int) * (c.0 as int)) - ((a.1 as int) * (c.1 as int)))
                    + (((b.0 as int) * (c.0 as int)) - ((b.1 as int) * (c.1 as int)))
            )
    ) by (nonlinear_arith);
    lemma_cong_sym(
        fp_add(
            fp_sub(fp_mul(a.0, c.0), fp_mul(a.1, c.1)),
            fp_sub(fp_mul(b.0, c.0), fp_mul(b.1, c.1)),
        ) as int,
        (
            (((a.0 as int) * (c.0 as int)) - ((a.1 as int) * (c.1 as int)))
                + (((b.0 as int) * (c.0 as int)) - ((b.1 as int) * (c.1 as int)))
        ),
        m,
    );
    lemma_cong_trans(
        fp_sub(fp_mul(fp_add(a.0, b.0), c.0), fp_mul(fp_add(a.1, b.1), c.1)) as int,
        (
            (((a.0 as int) + (b.0 as int)) * (c.0 as int))
                - (((a.1 as int) + (b.1 as int)) * (c.1 as int))
        ),
        fp_add(
            fp_sub(fp_mul(a.0, c.0), fp_mul(a.1, c.1)),
            fp_sub(fp_mul(b.0, c.0), fp_mul(b.1, c.1)),
        ) as int,
        m,
    );
    lemma_cong_eq(
        fp_sub(fp_mul(fp_add(a.0, b.0), c.0), fp_mul(fp_add(a.1, b.1), c.1)) as int,
        fp_add(
            fp_sub(fp_mul(a.0, c.0), fp_mul(a.1, c.1)),
            fp_sub(fp_mul(b.0, c.0), fp_mul(b.1, c.1)),
        ) as int,
        m,
    );
    lemma_mod_ops_cong(fp_add(a.0, b.0), ((a.0 as int) + (b.0 as int)), c.1, (c.1 as int), p);
    lemma_mod_ops_cong(fp_add(a.1, b.1), ((a.1 as int) + (b.1 as int)), c.0, (c.0 as int), p);
    lemma_mod_ops_cong(
        fp_mul(fp_add(a.0, b.0), c.1),
        (((a.0 as int) + (b.0 as int)) * (c.1 as int)),
        fp_mul(fp_add(a.1, b.1), c.0),
        (((a.1 as int) + (b.1 as int)) * (c.0 as int)),
        p,
    );
    lemma_mod_ops_cong(a.0, (a.0 as int), c.1, (c.1 as int), p);
    lemma_mod_ops_cong(a.1, (a.1 as int), c.0, (c.0 as int), p);
    lemma_mod_ops_cong(
        fp_mul(a.0, c.1),
        ((a.0 as int) * (c.1 as int)),
        fp_mul(a.1, c.0),
        ((a.1 as int) * (c.0 as int)),
        p,
    );
    lemma_mod_ops_cong(b.0, (b.0 as int), c.1, (c.1 as int), p);
    lemma_mod_ops_cong(b.1, (b.1 as int), c.0, (c.0 as int), p);
    lemma_mod_ops_cong(
        fp_mul(b.0, c.1),
        ((b.0 as int) * (c.1 as int)),
        fp_mul(b.1, c.0),
        ((b.1 as int) * (c.0 as int)),
        p,
    );
    lemma_mod_ops_cong(
        fp_add(fp_mul(a.0, c.1), fp_mul(a.1, c.0)),
        (((a.0 as int) * (c.1 as int)) + ((a.1 as int) * (c.0 as int))),
        fp_add(fp_mul(b.0, c.1), fp_mul(b.1, c.0)),
        (((b.0 as int) * (c.1 as int)) + ((b.1 as int) * (c.0 as int))),
        p,
    );
    assert(
        (
            (((a.0 as int) + (b.0 as int)) * (c.1 as int))
                + (((a.1 as int) + (b.1 as int)) * (c.0 as int))
        )
            == (
                (((a.0 as int) * (c.1 as int)) + ((a.1 as int) * (c.0 as int)))
                    + (((b.0 as int) * (c.1 as int)) + ((b.1 as int) * (c.0 as int)))
            )
    ) by (nonlinear_arith);
    lemma_cong_sym(
        fp_add(
            fp_add(fp_mul(a.0, c.1), fp_mul(a.1, c.0)),
            fp_add(fp_mul(b.0, c.1), fp_mul(b.1, c.0)),
        ) as int,
        (
            (((a.0 as int) * (c.1 as int)) + ((a.1 as int) * (c.0 as int)))
                + (((b.0 as int) * (c.1 as int)) + ((b.1 as int) * (c.0 as int)))
        ),
        m,
    );
    lemma_cong_trans(
        fp_add(fp_mul(fp_add(a.0, b.0), c.1), fp_mul(fp_add(a.1, b.1), c.0)) as int,
        (
            (((a.0 as int) + (b.0 as int)) * (c.1 as int))
                + (((a.1 as int) + (b.1 as int)) * (c.0 as int))
        ),
        fp_add(
            fp_add(fp_mul(a.0, c.1), fp_mul(a.1, c.0)),
            fp_add(fp_mul(b.0, c.1), fp_mul(b.1, c.0)),
        ) as int,
        m,
    );
    lemma_cong_eq(
        fp_add(fp_mul(fp_add(a.0, b.0), c.1), fp_mul(fp_add(a.1, b.1), c.0)) as int,
        fp_add(
            fp_add(fp_mul(a.0, c.1), fp_mul(a.1, c.0)),
            fp_add(fp_mul(b.0, c.1), fp_mul(b.1, c.0)),
        ) as int,
        m,
    );
    lemma_mod_ops_cong(a.0, (a.0 as int), b.0, (b.0 as int), p);
    lemma_mod_ops_cong(fp_sub(a.0, b.0), ((a.0 as int) - (b.0 as int)), c.0, (c.0 as int), p);
    lemma_mod_ops_cong(a.1, (a.1 as int), b.1, (b.1 as int), p);
    lemma_mod_ops_cong(fp_sub(a.1, b.1), ((a.1 as int) - (b.1 as int)), c.1, (c.1 as int), p);
    lemma_mod_ops_cong(
        fp_mul(fp_sub(a.0, b.0), c.0),
        (((a.0 as int) - (b.0 as int)) * (c.0 as int)),
        fp_mul(fp_sub(a.1, b.1), c.1),
        (((a.1 as int) - (b.1 as int)) * (c.1 as int)),
        p,
    );
    lemma_mod_ops_cong(
        fp_sub(fp_mul(a.0, c.0), fp_mul(a.1, c.1)),
        (((a.0 as int) * (c.0 as int)) - ((a.1 as int) * (c.1 as int))),
        fp_sub(fp_mul(b.0, c.0), fp_mul(b.1, c.1)),
        (((b.0 as int) * (c.0 as int)) - ((b.1 as int) * (c.1 as int))),
        p,
    );
    assert(
        (
            (((a.0 as int) - (b.0 as int)) * (c.0 as int))
                - (((a.1 as int) - (b.1 as int)) * (c.1 as int))
        )
            == (
                (((a.0 as int) * (c.0 as int)) - ((a.1 as int) * (c.1 as int)))
                    - (((b.0 as int) * (c.0 as int)) - ((b.1 as int) * (c.1 as int)))
            )
    ) by (nonlinear_arith);
    lemma_cong_sym(
        fp_sub(
            fp_sub(fp_mul(a.0, c.0), fp_mul(a.1, c.1)),
            fp_sub(fp_mul(b.0, c.0), fp_mul(b.1, c.1)),
        ) as int,
        (
            (((a.0 as int) * (c.0 as int)) - ((a.1 as int) * (c.1 as int)))
                - (((b.0 as int) * (c.0 as int)) - ((b.1 as int) * (c.1 as int)))
        ),
        m,
    );
    lemma_cong_trans(
        fp_sub(fp_mul(fp_sub(a.0, b.0), c.0), fp_mul(fp_sub(a.1, b.1), c.1)) as int,
        (
            (((a.0 as int) - (b.0 as int)) * (c.0 as int))
                - (((a.1 as int) - (b.1 as int)) * (c.1 as int))
        ),
        fp_sub(
            fp_sub(fp_mul(a.0, c.0), fp_mul(a.1, c.1)),
            fp_sub(fp_mul(b.0, c.0), fp_mul(b.1, c.1)),
        ) as int,
        m,
    );
    lemma_cong_eq(
        fp_sub(fp_mul(fp_sub(a.0, b.0), c.0), fp_mul(fp_sub(a.1, b.1), c.1)) as int,
        fp_sub(
            fp_sub(fp_mul(a.0, c.0), fp_mul(a.1, c.1)),
            fp_sub(fp_mul(b.0, c.0), fp_mul(b.1, c.1)),
        ) as int,
        m,
    );
    lemma_mod_ops_cong(fp_sub(a.0, b.0), ((a.0 as int) - (b.0 as int)), c.1, (c.1 as int), p);
    lemma_mod_ops_cong(fp_sub(a.1, b.1), ((a.1 as int) - (b.1 as int)), c.0, (c.0 as int), p);
    lemma_mod_ops_cong(
        fp_mul(fp_sub(a.0, b.0), c.1),
        (((a.0 as int) - (b.0 as int)) * (c.1 as int)),
        fp_mul(fp_sub(a.1, b.1), c.0),
        (((a.1 as int) - (b.1 as int)) * (c.0 as int)),
        p,
    );
    lemma_mod_ops_cong(
        fp_add(fp_mul(a.0, c.1), fp_mul(a.1, c.0)),
        (((a.0 as int) * (c.1 as int)) + ((a.1 as int) * (c.0 as int))),
        fp_add(fp_mul(b.0, c.1), fp_mul(b.1, c.0)),
        (((b.0 as int) * (c.1 as int)) + ((b.1 as int) * (c.0 as int))),
        p,
    );
    assert(
        (
            (((a.0 as int) - (b.0 as int)) * (c.1 as int))
                + (((a.1 as int) - (b.1 as int)) * (c.0 as int))
        )
            == (
                (((a.0 as int) * (c.1 as int)) + ((a.1 as int) * (c.0 as int)))
                    - (((b.0 as int) * (c.1 as int)) + ((b.1 as int) * (c.0 as int)))
            )
    ) by (nonlinear_arith);
    lemma_cong_sym(
        fp_sub(
            fp_add(fp_mul(a.0, c.1), fp_mul(a.1, c.0)),
            fp_add(fp_mul(b.0, c.1), fp_mul(b.1, c.0)),
        ) as int,
        (
            (((a.0 as int) * (c.1 as int)) + ((a.1 as int) * (c.0 as int)))
                - (((b.0 as int) * (c.1 as int)) + ((b.1 as int) * (c.0 as int)))
        ),
        m,
    );
    lemma_cong_trans(
        fp_add(fp_mul(fp_sub(a.0, b.0), c.1), fp_mul(fp_sub(a.1, b.1), c.0)) as int,
        (
            (((a.0 as int) - (b.0 as int)) * (c.1 as int))
                + (((a.1 as int) - (b.1 as int)) * (c.0 as int))
        ),
        fp_sub(
            fp_add(fp_mul(a.0, c.1), fp_mul(a.1, c.0)),
            fp_add(fp_mul(b.0, c.1), fp_mul(b.1, c.0)),
        ) as int,
        m,
    );
    lemma_cong_eq(
        fp_add(fp_mul(fp_sub(a.0, b.0), c.1), fp_mul(fp_sub(a.1, b.1), c.0)) as int,
        fp_sub(
            fp_add(fp_mul(a.0, c.1), fp_mul(a.1, c.0)),
            fp_add(fp_mul(b.0, c.1), fp_mul(b.1, c.0)),
        ) as int,
        m,
    );
}

/// The product with one is the other factor.
pub proof fn lemma_fp2_mul_one(a: F2)
    requires
        fp2_reduced(a),
    ensures
        fp2_mul(a, (1nat, 0nat)) == a,
{
    let p = fp_modulus();
    let m = p as int;
    lemma_cong_refl(a.0 as int, m);
    lemma_cong_refl(1nat as int, m);
    lemma_mod_ops_cong(a.0, (a.0 as int), 1nat, (1nat as int), p);
    lemma_cong_refl(a.1 as int, m);
    lemma_cong_refl(0nat as int, m);
    lemma_mod_ops_cong(a.1, (a.1 as int), 0nat, (0nat as int), p);
    lemma_mod_ops_cong(
        fp_mul(a.0, 1nat),
        ((a.0 as int) * (1nat as int)),
        fp_mul(a.1, 0nat),
        ((a.1 as int) * (0nat as int)),
        p,
    );
    assert(
        (((a.0 as int) * (1nat as int)) - ((a.1 as int) * (0nat as int))) == (a.0 as int)
    ) by (nonlinear_arith);
    lemma_cong_sym(a.0 as int, (a.0 as int), m);
    lemma_cong_trans(
        fp_sub(fp_mul(a.0, 1nat), fp_mul(a.1, 0nat)) as int,
        (((a.0 as int) * (1nat as int)) - ((a.1 as int) * (0nat as int))),
        a.0 as int,
        m,
    );
    lemma_cong_eq(fp_sub(fp_mul(a.0, 1nat), fp_mul(a.1, 0nat)) as int, a.0 as int, m);
    lemma_mod_ops_cong(a.0, (a.0 as int), 0nat, (0nat as int), p);
    lemma_mod_ops_cong(a.1, (a.1 as int), 1nat, (1nat as int), p);
    lemma_mod_ops_cong(
        fp_mul(a.0, 0nat),
        ((a.0 as int) * (0nat as int)),
        fp_mul(a.1, 1nat),
        ((a.1 as int) * (1nat as int)),
        p,
    );
    assert(
        (((a.0 as int) * (0nat as int)) + ((a.1 as int) * (1nat as int))) == (a.1 as int)
    ) by (nonlinear_arith);
    lemma_cong_sym(a.1 as int, (a.1 as int), m);
    lemma_cong_trans(
        fp_add(fp_mul(a.0, 0nat), fp_mul(a.1, 1nat)) as int,
        (((a.0 as int) * (0nat as int)) + ((a.1 as int) * (1nat as int))),
        a.1 as int,
        m,
    );
    lemma_cong_eq(fp_add(fp_mul(a.0, 0nat), fp_mul(a.1, 1nat)) as int, a.1 as int, m);
}

/// The product with zero is zero.
pub proof fn lemma_fp2_mul_zero(a: F2)
    ensures
        fp2_mul((0nat, 0nat), a) == (0nat, 0nat),
{
    let p = fp_modulus();
    let m = p as int;
    lemma_cong_refl(0nat as int, m);
    lemma_cong_refl(a.0 as int, m);
    lemma_mod_ops_cong(0nat, (0nat as int), a.0, (a.0 as int), p);
    lemma_cong_refl(a.1 as int, m);
    lemma_mod_ops_cong(0nat, (0nat as int), a.1, (a.1 as int), p);
    lemma_mod_ops_cong(
        fp_mul(0nat, a.0),
        ((0nat as int) * (a.0 as int)),
        fp_mul(0nat, a.1),
        ((0nat as int) * (a.1 as int)),
        p,
    );
    assert(
        (((0nat as int) * (a.0 as int)) - ((0nat as int) * (a.1 as int))) == (0nat as int)
    ) by (nonlinear_arith);
    lemma_cong_sym(0nat as int, (0nat as int), m);
    lemma_cong_trans(
        fp_sub(fp_mul(0nat, a.0), fp_mul(0nat, a.1)) as int,
        (((0nat as int) * (a.0 as int)) - ((0nat as int) * (a.1 as int))),
        0nat as int,
        m,
    );
    lemma_cong_eq(fp_sub(fp_mul(0nat, a.0), fp_mul(0nat, a.1)) as int, 0nat as int, m);
    lemma_mod_ops_cong(
        fp_mul(0nat, a.1),
        ((0nat as int) * (a.1 as int)),
        fp_mul(0nat, a.0),
        ((0nat as int) * (a.0 as int)),
        p,
    );
    assert(
        (((0nat as int) * (a.1 as int)) + ((0nat as int) * (a.0 as int))) == (0nat as int)
    ) by (nonlinear_arith);
    lemma_cong_sym(0nat as int, (0nat as int), m);
    lemma_cong_trans(
        fp_add(fp_mul(0nat, a.1), fp_mul(0nat, a.0)) as int,
        (((0nat as int) * (a.1 as int)) + ((0nat as int) * (a.0 as int))),
        0nat as int,
        m,
    );
    lemma_cong_eq(fp_add(fp_mul(0nat, a.1), fp_mul(0nat, a.0)) as int, 0nat as int, m);
}

/// The square of a sum, less the two squares, is twice the product.
pub proof fn lemma_fp2_square_of_sum(x: F2, b: F2)
    ensures
        fp2_sub(fp2_sub(fp2_mul(fp2_add(x, b), fp2_add(x, b)), fp2_mul(x, x)), fp2_mul(b, b))
            == fp2_add(fp2_mul(x, b), fp2_mul(x, b)),
{
    let p = fp_modulus();
    let m = p as int;
    lemma_cong_refl(x.0 as int, m);
    lemma_cong_refl(b.0 as int, m);
    lemma_mod_ops_cong(x.0, (x.0 as int), b.0, (b.0 as int), p);
    lemma_mod_ops_cong(
        fp_add(x.0, b.0),
        ((x.0 as int) + (b.0 as int)),
        fp_add(x.0, b.0),
        ((x.0 as int) + (b.0 as int)),
        p,
    );
    lemma_cong_refl(x.1 as int, m);
    lemma_cong_refl(b.1 as int, m);
    lemma_mod_ops_cong(x.1, (x.1 as int), b.1, (b.1 as int), p);
    lemma_mod_ops_cong(
        fp_add(x.1, b.1),
        ((x.1 as int) + (b.1 as int)),
        fp_add(x.1, b.1),
        ((x.1 as int) + (b.1 as int)),
        p,
    );
    lemma_mod_ops_cong(
        fp_mul(fp_add(x.0, b.0), fp_add(x.0, b.0)),
        (((x.0 as int) + (b.0 as int)) * ((x.0 as int) + (b.0 as int))),
        fp_mul(fp_add(x.1, b.1), fp_add(x.1, b.1)),
        (((x.1 as int) + (b.1 as int)) * ((x.1 as int) + (b.1 as int))),
        p,
    );
    lemma_mod_ops_cong(x.0, (x.0 as int), x.0, (x.0 as int), p);
    lemma_mod_ops_cong(x.1, (x.1 as int), x.1, (x.1 as int), p);
    lemma_mod_ops_cong(
        fp_mul(x.0, x.0),
        ((x.0 as int) * (x.0 as int)),
        fp_mul(x.1, x.1),
        ((x.1 as int) * (x.1 as int)),
        p,
    );
    lemma_mod_ops_cong(
        fp_sub(
            fp_mul(fp_add(x.0, b.0), fp_add(x.0, b.0)),
            fp_mul(fp_add(x.1, b.1), fp_add(x.1, b.1)),
        ),
        (
            (((x.0 as int) + (b.0 as int)) * ((x.0 as int) + (b.0 as int)))
                - (((x.1 as int) + (b.1 as int)) * ((x.1 as int) + (b.1 as int)))
        ),
        fp_sub(fp_mul(x.0, x.0), fp_mul(x.1, x.1)),
        (((x.0 as int) * (x.0 as int)) - ((x.1 as int) * (x.1 as int))),
        p,
    );
    lemma_mod_ops_cong(b.0, (b.0 as int), b.0, (b.0 as int), p);
    lemma_mod_ops_cong(b.1, (b.1 as int), b.1, (b.1 as int), p);
    lemma_mod_ops_cong(
        fp_mul(b.0, b.0),
        ((b.0 as int) * (b.0 as int)),
        fp_mul(b.1, b.1),
        ((b.1 as int) * (b.1 as int)),
        p,
    );
    lemma_mod_ops_cong(
        fp_sub(
            fp_sub(
                fp_mul(fp_add(x.0, b.0), fp_add(x.0, b.0)),
                fp_mul(fp_add(x.1, b.1), fp_add(x.1, b.1)),
            ),
            fp_sub(fp_mul(x.0, x.0), fp_mul(x.1, x.1)),
        ),
        (
            (
                (((x.0 as int) + (b.0 as int)) * ((x.0 as int) + (b.0 as int)))
                    - (((x.1 as int) + (b.1 as int)) * ((x.1 as int) + (b.1 as int)))
            )
                - (((x.0 as int) * (x.0 as int)) - ((x.1 as int) * (x.1 as int)))
        ),
        fp_sub(fp_mul(b.0, b.0), fp_mul(b.1, b.1)),
        (((b.0 as int) * (b.0 as int)) - ((b.1 as int) * (b.1 as int))),
        p,
    );
    lemma_mod_ops_cong(x.0, (x.0 as int), b.0, (b.0 as int), p);
    lemma_mod_ops_cong(x.1, (x.1 as int), b.1, (b.1 as int), p);
    lemma_mod_ops_cong(
        fp_mul(x.0, b.0),
        ((x.0 as int) * (b.0 as int)),
        fp_mul(x.1, b.1),
        ((x.1 as int) * (b.1 as int)),
        p,
    );
    lemma_mod_ops_cong(
        fp_sub(fp_mul(x.0, b.0), fp_mul(x.1, b.1)),
        (((x.0 as int) * (b.0 as int)) - ((x.1 as int) * (b.1 as int))),
        fp_sub(fp_mul(x.0, b.0), fp_mul(x.1, b.1)),
        (((x.0 as int) * (b.0 as int)) - ((x.1 as int) * (b.1 as int))),
        p,
    );
    assert(
        (
            (
                (
                    (((x.0 as int) + (b.0 as int)) * ((x.0 as int) + (b.0 as int)))
                        - (((x.1 as int) + (b.1 as int)) * ((x.1 as int) + (b.1 as int)))
                )
                    - (((x.0 as int) * (x.0 as int)) - ((x.1 as int) * (x.1 as int)))
            )
                - (((b.0 as int) * (b.0 as int)) - ((b.1 as int) * (b.1 as int)))
        )
            == (
                (((x.0 as int) * (b.0 as int)) - ((x.1 as int) * (b.1 as int)))
                    + (((x.0 as int) * (b.0 as int)) - ((x.1 as int) * (b.1 as int)))
            )
    ) by (nonlinear_arith);
    lemma_cong_sym(
        fp_add(
            fp_sub(fp_mul(x.0, b.0), fp_mul(x.1, b.1)),
            fp_sub(fp_mul(x.0, b.0), fp_mul(x.1, b.1)),
        ) as int,
        (
            (((x.0 as int) * (b.0 as int)) - ((x.1 as int) * (b.1 as int)))
                + (((x.0 as int) * (b.0 as int)) - ((x.1 as int) * (b.1 as int)))
        ),
        m,
    );
    lemma_cong_trans(
        fp_sub(
            fp_sub(
                fp_sub(
                    fp_mul(fp_add(x.0, b.0), fp_add(x.0, b.0)),
                    fp_mul(fp_add(x.1, b.1), fp_add(x.1, b.1)),
                ),
                fp_sub(fp_mul(x.0, x.0), fp_mul(x.1, x.1)),
            ),
            fp_sub(fp_mul(b.0, b.0), fp_mul(b.1, b.1)),
        ) as int,
        (
            (
                (
                    (((x.0 as int) + (b.0 as int)) * ((x.0 as int) + (b.0 as int)))
                        - (((x.1 as int) + (b.1 as int)) * ((x.1 as int) + (b.1 as int)))
                )
                    - (((x.0 as int) * (x.0 as int)) - ((x.1 as int) * (x.1 as int)))
            )
                - (((b.0 as int) * (b.0 as int)) - ((b.1 as int) * (b.1 as int)))
        ),
        fp_add(
            fp_sub(fp_mul(x.0, b.0), fp_mul(x.1, b.1)),
            fp_sub(fp_mul(x.0, b.0), fp_mul(x.1, b.1)),
        ) as int,
        m,
    );
    lemma_cong_eq(
        fp_sub(
            fp_sub(
                fp_sub(
                    fp_mul(fp_add(x.0, b.0), fp_add(x.0, b.0)),
                    fp_mul(fp_add(x.1, b.1), fp_add(x.1, b.1)),
                ),
                fp_sub(fp_mul(x.0, x.0), fp_mul(x.1, x.1)),
            ),
            fp_sub(fp_mul(b.0, b.0), fp_mul(b.1, b.1)),
        ) as int,
        fp_add(
            fp_sub(fp_mul(x.0, b.0), fp_mul(x.1, b.1)),
            fp_sub(fp_mul(x.0, b.0), fp_mul(x.1, b.1)),
        ) as int,
        m,
    );
    lemma_mod_ops_cong(
        fp_add(x.0, b.0),
        ((x.0 as int) + (b.0 as int)),
        fp_add(x.1, b.1),
        ((x.1 as int) + (b.1 as int)),
        p,
    );
    lemma_mod_ops_cong(
        fp_add(x.1, b.1),
        ((x.1 as int) + (b.1 as int)),
        fp_add(x.0, b.0),
        ((x.0 as int) + (b.0 as int)),
        p,
    );
    lemma_mod_ops_cong(
        fp_mul(fp_add(x.0, b.0), fp_add(x.1, b.1)),
        (((x.0 as int) + (b.0 as int)) * ((x.1 as int) + (b.1 as int))),
        fp_mul(fp_add(x.1, b.1), fp_add(x.0, b.0)),
        (((x.1 as int) + (b.1 as int)) * ((x.0 as int) + (b.0 as int))),
        p,
    );
    lemma_mod_ops_cong(x.0, (x.0 as int), x.1, (x.1 as int), p);
    lemma_mod_ops_cong(x.1, (x.1 as int), x.0, (x.0 as int), p);
    lemma_mod_ops_cong(
        fp_mul(x.0, x.1),
        ((x.0 as int) * (x.1 as int)),
        fp_mul(x.1, x.0),
        ((x.1 as int) * (x.0 as int)),
        p,
    );
    lemma_mod_ops_cong(
        fp_add(
            fp_mul(fp_add(x.0, b.0), fp_add(x.1, b.1)),
            fp_mul(fp_add(x.1, b.1), fp_add(x.0, b.0)),
        ),
        (
            (((x.0 as int) + (b.0 as int)) * ((x.1 as int) + (b.1 as int)))
                + (((x.1 as int) + (b.1 as int)) * ((x.0 as int) + (b.0 as int)))
        ),
        fp_add(fp_mul(x.0, x.1), fp_mul(x.1, x.0)),
        (((x.0 as int) * (x.1 as int)) + ((x.1 as int) * (x.0 as int))),
        p,
    );
    lemma_mod_ops_cong(b.0, (b.0 as int), b.1, (b.1 as int), p);
    lemma_mod_ops_cong(b.1, (b.1 as int), b.0, (b.0 as int), p);
    lemma_mod_ops_cong(
        fp_mul(b.0, b.1),
        ((b.0 as int) * (b.1 as int)),
        fp_mul(b.1, b.0),
        ((b.1 as int) * (b.0 as int)),
        p,
    );
    lemma_mod_ops_cong(
        fp_sub(
            fp_add(
                fp_mul(fp_add(x.0, b.0), fp_add(x.1, b.1)),
                fp_mul(fp_add(x.1, b.1), fp_add(x.0, b.0)),
            ),
            fp_add(fp_mul(x.0, x.1), fp_mul(x.1, x.0)),
        ),
        (
            (
                (((x.0 as int) + (b.0 as int)) * ((x.1 as int) + (b.1 as int)))
                    + (((x.1 as int) + (b.1 as int)) * ((x.0 as int) + (b.0 as int)))
            )
                - (((x.0 as int) * (x.1 as int)) + ((x.1 as int) * (x.0 as int)))
        ),
        fp_add(fp_mul(b.0, b.1), fp_mul(b.1, b.0)),
        (((b.0 as int) * (b.1 as int)) + ((b.1 as int) * (b.0 as int))),
        p,
    );
    lemma_mod_ops_cong(x.0, (x.0 as int), b.1, (b.1 as int), p);
    lemma_mod_ops_cong(x.1, (x.1 as int), b.0, (b.0 as int), p);
    lemma_mod_ops_cong(
        fp_mul(x.0, b.1),
        ((x.0 as int) * (b.1 as int)),
        fp_mul(x.1, b.0),
        ((x.1 as int) * (b.0 as int)),
        p,
    );
    lemma_mod_ops_cong(
        fp_add(fp_mul(x.0, b.1), fp_mul(x.1, b.0)),
        (((x.0 as int) * (b.1 as int)) + ((x.1 as int) * (b.0 as int))),
        fp_add(fp_mul(x.0, b.1), fp_mul(x.1, b.0)),
        (((x.0 as int) * (b.1 as int)) + ((x.1 as int) * (b.0 as int))),
        p,
    );
    assert(
        (
            (
                (
                    (((x.0 as int) + (b.0 as int)) * ((x.1 as int) + (b.1 as int)))
                        + (((x.1 as int) + (b.1 as int)) * ((x.0 as int) + (b.0 as int)))
                )
                    - (((x.0 as int) * (x.1 as int)) + ((x.1 as int) * (x.0 as int)))
            )
                - (((b.0 as int) * (b.1 as int)) + ((b.1 as int) * (b.0 as int)))
        )
            == (
                (((x.0 as int) * (b.1 as int)) + ((x.1 as int) * (b.0 as int)))
                    + (((x.0 as int) * (b.1 as int)) + ((x.1 as int) * (b.0 as int)))
            )
    ) by (nonlinear_arith);
    lemma_cong_sym(
        fp_add(
            fp_add(fp_mul(x.0, b.1), fp_mul(x.1, b.0)),
            fp_add(fp_mul(x.0, b.1), fp_mul(x.1, b.0)),
        ) as int,
        (
            (((x.0 as int) * (b.1 as int)) + ((x.1 as int) * (b.0 as int)))
                + (((x.0 as int) * (b.1 as int)) + ((x.1 as int) * (b.0 as int)))
        ),
        m,
    );
    lemma_cong_trans(
        fp_sub(
            fp_sub(
                fp_add(
                    fp_mul(fp_add(x.0, b.0), fp_add(x.1, b.1)),
                    fp_mul(fp_add(x.1, b.1), fp_add(x.0, b.0)),
                ),
                fp_add(fp_mul(x.0, x.1), fp_mul(x.1, x.0)),
            ),
            fp_add(fp_mul(b.0, b.1), fp_mul(b.1, b.0)),
        ) as int,
        (
            (
                (
                    (((x.0 as int) + (b.0 as int)) * ((x.1 as int) + (b.1 as int)))
                        + (((x.1 as int) + (b.1 as int)) * ((x.0 as int) + (b.0 as int)))
                )
                    - (((x.0 as int) * (x.1 as int)) + ((x.1 as int) * (x.0 as int)))
            )
                - (((b.0 as int) * (b.1 as int)) + ((b.1 as int) * (b.0 as int)))
        ),
        fp_add(
            fp_add(fp_mul(x.0, b.1), fp_mul(x.1, b.0)),
            fp_add(fp_mul(x.0, b.1), fp_mul(x.1, b.0)),
        ) as int,
        m,
    );
    lemma_cong_eq(
        fp_sub(
            fp_sub(
                fp_add(
                    fp_mul(fp_add(x.0, b.0), fp_add(x.1, b.1)),
                    fp_mul(fp_add(x.1, b.1), fp_add(x.0, b.0)),
                ),
                fp_add(fp_mul(x.0, x.1), fp_mul(x.1, x.0)),
            ),
            fp_add(fp_mul(b.0, b.1), fp_mul(b.1, b.0)),
        ) as int,
        fp_add(
            fp_add(fp_mul(x.0, b.1), fp_mul(x.1, b.0)),
            fp_add(fp_mul(x.0, b.1), fp_mul(x.1, b.0)),
        ) as int,
        m,
    );
}

/// The product, under a name that proofs about long chains of operations
/// can use without unfolding it.
#[verifier::opaque]
pub open spec fn fp2_times(a: F2, b: F2) -> F2 {
    fp2_mul(a, b)
}

/// The sum, under a name that proofs about long chains of operations can use
/// without unfolding it.
#[verifier::opaque]
pub open spec fn fp2_plus(a: F2, b: F2) -> F2 {
    fp2_add(a, b)
}

/// The difference, under a name that proofs about long chains of operations
/// can use without unfolding it.
#[verifier::opaque]
pub open spec fn fp2_minus(a: F2, b: F2) -> F2 {
    fp2_sub(a, b)
}

/// The power `l^k`, by repeated multiplication.
pub open spec fn fp2_pw(l: F2, k: nat) -> F2
    decreases k,
{
    if k == 0 {
        (1nat, 0nat)
    } else {
        fp2_times(fp2_pw(l, (k - 1) as nat), l)
    }
}

/// Whether `a2` is `a` times `l^k`.
pub open spec fn fp2_scaled(a2: F2, a: F2, l: F2, k: nat) -> bool {
    a2 == fp2_times(a, fp2_pw(l, k))
}

/// Sums, differences and products are fully reduced.
pub proof fn lemma_fp2_closed(a: F2, b: F2)
    ensures
        fp2_reduced(fp2_add(a, b)),
        fp2_reduced(fp2_sub(a, b)),
        fp2_reduced(fp2_mul(a, b)),
{
    let m = fp_modulus() as int;
    lemma_mod_bound((a.0 + b.0) as int, m);
    lemma_mod_bound((a.1 + b.1) as int, m);
    lemma_mod_bound(a.0 as int - b.0 as int, m);
    lemma_mod_bound(a.1 as int - b.1 as int, m);
    lemma_mod_bound(fp_mul(a.0, b.0) as int - fp_mul(a.1, b.1) as int, m);
    lemma_mod_bound((fp_mul(a.0, b.1) + fp_mul(a.1, b.0)) as int, m);
}

/// The same, of all operands at once.
pub proof fn lemma_fp2_closed_all()
    ensures
        forall|a: F2, b: F2| fp2_reduced(#[trigger] fp2_add(a, b)),
        forall|a: F2, b: F2| fp2_reduced(#[trigger] fp2_sub(a, b)),
        forall|a: F2, b: F2| fp2_reduced(#[trigger] fp2_mul(a, b)),
{
    assert forall|a: F2, b: F2| fp2_reduced(#[trigger] fp2_add(a, b)) by {
        lemma_fp2_closed(a, b);
    }
    assert forall|a: F2, b: F2| fp2_reduced(#[trigger] fp2_sub(a, b)) by {
        lemma_fp2_closed(a, b);
    }
    assert forall|a: F2, b: F2| fp2_reduced(#[trigger] fp2_mul(a, b)) by {
        lemma_fp2_closed(a, b);
    }
}

/// Powers are fully reduced.
pub proof fn lemma_fp2_pw_closed(l: F2, k: nat)
    ensures
        fp2_reduced(fp2_pw(l, k)),
{
    reveal(fp2_times);
    reveal(fp2_plus);
    reveal(fp2_minus);
    if k > 0 {
        lemma_fp2_closed(fp2_pw(l, (k - 1) as nat), l);
    }
}

/// In a product of two products the inner factors can change places.
pub proof fn lemma_fp2_interchange(a: F2, s: F2, b: F2, t: F2)
    ensures
        fp2_times(fp2_times(a, s), fp2_times(b, t)) == fp2_times(fp2_times(a, b), fp2_times(s, t)),
{
    reveal(fp2_times);
    reveal(fp2_plus);
    reveal(fp2_minus);
    lemma_fp2_mul_assoc(a, s, fp2_times(b, t));
    lemma_fp2_mul_assoc(s, b, t);
    lemma_fp2_mul_comm(s, b);
    lemma_fp2_mul_assoc(b, s, t);
    lemma_fp2_mul_assoc(a, b, fp2_times(s, t));
}

/// The product of two powers of `l` is the power by the sum of the exponents.
pub proof fn lemma_fp2_pw_add(l: F2, i: nat, j: nat)
    ensures
        fp2_times(fp2_pw(l, i), fp2_pw(l, j)) == fp2_pw(l, i + j),
    decreases j,
{
    reveal(fp2_times);
    reveal(fp2_plus);
    reveal(fp2_minus);
    if j == 0 {
        lemma_fp2_pw_closed(l, i);
        lemma_fp2_mul_one(fp2_pw(l, i));
    } else {
        let j1 = (j - 1) as nat;
        lemma_fp2_pw_add(l, i, j1);
        lemma_fp2_mul_assoc(fp2_pw(l, i), fp2_pw(l, j1), l);
        assert(fp2_pw(l, i + j) == fp2_times(fp2_pw(l, ((i + j) - 1) as nat), l));
        assert(((i + j) - 1) as nat == i + j1);
    }
}

/// Where `li` is the inverse of `l`, the power of `li` is the inverse of the
/// power of `l`.
pub proof fn lemma_fp2_pw_inverse(l: F2, li: F2, k: nat)
    requires
        fp2_times(l, li) == (1nat, 0nat),
    ensures
        fp2_times(fp2_pw(l, k), fp2_pw(li, k)) == (1nat, 0nat),
    decreases k,
{
    reveal(fp2_times);
    reveal(fp2_plus);
    reveal(fp2_minus);
    lemma_fp2_mul_one((1nat, 0nat));
    if k > 0 {
        let k1 = (k - 1) as nat;
        lemma_fp2_pw_inverse(l, li, k1);
        lemma_fp2_interchange(fp2_pw(l, k1), l, fp2_pw(li, k1), li);
    }
}

/// The product of a multiple by `l^i` and a multiple by `l^j` is the multiple
/// of the product by `l^(i + j)`.
pub proof fn lemma_fp2_scaled_mul(a2: F2, a: F2, i: nat, b2: F2, b: F2, j: nat, l: F2)
    requires
        fp2_scaled(a2, a, l, i),
        fp2_scaled(b2, b, l, j),
    ensures
        fp2_scaled(fp2_times(a2, b2), fp2_times(a, b), l, i + j),
{
    reveal(fp2_times);
    reveal(fp2_plus);
    reveal(fp2_minus);
    lemma_fp2_interchange(a, fp2_pw(l, i), b, fp2_pw(l, j));
    lemma_fp2_pw_add(l, i, j);
}

/// The sum and the difference of two multiples by `l^i` are the multiples of
/// the sum and the difference.
pub proof fn lemma_fp2_scaled_add(a2: F2, a: F2, b2: F2, b: F2, i: nat, l: F2)
    requires
        fp2_scaled(a2, a, l, i),
        fp2_scaled(b2, b, l, i),
    ensures
        fp2_scaled(fp2_plus(a2, b2), fp2_plus(a, b), l, i),
        fp2_scaled(fp2_minus(a2, b2), fp2_minus(a, b), l, i),
{
    reveal(fp2_times);
    reveal(fp2_plus);
    reveal(fp2_minus);
    lemma_fp2_distrib(a, b, fp2_pw(l, i));
}

/// Where `l` has an inverse, a multiple by a power of `l` is zero only where
/// the value is.
pub proof fn lemma_fp2_scaled_zero(a2: F2, a: F2, l: F2, li: F2, k: nat)
    requires
        fp2_reduced(a),
        fp2_times(l, li) == (1nat, 0nat),
        fp2_scaled(a2, a, l, k),
    ensures
        (a2 == (0nat, 0nat)) == (a == (0nat, 0nat)),
{
    reveal(fp2_times);
    reveal(fp2_plus);
    reveal(fp2_minus);
    let s = fp2_pw(l, k);
    let t = fp2_pw(li, k);
    lemma_fp2_mul_zero(s);
    if a2 == (0nat, 0nat) {
        lemma_fp2_pw_inverse(l, li, k);
        lemma_fp2_mul_one(a);
        lemma_fp2_mul_assoc(a, s, t);
        lemma_fp2_mul_zero(t);
    }
}

/// The named operations give fully reduced values.
pub proof fn lemma_fp2_steps_closed(a: F2, b: F2)
    ensures
        fp2_reduced(fp2_plus(a, b)),
        fp2_reduced(fp2_minus(a, b)),
        fp2_reduced(fp2_times(a, b)),
{
    reveal(fp2_times);
    reveal(fp2_plus);
    reveal(fp2_minus);
    lemma_fp2_closed(a, b);
}

/// The product of a fully reduced value with one is the value.
pub proof fn lemma_fp2_steps_one(a: F2)
    requires
        fp2_reduced(a),
    ensures
        fp2_times(a, (1nat, 0nat)) == a,
{
    reveal(fp2_times);
    lemma_fp2_mul_one(a);
}

/// The square of a sum, less the two squares, is twice the product.
pub proof fn lemma_fp2_steps_square_of_sum(x: F2, b: F2)
    ensures
        fp2_minus(
            fp2_minus(fp2_times(fp2_plus(x, b), fp2_plus(x, b)), fp2_times(x, x)),
            fp2_times(b, b),
        )
            == fp2_plus(fp2_times(x, b), fp2_times(x, b)),
{
    reveal(fp2_times);
    reveal(fp2_plus);
    reveal(fp2_minus);
    lemma_fp2_square_of_sum(x, b);
}

/// The product of a value and `ni` times its conjugate is `ni` times its norm.
pub proof fn lemma_fp2_conjugate_product(z: F2, ni: nat)
    ensures
        fp2_mul(z, (fp_mul(z.0, ni), fp_neg(fp_mul(z.1, ni)))) == (fp_mul(fp2_norm(z), ni), 0nat),
{
    let p = fp_modulus();
    let m = p as int;
    lemma_cong_refl(z.0 as int, m);
    lemma_cong_refl(ni as int, m);
    lemma_mod_ops_cong(z.0, (z.0 as int), ni, (ni as int), p);
    lemma_mod_ops_cong(z.0, (z.0 as int), fp_mul(z.0, ni), ((z.0 as int) * (ni as int)), p);
    lemma_cong_refl(z.1 as int, m);
    lemma_cong_refl(0nat as int, m);
    lemma_mod_ops_cong(z.1, (z.1 as int), ni, (ni as int), p);
    lemma_mod_ops_cong(0nat, (0nat as int), fp_mul(z.1, ni), ((z.1 as int) * (ni as int)), p);
    lemma_mod_ops_cong(
        z.1,
        (z.1 as int),
        fp_sub(0nat, fp_mul(z.1, ni)),
        ((0nat as int) - ((z.1 as int) * (ni as int))),
        p,
    );
    lemma_mod_ops_cong(
        fp_mul(z.0, fp_mul(z.0, ni)),
        ((z.0 as int) * ((z.0 as int) * (ni as int))),
        fp_mul(z.1, fp_sub(0nat, fp_mul(z.1, ni))),
        ((z.1 as int) * ((0nat as int) - ((z.1 as int) * (ni as int)))),
        p,
    );
    lemma_mod_ops_cong(z.0, (z.0 as int), z.0, (z.0 as int), p);
    lemma_mod_ops_cong(z.1, (z.1 as int), z.1, (z.1 as int), p);
    lemma_mod_ops_cong(
        fp_mul(z.0, z.0),
        ((z.0 as int) * (z.0 as int)),
        fp_mul(z.1, z.1),
        ((z.1 as int) * (z.1 as int)),
        p,
    );
    lemma_mod_ops_cong(
        fp_add(fp_mul(z.0, z.0), fp_mul(z.1, z.1)),
        (((z.0 as int) * (z.0 as int)) + ((z.1 as int) * (z.1 as int))),
        ni,
        (ni as int),
        p,
    );
    assert(
        (
            ((z.0 as int) * ((z.0 as int) * (ni as int)))
                - ((z.1 as int) * ((0nat as int) - ((z.1 as int) * (ni as int))))
        )
            == ((((z.0 as int) * (z.0 as int)) + ((z.1 as int) * (z.1 as int))) * (ni as int))
    ) by (nonlinear_arith);
    lemma_cong_sym(
        fp_mul(fp_add(fp_mul(z.0, z.0), fp_mul(z.1, z.1)), ni) as int,
        ((((z.0 as int) * (z.0 as int)) + ((z.1 as int) * (z.1 as int))) * (ni as int)),
        m,
    );
    lemma_cong_trans(
        fp_sub(fp_mul(z.0, fp_mul(z.0, ni)), fp_mul(z.1, fp_sub(0nat, fp_mul(z.1, ni)))) as int,
        (
            ((z.0 as int) * ((z.0 as int) * (ni as int)))
                - ((z.1 as int) * ((0nat as int) - ((z.1 as int) * (ni as int))))
        ),
        fp_mul(fp_add(fp_mul(z.0, z.0), fp_mul(z.1, z.1)), ni) as int,
        m,
    );
    lemma_cong_eq(
        fp_sub(fp_mul(z.0, fp_mul(z.0, ni)), fp_mul(z.1, fp_sub(0nat, fp_mul(z.1, ni)))) as int,
        fp_mul(fp_add(fp_mul(z.0, z.0), fp_mul(z.1, z.1)), ni) as int,
        m,
    );
    lemma_mod_ops_cong(
        z.0,
        (z.0 as int),
        fp_sub(0nat, fp_mul(z.1, ni)),
        ((0nat as int) - ((z.1 as int) * (ni as int))),
        p,
    );
    lemma_mod_ops_cong(z.1, (z.1 as int), fp_mul(z.0, ni), ((z.0 as int) * (ni as int)), p);
    lemma_mod_ops_cong(
        fp_mul(z.0, fp_sub(0nat, fp_mul(z.1, ni))),
        ((z.0 as int) * ((0nat as int) - ((z.1 as int) * (ni as int)))),
        fp_mul(z.1, fp_mul(z.0, ni)),
        ((z.1 as int) * ((z.0 as int) * (ni as int))),
        p,
    );
    assert(
        (
            ((z.0 as int) * ((0nat as int) - ((z.1 as int) * (ni as int))))
                + ((z.1 as int) * ((z.0 as int) * (ni as int)))
        )
            == (0nat as int)
    ) by (nonlinear_arith);
    lemma_cong_sym(0nat as int, (0nat as int), m);
    lemma_cong_trans(
        fp_add(fp_mul(z.0, fp_sub(0nat, fp_mul(z.1, ni))), fp_mul(z.1, fp_mul(z.0, ni))) as int,
        (
            ((z.0 as int) * ((0nat as int) - ((z.1 as int) * (ni as int))))
                + ((z.1 as int) * ((z.0 as int) * (ni as int)))
        ),
        0nat as int,
        m,
    );
    lemma_cong_eq(
        fp_add(fp_mul(z.0, fp_sub(0nat, fp_mul(z.1, ni))), fp_mul(z.1, fp_mul(z.0, ni))) as int,
        0nat as int,
        m,
    );
}

/// Where the order of the base field is prime, the norm of a value that is
/// not zero is not zero.
pub proof fn lemma_fp2_norm_nonzero(z: F2)
    requires
        is_prime(fp_modulus()),
        fp2_reduced(z),
        z != (0nat, 0nat),
    ensures
        fp2_norm(z) != 0,
        fp2_norm(z) < fp_modulus(),
{
    let p = fp_modulus();
    let m = p as int;
    let a = fp_mul(z.0, z.0);
    let b = fp_mul(z.1, z.1);
    lemma_mod_bound((a + b) as int, m);
    if fp2_norm(z) == 0 {
        if z.1 != 0 {
            lemma_small_mod(z.1, p);
            lemma_fp_modulus_mod_four();
            lemma_negative_square_is_no_square(z.1, z.0, p);
            lemma_mod_bound((z.0 * z.0) as int, m);
            lemma_mod_bound(0 - b as int, m);
            lemma_cong_rem(0 - b as int, m);
            assert(cong(a as int, 0 - b as int, m));
            lemma_cong_sym(mod_neg(b, p) as int, 0 - b as int, m);
            lemma_cong_trans(a as int, 0 - b as int, mod_neg(b, p) as int, m);
            lemma_cong_eq(a as int, mod_neg(b, p) as int, m);
            assert(false);
        } else {
            lemma_small_mod(0, p);
            assert(0 * 0 == 0);
            lemma_small_mod(a, p);
            lemma_prime_no_zero_divisors(z.0, z.0, p);
            lemma_small_mod(z.0, p);
            assert(false);
        }
    }
}

/// Where the order of the base field is prime, the product of a value that
/// is not zero and its inverse is one.
pub proof fn lemma_fp2_inverse(z: F2)
    requires
        is_prime(fp_modulus()),
        fp2_reduced(z),
        z != (0nat, 0nat),
    ensures
        fp2_mul(z, fp2_inv(z)) == (1nat, 0nat),
        fp2_reduced(fp2_inv(z)),
{
    let p = fp_modulus();
    let n = fp2_norm(z);
    let ni = fp_inv(n);
    lemma_fp2_norm_nonzero(z);
    lemma_small_mod(n, p);
    lemma_prime_has_inverse(n, p);
    lemma_mod_inv_is_inverse(n, p);
    lemma_fp2_conjugate_product(z, ni);
    lemma_mod_bound((z.0 * ni) as int, p as int);
    lemma_mod_bound(0 - fp_mul(z.1, ni) as int, p as int);
}

} // verus!
