//! The ring laws of the base field, and how products, sums and differences
//! behave when their operands are multiplied by powers of one value.

use crate::fp::{fp_add, fp_inv, fp_modulus, fp_mul, fp_sub};
use crate::modmath::{
    is_prime, lemma_cong_eq, lemma_cong_refl, lemma_cong_sym, lemma_cong_trans,
    lemma_mod_inv_is_inverse, lemma_mod_ops_cong, lemma_prime_has_inverse,
};
use vstd::arithmetic::div_mod::{lemma_mod_bound, lemma_small_mod};
use vstd::prelude::*;

verus! {

/// Products do not depend on the order of the factors.
pub proof fn lemma_fp_mul_comm(a: nat, b: nat)
    ensures
        fp_mul(a, b) == fp_mul(b, a),
{
    let p = fp_modulus();
    let m = p as int;
    lemma_cong_refl(a as int, m);
    lemma_cong_refl(b as int, m);
    lemma_mod_ops_cong(a, (a as int), b, (b as int), p);
    lemma_mod_ops_cong(b, (b as int), a, (a as int), p);
    assert(((a as int) * (b as int)) == ((b as int) * (a as int))) by (nonlinear_arith);
    lemma_cong_sym(fp_mul(b, a) as int, ((b as int) * (a as int)), m);
    lemma_cong_trans(fp_mul(a, b) as int, ((a as int) * (b as int)), fp_mul(b, a) as int, m);
    lemma_cong_eq(fp_mul(a, b) as int, fp_mul(b, a) as int, m);
}

/// Products do not depend on how the factors are grouped.
pub proof fn lemma_fp_mul_assoc(a: nat, b: nat, c: nat)
    ensures
        fp_mul(fp_mul(a, b), c) == fp_mul(a, fp_mul(b, c)),
{
    let p = fp_modulus();
    let m = p as int;
    lemma_cong_refl(a as int, m);
    lemma_cong_refl(b as int, m);
    lemma_mod_ops_cong(a, (a as int), b, (b as int), p);
    lemma_cong_refl(c as int, m);
    lemma_mod_ops_cong(fp_mul(a, b), ((a as int) * (b as int)), c, (c as int), p);
    lemma_mod_ops_cong(b, (b as int), c, (c as int), p);
    lemma_mod_ops_cong(a, (a as int), fp_mul(b, c), ((b as int) * (c as int)), p);
    assert(
        (((a as int) * (b as int)) * (c as int)) == ((a as int) * ((b as int) * (c as int)))
    ) by (nonlinear_arith);
    lemma_cong_sym(fp_mul(a, fp_mul(b, c)) as int, ((a as int) * ((b as int) * (c as int))), m);
    lemma_cong_trans(
        fp_mul(fp_mul(a, b), c) as int,
        (((a as int) * (b as int)) * (c as int)),
        fp_mul(a, fp_mul(b, c)) as int,
        m,
    );
    lemma_cong_eq(fp_mul(fp_mul(a, b), c) as int, fp_mul(a, fp_mul(b, c)) as int, m);
}

/// A product with a sum or a difference is the sum or the difference of the products.
pub proof fn lemma_fp_distrib(a: nat, b: nat, c: nat)
    ensures
        fp_mul(fp_add(a, b), c) == fp_add(fp_mul(a, c), fp_mul(b, c)),
        fp_mul(fp_sub(a, b), c) == fp_sub(fp_mul(a, c), fp_mul(b, c)),
{
    let p = fp_modulus();
    let m = p as int;
    lemma_cong_refl(a as int, m);
    lemma_cong_refl(b as int, m);
    lemma_mod_ops_cong(a, (a as int), b, (b as int), p);
    lemma_cong_refl(c as int, m);
    lemma_mod_ops_cong(fp_add(a, b), ((a as int) + (b as int)), c, (c as int), p);
    lemma_mod_ops_cong(a, (a as int), c, (c as int), p);
    lemma_mod_ops_cong(b, (b as int), c, (c as int), p);
    lemma_mod_ops_cong(
        fp_mul(a, c),
        ((a as int) * (c as int)),
        fp_mul(b, c),
        ((b as int) * (c as int)),
        p,
    );
    assert(
        (((a as int) + (b as int)) * (c as int))
            == (((a as int) * (c as int)) + ((b as int) * (c as int)))
    ) by (nonlinear_arith);
    lemma_cong_sym(
        fp_add(fp_mul(a, c), fp_mul(b, c)) as int,
        (((a as int) * (c as int)) + ((b as int) * (c as int))),
        m,
    );
    lemma_cong_trans(
        fp_mul(fp_add(a, b), c) as int,
        (((a as int) + (b as int)) * (c as int)),
        fp_add(fp_mul(a, c), fp_mul(b, c)) as int,
        m,
    );
    lemma_cong_eq(fp_mul(fp_add(a, b), c) as int, fp_add(fp_mul(a, c), fp_mul(b, c)) as int, m);
    lemma_mod_ops_cong(a, (a as int), b, (b as int), p);
    lemma_mod_ops_cong(fp_sub(a, b), ((a as int) - (b as int)), c, (c as int), p);
    lemma_mod_ops_cong(
        fp_mul(a, c),
        ((a as int) * (c as int)),
        fp_mul(b, c),
        ((b as int) * (c as int)),
        p,
    );
    assert(
        (((a as int) - (b as int)) * (c as int))
            == (((a as int) * (c as int)) - ((b as int) * (c as int)))
    ) by (nonlinear_arith);
    lemma_cong_sym(
        fp_sub(fp_mul(a, c), fp_mul(b, c)) as int,
        (((a as int) * (c as int)) - ((b as int) * (c as int))),
        m,
    );
    lemma_cong_trans(
        fp_mul(fp_sub(a, b), c) as int,
        (((a as int) - (b as int)) * (c as int)),
        fp_sub(fp_mul(a, c), fp_mul(b, c)) as int,
        m,
    );
    lemma_cong_eq(fp_mul(fp_sub(a, b), c) as int, fp_sub(fp_mul(a, c), fp_mul(b, c)) as int, m);
}

/// The product with one is the other factor.
pub proof fn lemma_fp_mul_one(a: nat)
    requires
        a < fp_modulus(),
    ensures
        fp_mul(a, 1nat) == a,
{
    let p = fp_modulus();
    let m = p as int;
    lemma_cong_refl(a as int, m);
    lemma_cong_refl(1nat as int, m);
    lemma_mod_ops_cong(a, (a as int), 1nat, (1nat as int), p);
    assert(((a as int) * (1nat as int)) == (a as int)) by (nonlinear_arith);
    lemma_cong_sym(a as int, (a as int), m);
    lemma_cong_trans(fp_mul(a, 1nat) as int, ((a as int) * (1nat as int)), a as int, m);
    lemma_cong_eq(fp_mul(a, 1nat) as int, a as int, m);
}

/// The product with zero is zero.
pub proof fn lemma_fp_mul_zero(a: nat)
    ensures
        fp_mul(0nat, a) == 0nat,
{
    let p = fp_modulus();
    let m = p as int;
    lemma_cong_refl(0nat as int, m);
    lemma_cong_refl(a as int, m);
    lemma_mod_ops_cong(0nat, (0nat as int), a, (a as int), p);
    assert(((0nat as int) * (a as int)) == (0nat as int)) by (nonlinear_arith);
    lemma_cong_sym(0nat as int, (0nat as int), m);
    lemma_cong_trans(fp_mul(0nat, a) as int, ((0nat as int) * (a as int)), 0nat as int, m);
    lemma_cong_eq(fp_mul(0nat, a) as int, 0nat as int, m);
}

/// The square of a sum, less the two squares, is twice the product.
pub proof fn lemma_fp_square_of_sum(x: nat, b: nat)
    ensures
        fp_sub(fp_sub(fp_mul(fp_add(x, b), fp_add(x, b)), fp_mul(x, x)), fp_mul(b, b))
            == fp_add(fp_mul(x, b), fp_mul(x, b)),
{
    let p = fp_modulus();
    let m = p as int;
    lemma_cong_refl(x as int, m);
    lemma_cong_refl(b as int, m);
    lemma_mod_ops_cong(x, (x as int), b, (b as int), p);
    lemma_mod_ops_cong(
        fp_add(x, b),
        ((x as int) + (b as int)),
        fp_add(x, b),
        ((x as int) + (b as int)),
        p,
    );
    lemma_mod_ops_cong(x, (x as int), x, (x as int), p);
    lemma_mod_ops_cong(
        fp_mul(fp_add(x, b), fp_add(x, b)),
        (((x as int) + (b as int)) * ((x as int) + (b as int))),
        fp_mul(x, x),
        ((x as int) * (x as int)),
        p,
    );
    lemma_mod_ops_cong(b, (b as int), b, (b as int), p);
    lemma_mod_ops_cong(
        fp_sub(fp_mul(fp_add(x, b), fp_add(x, b)), fp_mul(x, x)),
        ((((x as int) + (b as int)) * ((x as int) + (b as int))) - ((x as int) * (x as int))),
        fp_mul(b, b),
        ((b as int) * (b as int)),
        p,
    );
    lemma_mod_ops_cong(x, (x as int), b, (b as int), p);
    lemma_mod_ops_cong(
        fp_mul(x, b),
        ((x as int) * (b as int)),
        fp_mul(x, b),
        ((x as int) * (b as int)),
        p,
    );
    assert(
        (
            ((((x as int) + (b as int)) * ((x as int) + (b as int))) - ((x as int) * (x as int)))
                - ((b as int) * (b as int))
        )
            == (((x as int) * (b as int)) + ((x as int) * (b as int)))
    ) by (nonlinear_arith);
    lemma_cong_sym(
        fp_add(fp_mul(x, b), fp_mul(x, b)) as int,
        (((x as int) * (b as int)) + ((x as int) * (b as int))),
        m,
    );
    lemma_cong_trans(
        fp_sub(fp_sub(fp_mul(fp_add(x, b), fp_add(x, b)), fp_mul(x, x)), fp_mul(b, b)) as int,
        (
            ((((x as int) + (b as int)) * ((x as int) + (b as int))) - ((x as int) * (x as int)))
                - ((b as int) * (b as int))
        ),
        fp_add(fp_mul(x, b), fp_mul(x, b)) as int,
        m,
    );
    lemma_cong_eq(
        fp_sub(fp_sub(fp_mul(fp_add(x, b), fp_add(x, b)), fp_mul(x, x)), fp_mul(b, b)) as int,
        fp_add(fp_mul(x, b), fp_mul(x, b)) as int,
        m,
    );
}

/// The product, under a name that proofs about long chains of operations
/// can use without unfolding it.
#[verifier::opaque]
pub open spec fn fp_times(a: nat, b: nat) -> nat {
    fp_mul(a, b)
}

/// The sum, under a name that proofs about long chains of operations can use
/// without unfolding it.
#[verifier::opaque]
pub open spec fn fp_plus(a: nat, b: nat) -> nat {
    fp_add(a, b)
}

/// The difference, under a name that proofs about long chains of operations
/// can use without unfolding it.
#[verifier::opaque]
pub open spec fn fp_minus(a: nat, b: nat) -> nat {
    fp_sub(a, b)
}

/// The power `l^k`, by repeated multiplication.
pub open spec fn fp_pw(l: nat, k: nat) -> nat
    decreases k,
{
    if k == 0 {
        1nat
    } else {
        fp_times(fp_pw(l, (k - 1) as nat), l)
    }
}

/// Whether `a2` is `a` times `l^k`.
pub open spec fn fp_scaled(a2: nat, a: nat, l: nat, k: nat) -> bool {
    a2 == fp_times(a, fp_pw(l, k))
}

/// Sums, differences and products are fully reduced.
pub proof fn lemma_fp_closed(a: nat, b: nat)
    ensures
        fp_add(a, b) < fp_modulus(),
        fp_sub(a, b) < fp_modulus(),
        fp_mul(a, b) < fp_modulus(),
{
    let m = fp_modulus() as int;
    lemma_mod_bound((a + b) as int, m);
    lemma_mod_bound(a as int - b as int, m);
    lemma_mod_bound((a * b) as int, m);
}

/// The same, of all operands at once.
pub proof fn lemma_fp_closed_all()
    ensures
        forall|a: nat, b: nat| #[trigger] fp_add(a, b) < fp_modulus(),
        forall|a: nat, b: nat| #[trigger] fp_sub(a, b) < fp_modulus(),
        forall|a: nat, b: nat| #[trigger] fp_mul(a, b) < fp_modulus(),
{
    assert forall|a: nat, b: nat| #[trigger] fp_add(a, b) < fp_modulus() by {
        lemma_fp_closed(a, b);
    }
    assert forall|a: nat, b: nat| #[trigger] fp_sub(a, b) < fp_modulus() by {
        lemma_fp_closed(a, b);
    }
    assert forall|a: nat, b: nat| #[trigger] fp_mul(a, b) < fp_modulus() by {
        lemma_fp_closed(a, b);
    }
}

/// Powers are fully reduced.
pub proof fn lemma_fp_pw_closed(l: nat, k: nat)
    ensures
        fp_pw(l, k) < fp_modulus(),
{
    reveal(fp_times);
    reveal(fp_plus);
    reveal(fp_minus);
    if k > 0 {
        lemma_fp_closed(fp_pw(l, (k - 1) as nat), l);
    }
}

/// In a product of two products the inner factors can change places.
pub proof fn lemma_fp_interchange(a: nat, s: nat, b: nat, t: nat)
    ensures
        fp_times(fp_times(a, s), fp_times(b, t)) == fp_times(fp_times(a, b), fp_times(s, t)),
{
    reveal(fp_times);
    reveal(fp_plus);
    reveal(fp_minus);
    lemma_fp_mul_assoc(a, s, fp_times(b, t));
    lemma_fp_mul_assoc(s, b, t);
    lemma_fp_mul_comm(s, b);
    lemma_fp_mul_assoc(b, s, t);
    lemma_fp_mul_assoc(a, b, fp_times(s, t));
}

/// The product of two powers of `l` is the power by the sum of the exponents.
pub proof fn lemma_fp_pw_add(l: nat, i: nat, j: nat)
    ensures
        fp_times(fp_pw(l, i), fp_pw(l, j)) == fp_pw(l, i + j),
    decreases j,
{
    reveal(fp_times);
    reveal(fp_plus);
    reveal(fp_minus);
    if j == 0 {
        lemma_fp_pw_closed(l, i);
        lemma_fp_mul_one(fp_pw(l, i));
    } else {
        let j1 = (j - 1) as nat;
        lemma_fp_pw_add(l, i, j1);
        lemma_fp_mul_assoc(fp_pw(l, i), fp_pw(l, j1), l);
        assert(fp_pw(l, i + j) == fp_times(fp_pw(l, ((i + j) - 1) as nat), l));
        assert(((i + j) - 1) as nat == i + j1);
    }
}

/// Where `li` is the inverse of `l`, the power of `li` is the inverse of the
/// power of `l`.
pub proof fn lemma_fp_pw_inverse(l: nat, li: nat, k: nat)
    requires
        fp_times(l, li) == 1nat,
    ensures
        fp_times(fp_pw(l, k), fp_pw(li, k)) == 1nat,
    decreases k,
{
    reveal(fp_times);
    reveal(fp_plus);
    reveal(fp_minus);
    lemma_fp_mul_one(1nat);
    if k > 0 {
        let k1 = (k - 1) as nat;
        lemma_fp_pw_inverse(l, li, k1);
        lemma_fp_interchange(fp_pw(l, k1), l, fp_pw(li, k1), li);
    }
}

/// The product of a multiple by `l^i` and a multiple by `l^j` is the multiple
/// of the product by `l^(i + j)`.
pub proof fn lemma_fp_scaled_mul(a2: nat, a: nat, i: nat, b2: nat, b: nat, j: nat, l: nat)
    requires
        fp_scaled(a2, a, l, i),
        fp_scaled(b2, b, l, j),
    ensures
        fp_scaled(fp_times(a2, b2), fp_times(a, b), l, i + j),
{
    reveal(fp_times);
    reveal(fp_plus);
    reveal(fp_minus);
    lemma_fp_interchange(a, fp_pw(l, i), b, fp_pw(l, j));
    lemma_fp_pw_add(l, i, j);
}

/// The sum and the difference of two multiples by `l^i` are the multiples of
/// the sum and the difference.
pub proof fn lemma_fp_scaled_add(a2: nat, a: nat, b2: nat, b: nat, i: nat, l: nat)
    requires
        fp_scaled(a2, a, l, i),
        fp_scaled(b2, b, l, i),
    ensures
        fp_scaled(fp_plus(a2, b2), fp_plus(a, b), l, i),
        fp_scaled(fp_minus(a2, b2), fp_minus(a, b), l, i),
{
    reveal(fp_times);
    reveal(fp_plus);
    reveal(fp_minus);
    lemma_fp_distrib(a, b, fp_pw(l, i));
}

/// Where `l` has an inverse, a multiple by a power of `l` is zero only where
/// the value is.
pub proof fn lemma_fp_scaled_zero(a2: nat, a: nat, l: nat, li: nat, k: nat)
    requires
        a < fp_modulus(),
        fp_times(l, li) == 1nat,
        fp_scaled(a2, a, l, k),
    ensures
        (a2 == 0nat) == (a == 0nat),
{
    reveal(fp_times);
    reveal(fp_plus);
    reveal(fp_minus);
    let s = fp_pw(l, k);
    let t = fp_pw(li, k);
    lemma_fp_mul_zero(s);
    if a2 == 0nat {
        lemma_fp_pw_inverse(l, li, k);
        lemma_fp_mul_one(a);
        lemma_fp_mul_assoc(a, s, t);
        lemma_fp_mul_zero(t);
    }
}

/// The named operations give fully reduced values.
pub proof fn lemma_fp_steps_closed(a: nat, b: nat)
    ensures
        fp_plus(a, b) < fp_modulus(),
        fp_minus(a, b) < fp_modulus(),
        fp_times(a, b) < fp_modulus(),
{
    reveal(fp_times);
    reveal(fp_plus);
    reveal(fp_minus);
    lemma_fp_closed(a, b);
}

/// The product of a fully reduced value with one is the value.
pub proof fn lemma_fp_steps_one(a: nat)
    requires
        a < fp_modulus(),
    ensures
        fp_times(a, 1nat) == a,
{
    reveal(fp_times);
    lemma_fp_mul_one(a);
}

/// The square of a sum, less the two squares, is twice the product.
pub proof fn lemma_fp_steps_square_of_sum(x: nat, b: nat)
    ensures
        fp_minus(fp_minus(fp_times(fp_plus(x, b), fp_plus(x, b)), fp_times(x, x)), fp_times(b, b))
            == fp_plus(fp_times(x, b), fp_times(x, b)),
{
    reveal(fp_times);
    reveal(fp_plus);
    reveal(fp_minus);
    lemma_fp_square_of_sum(x, b);
}

/// Where the order is prime, the product of a value that is not zero and its
/// inverse is one.
pub proof fn lemma_fp_inverse(z: nat)
    requires
        is_prime(fp_modulus()),
        z < fp_modulus(),
        z != 0,
    ensures
        fp_mul(z, fp_inv(z)) == 1nat,
        fp_inv(z) < fp_modulus(),
{
    lemma_small_mod(z, fp_modulus());
    lemma_prime_has_inverse(z, fp_modulus());
    lemma_mod_inv_is_inverse(z, fp_modulus());
}

} // verus!
