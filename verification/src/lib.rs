//! Pairing-friendly elliptic-curve arithmetic over BLS12-381: the scalar and
//! base fields, the quadratic extension, the groups G1 and G2, the target
//! group GT and the bilinear pairing between them.
//!
//! The layers, from the bottom:
//!
//! - [`limbs`], [`montgomery`], [`modular`], [`inverse`]: multi-limb numbers
//!   and arithmetic modulo an odd modulus; [`modmath`] holds the mathematics
//!   that their contracts are stated in, and [`fermat`] what follows where the
//!   modulus is prime.
//! - [`bytes`], [`text`]: numbers as little-endian bytes and as digit strings.
//! - [`fr`], [`fp`], [`fp2`]: the scalar field, the base field and its
//!   quadratic extension.
//! - [`fp_ring`], [`fp2_ring`]: the ring laws of the two fields under the
//!   groups.
//! - [`g1`], [`g2`]: the two groups of points, in Jacobian coordinates;
//!   [`g1_forms`], [`g2_forms`]: what the coordinates of one point have in
//!   common, and the round trips of points through bytes and text.
//! - [`fp6`], [`gt`]: the tower under the target group, and the group itself.
//! - [`pairing`]: the Miller loop, the final exponentiation and the pairing.
//! - [`curve`]: the named curves and the sizes and orders of the one served.
//! - [`hash`], [`random`]: the hash function and the random source that the
//!   engine consumes.
//!
//! Every element type has a view, the mathematical value it stands for, and a
//! predicate `wf` that says that it is fully reduced. Functions take fully
//! reduced operands and return fully reduced results; a setter that fails
//! leaves its target as it was.

pub mod bytes;
pub mod curve;
pub mod fermat;
pub mod fp;
pub mod fp2;
pub mod fp2_ring;
pub mod fp6;
pub mod fp_ring;
pub mod fr;
pub mod g1;
pub mod g1_forms;
pub mod g2;
pub mod g2_forms;
pub mod gt;
pub mod hash;
pub mod inverse;
pub mod limbs;
pub mod modmath;
pub mod modular;
pub mod montgomery;
pub mod pairing;
pub mod random;
pub mod text;

pub use crate::curve::{
    get_curve_order, get_field_order, get_fp_serialized_size, get_fr_serialized_size,
    get_g1_serialized_size, get_g2_serialized_size, get_gt_serialized_size, get_version, init,
    CurveType,
};
pub use crate::fp::Fp;
pub use crate::fp2::Fp2;
pub use crate::fr::Fr;
pub use crate::g1::G1;
pub use crate::g2::G2;
pub use crate::gt::GT;
pub use crate::pairing::{final_exp, miller_loop, pairing};
