//! The curves that the engine can be asked for, and the parameters of the one
//! that it serves: BLS12-381.

use crate::fp::{fp_modulus, Fp};
use crate::fr::{fr_modulus, Fr};
use crate::text::digits;
use vstd::prelude::*;

verus! {

/// A named pairing-friendly curve.
#[allow(non_camel_case_types)]
#[derive(Clone, Copy, Debug, PartialEq, Eq, Structural)]
pub enum CurveType {
    BN254,
    BN381,
    SNARK,
    BLS12_381,
    BLS12_377,
    BN_P256,
}

impl CurveType {
    /// The curve's registered number.
    pub open spec fn spec_id(&self) -> int {
        match self {
            CurveType::BN254 => 0,
            CurveType::BN381 => 1,
            CurveType::SNARK => 4,
            CurveType::BLS12_381 => 5,
            CurveType::BLS12_377 => 8,
            CurveType::BN_P256 => 9,
        }
    }

    /// The curve's registered number.
    pub fn id(&self) -> (r: i32)
        ensures
            r == self.spec_id(),
    {
        match self {
            CurveType::BN254 => 0,
            CurveType::BN381 => 1,
            CurveType::SNARK => 4,
            CurveType::BLS12_381 => 5,
            CurveType::BLS12_377 => 8,
            CurveType::BN_P256 => 9,
        }
    }
}

/// The version of the engine: major in the high byte, minor in the low byte.
pub open spec fn engine_version() -> u32 {
    0x0100
}

/// The version of the engine.
pub fn get_version() -> (r: u32)
    ensures
        r == engine_version(),
{
    0x0100
}

/// Selects the curve. The engine holds the parameters of BLS12-381 alone, as
/// constants, so that the call succeeds for that curve and fails for every
/// other; it changes nothing, and may be repeated.
pub fn init(curve: CurveType) -> (ok: bool)
    ensures
        ok <==> curve == CurveType::BLS12_381,
{
    match curve {
        CurveType::BLS12_381 => true,
        _ => false,
    }
}

/// The number of bytes of a serialized scalar.
pub fn get_fr_serialized_size() -> (r: u32)
    ensures
        r == 32,
{
    32
}

/// The number of bytes of a serialized base-field element.
pub fn get_fp_serialized_size() -> (r: u32)
    ensures
        r == 48,
{
    48
}

/// The number of bytes of a serialized point of G1.
pub fn get_g1_serialized_size() -> (r: u32)
    ensures
        r == 48,
{
    get_fp_serialized_size()
}

/// The number of bytes of a serialized point of G2.
pub fn get_g2_serialized_size() -> (r: u32)
    ensures
        r == 96,
{
    get_fp_serialized_size() * 2
}

/// The number of bytes of a serialized element of GT.
pub fn get_gt_serialized_size() -> (r: u32)
    ensures
        r == 576,
{
    get_fp_serialized_size() * 12
}

/// The order of the base field, in decimal.
pub fn get_field_order() -> (s: String)
    ensures
        s@ == digits(fp_modulus(), 10),
{
    Fp::get_order()
}

/// The order of the groups, which is the order of the scalar field, in
/// decimal.
pub fn get_curve_order() -> (s: String)
    ensures
        s@ == digits(fr_modulus(), 10),
{
    Fr::get_order()
}

} // verus!
