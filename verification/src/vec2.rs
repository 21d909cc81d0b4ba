//! Two-dimensional vectors of fixed-point coordinates.

use crate::fixed::FX_ONE;
use crate::fixed::absi;
use crate::fixed::fx_add;
use crate::fixed::fx_add_s;
use crate::fixed::fx_mul;
use crate::fixed::fx_mul_s;
use crate::fixed::fx_sqrt;
use crate::fixed::fx_sqrt_s;
use crate::fixed::fx_sub;
use crate::fixed::fx_sub_s;
use crate::fixed::lemma_isqrt;
use crate::fixed::q_tz;
use vstd::prelude::*;

verus! {

/// Ghost model of a vector: both coordinates as mathematical integers.
pub ghost struct V2i {
    pub x: int,
    pub y: int,
}

/// A two-dimensional vector of fixed-point coordinates.
#[derive(Clone, Copy, PartialEq, Eq, Structural, Debug)]
pub struct V2 {
    pub x: i64,
    pub y: i64,
}

impl View for V2 {
    type V = V2i;

    open spec fn view(&self) -> V2i {
        V2i { x: self.x as int, y: self.y as int }
    }
}

/// Componentwise saturating sum.
pub open spec fn v2_add_s(a: V2i, b: V2i) -> V2i {
    V2i { x: fx_add_s(a.x, b.x), y: fx_add_s(a.y, b.y) }
}

/// Componentwise saturating difference.
pub open spec fn v2_sub_s(a: V2i, b: V2i) -> V2i {
    V2i { x: fx_sub_s(a.x, b.x), y: fx_sub_s(a.y, b.y) }
}

/// Scaling by a fixed-point factor.
pub open spec fn v2_scale_s(a: V2i, k: int) -> V2i {
    V2i { x: fx_mul_s(a.x, k), y: fx_mul_s(a.y, k) }
}

/// Squared Euclidean length (saturating).
pub open spec fn mag_sq_s(a: V2i) -> int {
    fx_add_s(fx_mul_s(a.x, a.x), fx_mul_s(a.y, a.y))
}

/// Euclidean length.
pub open spec fn v2_mag_s(a: V2i) -> int {
    fx_sqrt_s(mag_sq_s(a))
}

/// A fixed-point square is never negative.
pub proof fn lemma_sq_nonneg(a: int)
    ensures
        0 <= fx_mul_s(a, a) <= i64::MAX,
{
    assert(a * a >= 0) by (nonlinear_arith);
    assert(q_tz(a * a, FX_ONE as int) == absi(a * a) / absi(FX_ONE as int));
    vstd::arithmetic::div_mod::lemma_div_is_ordered(0, absi(a * a), absi(FX_ONE as int));
}

/// The squared length is never negative.
pub proof fn lemma_mag_sq_nonneg(a: V2i)
    ensures
        0 <= mag_sq_s(a) <= i64::MAX,
{
    lemma_sq_nonneg(a.x);
    lemma_sq_nonneg(a.y);
}

/// The length is never negative.
pub proof fn lemma_mag_nonneg(a: V2i)
    ensures
        0 <= v2_mag_s(a),
{
    lemma_mag_sq_nonneg(a);
    lemma_isqrt(mag_sq_s(a) * FX_ONE);
}

impl V2 {
    /// Vector from raw fixed-point coordinates.
    pub fn new(x: i64, y: i64) -> (r: V2)
        ensures
            r@ == (V2i { x: x as int, y: y as int }),
    {
        V2 { x, y }
    }
}

/// Saturating vector sum.
pub fn v2_add(a: V2, b: V2) -> (r: V2)
    ensures
        r@ == v2_add_s(a@, b@),
{
    V2 { x: fx_add(a.x, b.x), y: fx_add(a.y, b.y) }
}

/// Saturating vector difference.
pub fn v2_sub(a: V2, b: V2) -> (r: V2)
    ensures
        r@ == v2_sub_s(a@, b@),
{
    V2 { x: fx_sub(a.x, b.x), y: fx_sub(a.y, b.y) }
}

/// Vector scaled by a fixed-point factor.
pub fn v2_scale(a: V2, k: i64) -> (r: V2)
    ensures
        r@ == v2_scale_s(a@, k as int),
{
    V2 { x: fx_mul(a.x, k), y: fx_mul(a.y, k) }
}

/// Euclidean length of a vector.
pub fn v2_mag(a: V2) -> (r: i64)
    ensures
        r as int == v2_mag_s(a@),
        0 <= r,
{
    let mx = fx_mul(a.x, a.x);
    let my = fx_mul(a.y, a.y);
    proof {
        lemma_sq_nonneg(a@.x);
        lemma_sq_nonneg(a@.y);
    }
    let sq = fx_add(mx, my);
    fx_sqrt(sq)
}

} // verus!
