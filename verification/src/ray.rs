//! Fixed-point geometry for the raymarch: positions and directions in
//! thousandths of a block, stepped in exact integer arithmetic.

use vstd::prelude::*;

verus! {

/// Largest position component (in thousandths) the raymarch accepts.
pub const MAX_RAY_POS: i64 = 1_000_000_000_000;

/// Largest direction component (in thousandths) the raymarch accepts.
pub const MAX_RAY_DIR: i64 = 40_000_000_000;

/// A 3-vector in fixed-point world units: each component holds
/// thousandths of a block.
#[derive(Clone, Copy, PartialEq, Eq, Structural, Debug)]
pub struct Vec3Milli {
    pub x: i64,
    pub y: i64,
    pub z: i64,
}

/// Whether a vector is a ray origin the raymarch accepts.
pub open spec fn pos_in_range(v: Vec3Milli) -> bool {
    &&& -MAX_RAY_POS <= v.x <= MAX_RAY_POS
    &&& -MAX_RAY_POS <= v.y <= MAX_RAY_POS
    &&& -MAX_RAY_POS <= v.z <= MAX_RAY_POS
}

/// Whether a vector is a ray direction the raymarch accepts.
pub open spec fn dir_in_range(v: Vec3Milli) -> bool {
    &&& -MAX_RAY_DIR <= v.x <= MAX_RAY_DIR
    &&& -MAX_RAY_DIR <= v.y <= MAX_RAY_DIR
    &&& -MAX_RAY_DIR <= v.z <= MAX_RAY_DIR
}

/// Round a ray coordinate given as a numerator over 10000 to the
/// nearest integer, ties away from zero.
pub open spec fn round_10k(n: int) -> int {
    if n >= 0 {
        (n + 5000) / 10000
    } else {
        -((-n + 5000) / 10000)
    }
}

/// The block cell sampled at step `k` of a ray: the origin advanced by
/// `k` tenths of the direction, each axis rounded to the nearest
/// integer. Numerators are thousandths times ten.
pub open spec fn ray_cell(p: Vec3Milli, d: Vec3Milli, k: int) -> (int, int, int) {
    (
        round_10k(10 * p.x + k * d.x),
        round_10k(10 * p.y + k * d.y),
        round_10k(10 * p.z + k * d.z),
    )
}

/// Round one step numerator to its block coordinate.
pub fn round_step(n: i64) -> (r: i64)
    requires
        -20_000_000_000_000 <= n <= 20_000_000_000_000,
    ensures
        r as int == round_10k(n as int),
        -2_000_000_001 <= r <= 2_000_000_001,
{
    if n >= 0 {
        let q = ((n as u64) + 5000) / 10000;
        proof {
            vstd::arithmetic::div_mod::lemma_div_is_ordered(
                n as int + 5000,
                20_000_000_005_000,
                10000,
            );
        }
        q as i64
    } else {
        let a = ((-n) as u64 + 5000) / 10000;
        proof {
            vstd::arithmetic::div_mod::lemma_div_is_ordered(
                -(n as int) + 5000,
                20_000_000_005_000,
                10000,
            );
        }
        -(a as i64)
    }
}

} // verus!
