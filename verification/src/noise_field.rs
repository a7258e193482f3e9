//! The procedural noise field used to seed new chunks: deterministic
//! integer-valued lattice noise derived from a seed, bilinearly
//! interpolated so terrain is contiguous across chunk boundaries.

use vstd::prelude::*;

verus! {

/// Modulus of the mixing arithmetic.
pub open spec fn noise_modulus() -> int {
    0x1_0000_0000
}

/// One lattice corner's sample in [0, 1000]: a seeded multiplicative
/// hash of the lattice coordinate.
pub open spec fn corner_level_spec(seed: u32, gx: int, gz: int) -> int {
    let m = noise_modulus();
    let ux = gx + 0x1_0000_0000_0000;
    let uz = gz + 0x1_0000_0000_0000;
    let a = (((seed + 0x12345) % m) * 0x9E3779B1) % m;
    let b = (((a + ux) % m) * 0x85EBCA6B) % m;
    let c = (((b + uz) % m) * 0xC2B2AE35) % m;
    let d = (c * 0x27D4EB2F) % m;
    d % 1001
}

/// The field's level at a world coordinate, in [-1000, 1000]: the
/// bilinear blend of the four surrounding lattice corners, 16 blocks
/// apart.
pub open spec fn noise_level_spec(seed: u32, wx: int, wz: int) -> int {
    let gx = wx / 16;
    let gz = wz / 16;
    let fx = wx % 16;
    let fz = wz % 16;
    let h00 = corner_level_spec(seed, gx, gz);
    let h10 = corner_level_spec(seed, gx + 1, gz);
    let h01 = corner_level_spec(seed, gx, gz + 1);
    let h11 = corner_level_spec(seed, gx + 1, gz + 1);
    let blended = (h00 * (16 - fx) * (16 - fz) + h10 * fx * (16 - fz) + h01 * (16 - fx) * fz
        + h11 * fx * fz) / 256;
    blended * 2 - 1000
}

/// A shared, read-only procedural noise field. All chunks of one world
/// sample the same field, so terrain is deterministic and contiguous
/// across chunk boundaries.
#[derive(Clone)]
pub struct NoiseField {
    seed: u32,
}

impl NoiseField {
    /// The seed the field was built from.
    pub closed spec fn seed_spec(self) -> u32 {
        self.seed
    }

    /// A field from a seed.
    pub fn new(seed: u32) -> (r: NoiseField)
        ensures
            r.seed_spec() == seed,
    {
        NoiseField { seed }
    }

    /// Sample the field at a world coordinate.
    #[verifier::rlimit(30)]
    pub fn level(&self, wx: i64, wz: i64) -> (v: i32)
        requires
            -0x4000_0000_0000 <= wx <= 0x4000_0000_0000,
            -0x4000_0000_0000 <= wz <= 0x4000_0000_0000,
        ensures
            v as int == noise_level_spec(self.seed_spec(), wx as int, wz as int),
            -1000 <= v <= 1000,
    {
        let gx = floor_div_16(wx);
        let gz = floor_div_16(wz);
        let fx = (wx - gx * 16) as u64;
        let fz = (wz - gz * 16) as u64;
        let h00 = corner_level(self.seed, gx, gz);
        let h10 = corner_level(self.seed, gx + 1, gz);
        let h01 = corner_level(self.seed, gx, gz + 1);
        let h11 = corner_level(self.seed, gx + 1, gz + 1);
        let blended = blend(h00, h10, h01, h11, fx, fz);
        (blended as i32) * 2 - 1000
    }
}

/// The blend of four samples in [0, 1000] with bilinear weights stays
/// in [0, 1000].
proof fn lemma_blend_bounded(h00: int, h10: int, h01: int, h11: int, fx: int, fz: int)
    requires
        0 <= h00 <= 1000,
        0 <= h10 <= 1000,
        0 <= h01 <= 1000,
        0 <= h11 <= 1000,
        0 <= fx < 16,
        0 <= fz < 16,
    ensures
        0 <= h00 * (16 - fx) * (16 - fz) + h10 * fx * (16 - fz) + h01 * (16 - fx) * fz + h11 * fx
            * fz <= 256000,
{
    assert(0 <= h00 * (16 - fx) * (16 - fz) + h10 * fx * (16 - fz) + h01 * (16 - fx) * fz + h11
        * fx * fz <= 256000) by (nonlinear_arith)
        requires
            0 <= h00 <= 1000,
            0 <= h10 <= 1000,
            0 <= h01 <= 1000,
            0 <= h11 <= 1000,
            0 <= fx < 16,
            0 <= fz < 16,
    ;
}

/// Bilinear blend of four corner samples with fractional offsets out
/// of 16 on each axis.
fn blend(h00: u64, h10: u64, h01: u64, h11: u64, fx: u64, fz: u64) -> (b: u64)
    requires
        h00 <= 1000,
        h10 <= 1000,
        h01 <= 1000,
        h11 <= 1000,
        fx < 16,
        fz < 16,
    ensures
        b == (h00 * (16 - fx) * (16 - fz) + h10 * fx * (16 - fz) + h01 * (16 - fx) * fz + h11 * fx
            * fz) / 256,
        b <= 1000,
{
    let ex = 16 - fx;
    let ez = 16 - fz;
    proof {
        assert(h00 * ex <= 16000 && h10 * fx <= 16000 && h01 * ex <= 16000 && h11 * fx <= 16000
            && h00 * ex * ez <= 256000 && h10 * fx * ez <= 256000 && h01 * ex * fz <= 256000
            && h11 * fx * fz <= 256000) by (nonlinear_arith)
            requires
                h00 <= 1000,
                h10 <= 1000,
                h01 <= 1000,
                h11 <= 1000,
                fx < 16,
                fz < 16,
                ex == 16 - fx,
                ez == 16 - fz,
        ;
        lemma_blend_bounded(h00 as int, h10 as int, h01 as int, h11 as int, fx as int, fz as int);
    }
    let sum = h00 * ex * ez + h10 * fx * ez + h01 * ex * fz + h11 * fx * fz;
    sum / 256
}

/// Floor division by 16, exact for negative values.
pub fn floor_div_16(w: i64) -> (q: i64)
    requires
        -0x4000_0000_0000 <= w <= 0x4000_0000_0000,
    ensures
        q == w as int / 16,
        w as int == q * 16 + (w as int % 16),
        0 <= w as int % 16 < 16,
{
    let q: i64 = if w >= 0 {
        ((w as u64) / 16) as i64
    } else {
        let a = (-w) as u64;
        -(((a + 15) / 16) as i64)
    };
    proof {
        let wi = w as int;
        let l = wi - q * 16;
        assert(0 <= l < 16);
        assert(wi == q * 16 + l);
        vstd::arithmetic::div_mod::lemma_fundamental_div_mod_converse_div(wi, 16, q as int, l);
        vstd::arithmetic::div_mod::lemma_fundamental_div_mod_converse_mod(wi, 16, q as int, l);
    }
    q
}

/// One lattice corner's sample in [0, 1000].
fn corner_level(seed: u32, gx: i64, gz: i64) -> (r: u64)
    requires
        -0x1_0000_0000_0000 <= gx <= 0x1_0000_0000_0000,
        -0x1_0000_0000_0000 <= gz <= 0x1_0000_0000_0000,
    ensures
        r as int == corner_level_spec(seed, gx as int, gz as int),
        r <= 1000,
{
    let m: u64 = 0x1_0000_0000;
    let ux = (gx + 0x1_0000_0000_0000) as u64;
    let uz = (gz + 0x1_0000_0000_0000) as u64;
    let a = (((seed as u64) + 0x12345) % m) * 0x9E3779B1 % m;
    let b = ((a + ux) % m) * 0x85EBCA6B % m;
    let c = ((b + uz) % m) * 0xC2B2AE35 % m;
    let d = (c * 0x27D4EB2F) % m;
    d % 1001
}

} // verus!
