//! Mass of a block, derived from its area.

use vstd::prelude::*;
use crate::grid::BlockSize;

verus! {

/// Mass of a block of the reference area.
pub const BASE_MASS: u64 = 100;

/// Area of a one-cell block, in square world units.
pub const REFERENCE_AREA: u64 = 256;

/// Masses are given in thousandths.
pub const MASS_SCALE: u64 = 1000;

/// `m` is `MASS_SCALE * BASE_MASS * sqrt(area / REFERENCE_AREA)` rounded
/// down, for a block of footprint `size`.
pub open spec fn is_mass_milli(m: int, size: BlockSize) -> bool {
    let target = (MASS_SCALE * BASE_MASS) * (MASS_SCALE * BASE_MASS) * (size.width * size.height);
    &&& 0 <= m
    &&& m * m * REFERENCE_AREA <= target
    &&& target < (m + 1) * (m + 1) * REFERENCE_AREA
}

/// Mass of a block, in thousandths of a mass unit: the base mass scaled by
/// the square root of the block's area over the reference area.
pub fn block_mass_milli(size: BlockSize) -> (m: u64)
    ensures
        is_mass_milli(m as int, size),
{
    let scaled = (MASS_SCALE * BASE_MASS) as u128;
    let w = size.width as u128;
    let h = size.height as u128;
    assert(w * h <= 0xffff_ffff * 0xffff_ffffu128) by (nonlinear_arith)
        requires
            w <= 0xffff_ffff,
            h <= 0xffff_ffff,
    ;
    let area = w * h;
    assert(10_000_000_000 * area <= 10_000_000_000 * (0xffff_ffff * 0xffff_ffffu128)) by (nonlinear_arith)
        requires
            area <= 0xffff_ffff * 0xffff_ffffu128,
    ;
    let target = scaled * scaled * area;
    let mut lo: u64 = 0;
    let mut hi: u64 = 0x4000_0000_0000;
    assert(target < (hi as int) * (hi as int) * 256) by (nonlinear_arith)
        requires
            target == 10_000_000_000 * area,
            area <= 0xffff_ffff * 0xffff_ffffu128,
            hi == 0x4000_0000_0000,
    ;
    while lo + 1 < hi
        invariant
            lo < hi <= 0x4000_0000_0000,
            target == (MASS_SCALE * BASE_MASS) * (MASS_SCALE * BASE_MASS) * (size.width
                * size.height),
            (lo as int) * (lo as int) * REFERENCE_AREA <= target,
            target < (hi as int) * (hi as int) * REFERENCE_AREA,
        decreases hi - lo,
    {
        let mid = lo + (hi - lo) / 2;
        assert((mid as int) * (mid as int) * 256 <= 0x4000_0000_0000 * 0x4000_0000_0000 * 256)
            by (nonlinear_arith)
            requires
                mid < 0x4000_0000_0000,
        ;
        let sq = (mid as u128) * (mid as u128) * (REFERENCE_AREA as u128);
        if sq <= target {
            lo = mid;
        } else {
            hi = mid;
        }
    }
    lo
}

} // verus!
