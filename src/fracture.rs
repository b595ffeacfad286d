//! Deciding whether an impulse breaks the joints of the block it hits.

use vstd::prelude::*;

verus! {

/// Impulse magnitude at and above which a hit block loses its joints.
pub const BREAKING_IMPULSE_THRESHOLD: u64 = 5000;

/// An impulse that a block received, in whole impulse units.
#[derive(Clone, Copy, Debug, PartialEq, Eq, Structural)]
pub struct ShockwaveHit {
    pub impulse_x: i64,
    pub impulse_y: i64,
}

/// Squared Euclidean norm of the impulse.
pub open spec fn magnitude_squared(hit: ShockwaveHit) -> int {
    hit.impulse_x * hit.impulse_x + hit.impulse_y * hit.impulse_y
}

/// An impulse breaks when its magnitude is at least `threshold`.
pub open spec fn breaks(hit: ShockwaveHit, threshold: u64) -> bool {
    magnitude_squared(hit) >= threshold * threshold
}

/// The break condition at and around the threshold: an impulse whose
/// magnitude `m` equals the threshold breaks, one below it never breaks and
/// one above it always breaks.
pub proof fn threshold_boundary(hit: ShockwaveHit, threshold: u64, m: nat)
    requires
        magnitude_squared(hit) == m * m,
    ensures
        m == threshold ==> breaks(hit, threshold),
        m < threshold ==> !breaks(hit, threshold),
        m > threshold ==> breaks(hit, threshold),
{
    let t = threshold as int;
    if m < t {
        assert(m * m < t * t) by (nonlinear_arith)
            requires
                0 <= m < t,
        ;
    }
    if m > t {
        assert(m * m > t * t) by (nonlinear_arith)
            requires
                0 <= t < m,
        ;
    }
}

fn square_of(v: i64) -> (r: u128)
    ensures
        r == v * v,
        r <= 0x4000_0000_0000_0000_0000_0000_0000_0000u128,
{
    let a: u128 = if v < 0 {
        (-(v as i128)) as u128
    } else {
        v as u128
    };
    assert(a * a <= 0x8000_0000_0000_0000u128 * 0x8000_0000_0000_0000u128) by (nonlinear_arith)
        requires
            a <= 0x8000_0000_0000_0000u128,
    ;
    assert(a * a == v * v) by (nonlinear_arith)
        requires
            a == v || a == -v,
    ;
    a * a
}

/// Whether `hit` is strong enough to break the joints of the block it hit:
/// its magnitude compared with `threshold`, both squared so that no root is
/// taken.
pub fn is_breaking_impulse(hit: &ShockwaveHit, threshold: u64) -> (r: bool)
    ensures
        r == breaks(*hit, threshold),
{
    let m = square_of(hit.impulse_x) + square_of(hit.impulse_y);
    let t = threshold as u128;
    assert(t * t <= 0xffff_ffff_ffff_ffffu128 * 0xffff_ffff_ffff_ffffu128) by (nonlinear_arith)
        requires
            t <= 0xffff_ffff_ffff_ffffu128,
    ;
    m >= t * t
}

} // verus!
