//! The Metropolis acceptance rule, with its temperature dependence held as
//! integer thresholds against a uniform 32-bit draw.

use vstd::prelude::*;

verus! {

/// Acceptance thresholds for the two uphill energy changes that a single
/// flip on a square lattice can cause (`+4` and `+8`).
///
/// A flip that raises the energy by `4` is accepted when a uniform draw from
/// `[0, 2^32)` is below `gain4`, so `gain4 / 2^32` is the probability
/// `exp(-4 beta)`; likewise `gain8` for `exp(-8 beta)`. A threshold of
/// `2^32` or more accepts every draw (infinite temperature, `beta = 0`);
/// a threshold of `0` accepts none (zero temperature, infinite `beta`).
#[derive(Clone, Copy, Debug, PartialEq, Eq)]
pub struct Acceptance {
    pub gain4: u64,
    pub gain8: u64,
}

/// The policy for non-positive energy changes: a flip with `delta <= 0`,
/// the tie `delta == 0` included, is accepted without consulting a draw.
pub open spec fn downhill(delta: int) -> bool {
    delta <= 0
}

/// The threshold that an uphill change `delta` is tested against.
pub open spec fn threshold(acc: Acceptance, delta: int) -> int {
    if delta <= 4 {
        acc.gain4 as int
    } else {
        acc.gain8 as int
    }
}

/// Whether a proposed flip with energy change `delta` is accepted, given the
/// uniform draw `draw`.
pub open spec fn accepted(acc: Acceptance, delta: int, draw: int) -> bool {
    downhill(delta) || draw < threshold(acc, delta)
}

impl Acceptance {
    /// Thresholds of infinite temperature: every proposed flip is accepted.
    pub fn always() -> (r: Acceptance)
        ensures
            r.gain4 == 0x1_0000_0000,
            r.gain8 == 0x1_0000_0000,
    {
        Acceptance { gain4: 0x1_0000_0000, gain8: 0x1_0000_0000 }
    }

    /// Thresholds of zero temperature: no uphill flip is accepted.
    pub fn never() -> (r: Acceptance)
        ensures
            r.gain4 == 0,
            r.gain8 == 0,
    {
        Acceptance { gain4: 0, gain8: 0 }
    }

    /// The Metropolis decision for energy change `delta` and draw `draw`.
    pub fn accepts(&self, delta: i32, draw: u32) -> (r: bool)
        ensures
            r == accepted(*self, delta as int, draw as int),
    {
        if delta <= 0 {
            true
        } else if delta <= 4 {
            (draw as u64) < self.gain4
        } else {
            (draw as u64) < self.gain8
        }
    }
}

} // verus!
