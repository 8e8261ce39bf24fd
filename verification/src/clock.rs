//! The world clock: the world integrates at 8 kHz and control is decimated
//! to 1 kHz, an exact whole number of world ticks per control tick.

use vstd::prelude::*;

verus! {

/// World integration rate, Hz.
pub const WORLD_HZ: u32 = 8_000;

/// Control rate, Hz.
pub const CONTROL_HZ: u32 = 1_000;

/// World ticks per control tick.
pub const DECIMATION: u32 = WORLD_HZ / CONTROL_HZ;

/// The control rate divides the world rate exactly, eight ticks to one.
pub proof fn lemma_decimation_exact()
    ensures
        DECIMATION == 8,
        WORLD_HZ % CONTROL_HZ == 0,
        DECIMATION * CONTROL_HZ == WORLD_HZ,
{
}

} // verus!
