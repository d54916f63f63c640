use vstd::prelude::*;

verus! {

/// Vehicle attitude in degrees. Each field holds the IEEE-754 bit pattern
/// of a single-precision value.
#[derive(Clone, Copy, Debug, PartialEq, Eq, Structural)]
pub struct Attitude {
    pub roll: u32,
    pub pitch: u32,
    pub yaw: u32,
}

/// Altitude in meters and climb rate in meters per second, both as
/// IEEE-754 single-precision bit patterns.
#[derive(Clone, Copy, Debug, PartialEq, Eq, Structural)]
pub struct Altitude {
    pub altitude: u32,
    pub climb_rate: u32,
}

} // verus!
