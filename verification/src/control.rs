use vstd::prelude::*;

verus! {

/// Raw control input (roll, pitch, yaw, throttle) in normalized units.
/// Each field holds the IEEE-754 bit pattern of a single-precision value.
#[derive(Clone, Copy, Debug, PartialEq, Eq, Structural)]
pub struct RPYT {
    pub roll: u32,
    pub pitch: u32,
    pub yaw: u32,
    pub throttle: u32,
}

} // verus!
