use vstd::prelude::*;

verus! {

/// Gyroscope sample in rad/s. Each field holds the IEEE-754 bit pattern of
/// a single-precision value.
#[derive(Clone, Copy, Debug, PartialEq, Eq, Structural)]
pub struct Gyro {
    pub x: u32,
    pub y: u32,
    pub z: u32,
}

/// Accelerometer sample in m/s^2. Each field holds the IEEE-754 bit
/// pattern of a single-precision value.
#[derive(Clone, Copy, Debug, PartialEq, Eq, Structural)]
pub struct Accel {
    pub x: u32,
    pub y: u32,
    pub z: u32,
}

} // verus!
