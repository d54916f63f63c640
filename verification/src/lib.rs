//! Point-to-point telemetry link protocol for small embedded vehicles.
//!
//! The crate frames typed payloads (attitude, altitude, GPS, raw control
//! input, gyro/accel samples) into fixed-size 63-byte binary frames for a
//! byte-oriented serial channel, and recovers those frames from a
//! continuous, possibly corrupted or interleaved byte stream.
//!
//! Floating-point telemetry values are carried as their IEEE-754 bit
//! patterns (`u32` for single precision, `u64` for double precision): the
//! protocol never interprets the numbers, it only moves their bits, so the
//! round trip is exact by construction.

pub mod control;
pub mod errors;
pub mod message;
pub mod sensor;
pub mod telemetry;
