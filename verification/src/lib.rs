//! A verified core for a u-blox-style binary navigation receiver setup:
//! a byte-at-a-time frame decoder with a rolling two-byte checksum, the
//! fixed-offset extraction of a navigation position/velocity/time record,
//! the two pre-built configuration commands sent at session start, and the
//! pure register-level decisions of a small magnetometer driver.

pub mod bytes;
pub mod checksum;
pub mod gps;
pub mod laws;
pub mod lis3mdl;
