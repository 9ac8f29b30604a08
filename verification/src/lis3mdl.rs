//! Register-level decisions of a small three-axis magnetometer driver: the
//! device constants, the configuration written at start-up, and the
//! assembly of signed axis readings from raw register bytes. The bus
//! transfers themselves are left to the caller that owns the bus.

use vstd::prelude::*;
use crate::bytes::{i16_le, i16_from_le};

verus! {

/// Bus address of the device when its address pin is tied to ground.
pub const LIS3MDL_ADDRESS: u8 = 0x1C;

/// Identification register.
pub const WHO_AM_I: u8 = 0x0F;

pub const CTRL_REG1: u8 = 0x20;

pub const CTRL_REG2: u8 = 0x21;

pub const CTRL_REG3: u8 = 0x22;

pub const CTRL_REG4: u8 = 0x23;

pub const CTRL_REG5: u8 = 0x24;

pub const STATUS_REG: u8 = 0x27;

pub const OUT_X_L: u8 = 0x28;

pub const OUT_X_H: u8 = 0x29;

pub const OUT_Y_L: u8 = 0x2A;

pub const OUT_Y_H: u8 = 0x2B;

pub const OUT_Z_L: u8 = 0x2C;

pub const OUT_Z_H: u8 = 0x2D;

pub const TEMP_OUT_L: u8 = 0x2E;

pub const TEMP_OUT_H: u8 = 0x2F;

/// Value the identification register is expected to hold.
pub const LIS3MDL_WHO_AM_I_VALUE: u8 = 0x3D;

#[derive(Debug, Clone, Copy)]
pub enum PerformanceMode {
    LowPower,
    Medium,
    High,
    UltraHigh,
}

#[derive(Debug, Clone, Copy)]
pub enum DataRate {
    Hz0_625,
    Hz1_25,
    Hz2_5,
    Hz5,
    Hz10,
    Hz20,
    Hz40,
    Hz80,
}

#[derive(Debug, Clone, Copy)]
pub enum FullScale {
    Gauss4,
    Gauss8,
    Gauss12,
    Gauss16,
}

/// One raw magnetometer reading: the three axes and the temperature, as the
/// device's signed 16-bit register values.
#[derive(Debug, Clone, Copy, PartialEq, Eq, Structural)]
pub struct MagnetometerData {
    pub x: i16,
    pub y: i16,
    pub z: i16,
    pub temperature: i16,
}

impl MagnetometerData {
    /// Assemble a reading from the six axis bytes and the two temperature
    /// bytes, each pair little-endian.
    pub fn from_le_bytes(data: &[u8; 6], temp: &[u8; 2]) -> (m: MagnetometerData)
        ensures
            m.x == i16_le(data@[0], data@[1]),
            m.y == i16_le(data@[2], data@[3]),
            m.z == i16_le(data@[4], data@[5]),
            m.temperature == i16_le(temp@[0], temp@[1]),
    {
        MagnetometerData {
            x: i16_from_le(data[0], data[1]),
            y: i16_from_le(data[2], data[3]),
            z: i16_from_le(data[4], data[5]),
            temperature: i16_from_le(temp[0], temp[1]),
        }
    }
}

/// The register writes that configure the device at start-up: temperature
/// sensor on, high-performance X/Y at 10 Hz, full scale of 4 gauss,
/// continuous conversion, high-performance Z, continuous update.
pub open spec fn init_config_writes() -> Seq<(u8, u8)> {
    seq![
        (CTRL_REG1, 0b11101000u8),
        (CTRL_REG2, 0b00000000u8),
        (CTRL_REG3, 0b00000000u8),
        (CTRL_REG4, 0b00001100u8),
        (CTRL_REG5, 0b00000000u8),
    ]
}

/// The start-up register writes, in the order they are to be sent.
pub fn init_register_writes() -> (w: Vec<(u8, u8)>)
    ensures
        w@ == init_config_writes(),
{
    let mut w: Vec<(u8, u8)> = Vec::new();
    w.push((CTRL_REG1, 0b11101000));
    w.push((CTRL_REG2, 0b00000000));
    w.push((CTRL_REG3, 0b00000000));
    w.push((CTRL_REG4, 0b00001100));
    w.push((CTRL_REG5, 0b00000000));
    proof {
        assert(w@ =~= init_config_writes());
    }
    w
}

/// Whether an identification-register read names this device.
pub fn who_am_i_matches(value: u8) -> (r: bool)
    ensures
        r == (value == LIS3MDL_WHO_AM_I_VALUE),
{
    value == LIS3MDL_WHO_AM_I_VALUE
}

/// Whether a status-register read says a new reading is available.
pub fn data_ready(status: u8) -> (r: bool)
    ensures
        r == ((status & 0x08) != 0),
{
    (status & 0x08) != 0
}

/// Magnetometer driver state: the bus it owns, the device address, and the
/// configured full-scale range.
pub struct Lis3mdl<I2C> {
    i2c: I2C,
    address: u8,
    full_scale: FullScale,
}

impl<I2C> Lis3mdl<I2C> {
    /// The device address this driver talks to.
    pub closed spec fn spec_address(&self) -> u8 {
        self.address
    }

    /// The configured full-scale range.
    pub closed spec fn spec_full_scale(&self) -> FullScale {
        self.full_scale
    }

    /// The bus the driver owns.
    pub closed spec fn spec_bus(&self) -> I2C {
        self.i2c
    }

    /// Take ownership of the bus; no transfer is performed.
    pub fn new(i2c: I2C) -> (d: Lis3mdl<I2C>)
        ensures
            d.spec_bus() == i2c,
            d.spec_address() == LIS3MDL_ADDRESS,
            d.spec_full_scale() is Gauss4,
    {
        Lis3mdl {
            i2c,
            address: LIS3MDL_ADDRESS,
            full_scale: FullScale::Gauss4,
        }
    }

    /// The device address, for the caller that performs the bus transfers.
    pub fn address(&self) -> (a: u8)
        ensures
            a == self.spec_address(),
    {
        self.address
    }

    /// Give the bus back to the caller, unchanged.
    pub fn release(self) -> (b: I2C)
        ensures
            b == self.spec_bus(),
    {
        self.i2c
    }

}

} // verus!
