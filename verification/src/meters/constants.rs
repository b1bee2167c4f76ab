//! Register map of the SDM72D meter.

use vstd::prelude::*;

verus! {

/// Input register: total system power, in watts.
pub const TOTAL_POWER: u16 = 0x0034;

/// Input register: imported energy since the last reset, in kWh.
pub const IMPORT_ENERGY: u16 = 0x0048;

/// Input register: exported energy since the last reset, in kWh.
pub const EXPORT_ENERGY: u16 = 0x004A;

/// Input register: total energy, in kWh.
pub const TOTAL_KWH: u16 = 0x0156;

/// Input register: import power, in watts.
pub const IMPORT_POWER: u16 = 0x0500;

/// Input register: export power, in watts.
pub const EXPORT_POWER: u16 = 0x0502;

/// Holding register: the device's Modbus address.
pub const MODBUS_ADDRESS: u16 = 0x0014;

/// Holding register: the communication baud rate.
pub const BAUD_RATE: u16 = 0x001C;

/// A value spans this many consecutive 16-bit registers.
pub const REGISTERS_PER_VALUE: u16 = 2;

} // verus!
