//! The transport that a protocol driver talks through.

use vstd::prelude::*;
use crate::error::MeterError;

verus! {

/// A Modbus master on one serial line.
///
/// Nothing is promised of a reply: a driver has to deal with every outcome.
pub trait ModbusClient {
    /// Directs the requests that follow to the device with this slave address.
    fn set_slave(&mut self, slave: u8);

    /// Reads `quantity` input registers, starting at `address`.
    fn read_input_registers(&mut self, address: u16, quantity: u16) -> (reply: Result<
        Vec<u16>,
        MeterError,
    >);
}

/// A client without a wire: every register reads as zero.
pub struct MockModbusClient;

impl ModbusClient for MockModbusClient {
    fn set_slave(&mut self, slave: u8) {
    }

    fn read_input_registers(&mut self, address: u16, quantity: u16) -> (reply: Result<
        Vec<u16>,
        MeterError,
    >)
        ensures
            reply is Ok,
            reply->Ok_0@ == Seq::new(quantity as nat, |i: int| 0u16),
    {
        let mut registers: Vec<u16> = Vec::new();
        let mut i: u16 = 0;
        while i < quantity
            invariant
                i <= quantity,
                registers@ == Seq::new(i as nat, |k: int| 0u16),
            decreases quantity - i,
        {
            registers.push(0);
            assert(registers@ =~= Seq::new((i + 1) as nat, |k: int| 0u16));
            i += 1;
        }
        Ok(registers)
    }
}

} // verus!
