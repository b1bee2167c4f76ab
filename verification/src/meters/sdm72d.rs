//! Driver for the SDM72D meter: four values per polling cycle, each read as
//! two input registers under the lock of the shared channel.

use vstd::prelude::*;
use crate::error::{ErrorKind, MeterError};
use crate::meters::constants::{EXPORT_POWER, IMPORT_POWER, REGISTERS_PER_VALUE, TOTAL_KWH,
    TOTAL_POWER};
use crate::meters::{acquire_attempt, acquire_step, exchange, opens_with, transport_reply,
    LockAttempt, SerialSettings, SerialView, SharedSerial};
use crate::model::{Model, ModelView};
use crate::reader::ModbusClient;

verus! {

pub open spec fn high_byte(r: u16) -> u8 {
    (r / 256) as u8
}

pub open spec fn low_byte(r: u16) -> u8 {
    (r % 256) as u8
}

/// The 32-bit word whose big-endian bytes are `b0, b1, b2, b3`.
pub open spec fn be_word(b0: u8, b1: u8, b2: u8, b3: u8) -> u32 {
    (b0 * 0x100_0000 + b1 * 0x1_0000 + b2 * 0x100 + b3) as u32
}

/// The bit pattern of the single-precision value that two registers carry:
/// register 0 is the high word, register 1 the low word, and each register
/// gives its high byte first.
pub open spec fn register_bits(r0: u16, r1: u16) -> u32 {
    be_word(high_byte(r0), low_byte(r0), high_byte(r1), low_byte(r1))
}

/// The bytes of the two registers, taken in order, are the big-endian bytes of
/// the word `r0 * 2^16 + r1`.
pub proof fn lemma_register_bits(r0: u16, r1: u16)
    ensures
        register_bits(r0, r1) == r0 * 0x1_0000 + r1,
        high_byte(r0) * 256 + low_byte(r0) == r0,
        high_byte(r1) * 256 + low_byte(r1) == r1,
{
}

/// What a reply to a two-register read decodes to: the value's bit pattern,
/// or `Transport` where the read failed or gave fewer than two registers.
pub open spec fn decoded(reply: Result<Seq<u16>, ErrorKind>) -> Result<u32, ErrorKind> {
    match reply {
        Ok(registers) => if registers.len() >= 2 {
            Ok(register_bits(registers[0], registers[1]))
        } else {
            Err(ErrorKind::Transport)
        },
        Err(_) => Err(ErrorKind::Transport),
    }
}

/// The registers of a reply, seen as a sequence.
pub open spec fn reply_view(reply: Result<Vec<u16>, ErrorKind>) -> Result<Seq<u16>, ErrorKind> {
    match reply {
        Ok(registers) => Ok(registers@),
        Err(e) => Err(e),
    }
}

/// What a client's answer to a two-register read decodes to.
pub open spec fn value_of(answer: Result<Vec<u16>, MeterError>) -> Result<u32, ErrorKind> {
    decoded(reply_view(transport_reply(answer)))
}

/// Reads on a channel start from the client `start`: the client that is
/// attached or, on a channel that is not open, a client that `open` gives
/// for the channel's settings and the slave address.
pub open spec fn begins<C, F: Fn(&SerialSettings, u8) -> Result<C, MeterError>>(
    channel: SerialView,
    attached: Option<C>,
    open: &F,
    slave: u8,
    start: C,
) -> bool {
    match attached {
        Some(client) => client == start,
        None => exists|s: SerialSettings|
            opens_with(channel, s) && #[trigger] open.ensures(
                (&s, slave),
                Ok::<C, MeterError>(start),
            ),
    }
}

/// The channel is not open, and `open` fails for the channel's settings and
/// the slave address.
pub open spec fn fails_to_open<C, F: Fn(&SerialSettings, u8) -> Result<C, MeterError>>(
    channel: SerialView,
    attached: Option<C>,
    open: &F,
    slave: u8,
) -> bool {
    attached is None && exists|s: SerialSettings, e: MeterError|
        opens_with(channel, s) && #[trigger] open.ensures((&s, slave), Err::<C, MeterError>(e))
}

/// Whether and how a channel is opened depends on its port, baud rate and
/// timeout alone, not on who holds it.
pub proof fn lemma_opening_ignores_holder<C, F: Fn(&SerialSettings, u8) -> Result<C, MeterError>>(
    one: SerialView,
    other: SerialView,
    attached: Option<C>,
    open: &F,
    slave: u8,
)
    requires
        one.port == other.port,
        one.baud_rate == other.baud_rate,
        one.timeout == other.timeout,
    ensures
        forall|start: C| #[trigger]
            begins(one, attached, open, slave, start) ==> begins(other, attached, open, slave, start),
        fails_to_open(one, attached, open, slave) ==> fails_to_open(other, attached, open, slave),
{
    assert forall|start: C| #[trigger] begins(one, attached, open, slave, start) implies begins(
        other,
        attached,
        open,
        slave,
        start,
    ) by {
        if attached is None {
            let s = choose|s: SerialSettings|
                opens_with(one, s) && #[trigger] open.ensures(
                    (&s, slave),
                    Ok::<C, MeterError>(start),
                );
            assert(opens_with(other, s));
        }
    }
    if fails_to_open(one, attached, open, slave) {
        let (s, e) = choose|s: SerialSettings, e: MeterError|
            opens_with(one, s) && #[trigger] open.ensures((&s, slave), Err::<C, MeterError>(e));
        assert(opens_with(other, s));
    }
}

/// What a polling cycle comes to, given what its four reads decoded to: a
/// reading with the four values where all four are there, a `Transport`
/// error where one is missing.
pub open spec fn cycle_result(
    name: Seq<char>,
    now: i64,
    total_power: Result<u32, ErrorKind>,
    import_power: Result<u32, ErrorKind>,
    export_power: Result<u32, ErrorKind>,
    total_kwh: Result<u32, ErrorKind>,
) -> Result<ModelView, ErrorKind> {
    match (total_power, import_power, export_power, total_kwh) {
        (Ok(a), Ok(b), Ok(c), Ok(d)) => Ok(
            ModelView {
                meter_name: name,
                timestamp: now,
                total_power: a,
                import_power: b,
                export_power: c,
                total_kwh: d,
            },
        ),
        _ => Err(ErrorKind::Transport),
    }
}

/// The outcome of a cycle, with the reading seen as its view.
pub open spec fn outcome_view(outcome: Result<Model, ErrorKind>) -> Result<ModelView, ErrorKind> {
    match outcome {
        Ok(m) => Ok(m@),
        Err(e) => Err(e),
    }
}

/// What one step of a polling cycle comes to.
#[derive(Debug)]
pub enum CycleStep {
    /// The channel is busy: wait this long and call again, with one retry
    /// more on the count.
    Wait { millis: u64 },
    /// The cycle is over, with a reading or with the error that ended it.
    Done(Result<Model, ErrorKind>),
}

/// A driver for one device. `H` is the handle by which the driver's owner
/// reaches the channel that the device is wired to.
pub struct SDM72DMeter<H> {
    name: String,
    shared_serial: H,
    modbus_address: u8,
    polling_rate: u32,
    timeout: u32,
}

impl<H> SDM72DMeter<H> {
    pub closed spec fn name(&self) -> Seq<char> {
        self.name@
    }

    pub closed spec fn channel(&self) -> H {
        self.shared_serial
    }

    pub closed spec fn address(&self) -> u8 {
        self.modbus_address
    }

    pub closed spec fn polling_rate(&self) -> u32 {
        self.polling_rate
    }

    pub closed spec fn timeout(&self) -> u32 {
        self.timeout
    }

    /// A driver for the device at `modbus_address` on the channel behind
    /// `shared_serial`, whose read timeout is `timeout` seconds.
    pub fn new(
        name: String,
        shared_serial: H,
        modbus_address: u8,
        polling_rate: u32,
        timeout: u32,
    ) -> (meter: Self)
        ensures
            meter.name() == name@,
            meter.channel() == shared_serial,
            meter.address() == modbus_address,
            meter.polling_rate() == polling_rate,
            meter.timeout() == timeout,
    {
        SDM72DMeter { name, shared_serial, modbus_address, polling_rate, timeout }
    }

    /// The handle of the channel that this driver talks on.
    pub fn shared_serial(&self) -> (handle: &H)
        ensures
            *handle == self.channel(),
    {
        &self.shared_serial
    }

    /// The bit pattern of the value in the first two of `regs`.
    pub fn registers_to_f32(regs: &[u16]) -> (bits: u32)
        requires
            regs@.len() >= 2,
        ensures
            bits == register_bits(regs@[0], regs@[1]),
    {
        let r0 = regs[0];
        let r1 = regs[1];
        let b0: u8 = (r0 >> 8) as u8;
        let b1: u8 = (r0 & 0xFF) as u8;
        let b2: u8 = (r1 >> 8) as u8;
        let b3: u8 = (r1 & 0xFF) as u8;
        let bits: u32 = ((b0 as u32) << 24) | ((b1 as u32) << 16) | ((b2 as u32) << 8) | (b3 as u32);
        assert(b0 == (r0 / 256) as u8 && b1 == (r0 % 256) as u8) by (bit_vector)
            requires
                b0 == (r0 >> 8) as u8,
                b1 == (r0 & 0xFF) as u8,
        ;
        assert(b2 == (r1 / 256) as u8 && b3 == (r1 % 256) as u8) by (bit_vector)
            requires
                b2 == (r1 >> 8) as u8,
                b3 == (r1 & 0xFF) as u8,
        ;
        assert(bits == (b0 * 0x100_0000 + b1 * 0x1_0000 + b2 * 0x100 + b3) as u32) by (bit_vector)
            requires
                bits == ((b0 as u32) << 24) | ((b1 as u32) << 16) | ((b2 as u32) << 8) | (b3 as u32),
        ;
        bits
    }

    /// Decodes the reply to a two-register read.
    pub fn decode_reply(reply: Result<Vec<u16>, ErrorKind>) -> (value: Result<u32, ErrorKind>)
        ensures
            value == decoded(
                match reply {
                    Ok(registers) => Ok(registers@),
                    Err(e) => Err(e),
                },
            ),
    {
        match reply {
            Ok(registers) => {
                if registers.len() < 2 {
                    Err(ErrorKind::Transport)
                } else {
                    Ok(Self::registers_to_f32(registers.as_slice()))
                }
            },
            Err(_) => Err(ErrorKind::Transport),
        }
    }

    /// Opens the channel's connection if it is not open yet; a no-op once it
    /// is. `open` is called with the channel's settings (8 data bits, 1 stop
    /// bit, no parity) and this driver's slave address, and the client it
    /// gives is attached.
    ///
    /// Fails with `Transport` where `open` fails; the channel then stays
    /// closed. The lock is not touched.
    pub fn ensure_connected<C: ModbusClient, F: Fn(&SerialSettings, u8) -> Result<C, MeterError>>(
        &self,
        serial: &mut SharedSerial<C>,
        open: &F,
    ) -> (r: Result<(), ErrorKind>)
        requires
            forall|s: &SerialSettings, slave: u8| #[trigger] open.requires((s, slave)),
        ensures
            old(serial)@.connected ==> r is Ok && final(serial)@ == old(serial)@
                && final(serial).client() == old(serial).client(),
            match r {
                Ok(()) => final(serial)@ == (SerialView { connected: true, ..old(serial)@ }),
                Err(e) => e == ErrorKind::Transport && final(serial)@ == old(serial)@,
            },
            old(serial)@.connected == old(serial).client() is Some,
            match r {
                Ok(()) => exists|start: C|
                    #[trigger] begins(
                        old(serial)@,
                        old(serial).client(),
                        open,
                        self.address(),
                        start,
                    ) && final(serial).client() == Some(start),
                Err(_) => fails_to_open(old(serial)@, old(serial).client(), open, self.address())
                    && final(serial).client() is None,
            },
    {
        if serial.is_connected() {
            proof {
                assert(begins(
                    old(serial)@,
                    old(serial).client(),
                    open,
                    self.address(),
                    old(serial).client()->Some_0,
                ));
            }
            return Ok(());
        }
        let settings = serial.settings();
        let outcome = open(&settings, self.modbus_address);
        assert(open.ensures((&settings, self.address()), outcome));
        match outcome {
            Ok(client) => {
                proof {
                    assert(begins(old(serial)@, old(serial).client(), open, self.address(), client));
                }
                serial.attach(client);
                Ok(())
            },
            Err(_) => Err(ErrorKind::Transport),
        }
    }

    /// Reads the value at `register`: two input registers from this driver's
    /// slave address, decoded as one single-precision bit pattern.
    ///
    /// A channel that is not open is opened first, with its settings and this
    /// driver's slave address; where that fails, the read fails and no
    /// request is made. Then the client is pointed to the slave address and
    /// asked for exactly two registers at `register`, and the result is what
    /// its answer decodes to. The channel keeps the client as the calls left
    /// it.
    ///
    /// Every failure is a `Transport` error. The lock is not touched.
    pub fn read_float_register<C: ModbusClient, F: Fn(&SerialSettings, u8) -> Result<C, MeterError>>(
        &self,
        serial: &mut SharedSerial<C>,
        open: &F,
        register: u16,
    ) -> (value: Result<u32, ErrorKind>)
        requires
            forall|s: &SerialSettings, slave: u8| #[trigger] open.requires((s, slave)),
        ensures
            value is Err ==> value == Err::<u32, ErrorKind>(ErrorKind::Transport),
            final(serial)@.holder == old(serial)@.holder,
            final(serial)@.port == old(serial)@.port,
            final(serial)@.baud_rate == old(serial)@.baud_rate,
            final(serial)@.timeout == old(serial)@.timeout,
            old(serial)@.connected ==> final(serial)@.connected,
            ({
                ||| {
                    &&& fails_to_open(old(serial)@, old(serial).client(), open, self.address())
                    &&& final(serial)@ == old(serial)@
                    &&& final(serial).client() is None
                    &&& value == Err::<u32, ErrorKind>(ErrorKind::Transport)
                }
                ||| exists|start: C|
                    {
                        &&& #[trigger] begins(
                            old(serial)@,
                            old(serial).client(),
                            open,
                            self.address(),
                            start,
                        )
                        &&& final(serial)@ == (SerialView { connected: true, ..old(serial)@ })
                        &&& exists|direct: &mut C, read: &mut C, answer: Result<Vec<u16>, MeterError>|
                            {
                                &&& #[trigger] exchange(
                                    direct,
                                    read,
                                    start,
                                    self.address(),
                                    register,
                                    REGISTERS_PER_VALUE,
                                    answer,
                                )
                                &&& *read == *final(direct)
                                &&& final(serial).client() == Some(*final(read))
                                &&& value == value_of(answer)
                            }
                    }
            }),
    {
        match self.ensure_connected(serial, open) {
            Ok(()) => {},
            Err(e) => {
                return Err(e);
            },
        }
        let reply = serial.read_registers(self.modbus_address, register, REGISTERS_PER_VALUE);
        Self::decode_reply(reply)
    }

    /// Reads the four values of one cycle, in the order total power, import
    /// power, export power, total energy, each read starting from the client
    /// as the read before left it, and stops at the first that does not
    /// decode to a value. The lock is not touched.
    fn read_all<C: ModbusClient, F: Fn(&SerialSettings, u8) -> Result<C, MeterError>>(
        &self,
        serial: &mut SharedSerial<C>,
        open: &F,
        now: i64,
    ) -> (r: Result<Model, ErrorKind>)
        requires
            forall|s: &SerialSettings, slave: u8| #[trigger] open.requires((s, slave)),
        ensures
            match r {
                Ok(m) => m@.meter_name == self.name() && m@.timestamp == now,
                Err(e) => e == ErrorKind::Transport,
            },
            final(serial)@.holder == old(serial)@.holder,
            final(serial)@.port == old(serial)@.port,
            final(serial)@.baud_rate == old(serial)@.baud_rate,
            final(serial)@.timeout == old(serial)@.timeout,
            old(serial)@.connected ==> final(serial)@.connected,
            ({
                ||| {
                    &&& fails_to_open(old(serial)@, old(serial).client(), open, self.address())
                    &&& final(serial)@ == old(serial)@
                    &&& final(serial).client() is None
                    &&& outcome_view(r) == Err::<ModelView, ErrorKind>(ErrorKind::Transport)
                }
                ||| exists|start: C|
                    {
                        &&& #[trigger] begins(
                            old(serial)@,
                            old(serial).client(),
                            open,
                            self.address(),
                            start,
                        )
                        &&& final(serial)@ == (SerialView { connected: true, ..old(serial)@ })
                        &&& exists|direct1: &mut C, read1: &mut C, answer1: Result<Vec<u16>, MeterError>|
                            {
                                &&& #[trigger] exchange(
                                    direct1,
                                    read1,
                                    start,
                                    self.address(),
                                    TOTAL_POWER,
                                    REGISTERS_PER_VALUE,
                                    answer1,
                                )
                                &&& *read1 == *final(direct1)
                                &&& if value_of(answer1) is Err {
                                    &&& final(serial).client() == Some(*final(read1))
                                    &&& outcome_view(r) == Err::<ModelView, ErrorKind>(ErrorKind::Transport)
                                } else {
                                    exists|direct2: &mut C, read2: &mut C, answer2: Result<Vec<u16>, MeterError>|
                                        {
                                            &&& #[trigger] exchange(
                                                direct2,
                                                read2,
                                                *final(read1),
                                                self.address(),
                                                IMPORT_POWER,
                                                REGISTERS_PER_VALUE,
                                                answer2,
                                            )
                                            &&& *read2 == *final(direct2)
                                            &&& if value_of(answer2) is Err {
                                                &&& final(serial).client() == Some(*final(read2))
                                                &&& outcome_view(r) == Err::<ModelView, ErrorKind>(ErrorKind::Transport)
                                            } else {
                                                exists|direct3: &mut C, read3: &mut C, answer3: Result<Vec<u16>, MeterError>|
                                                    {
                                                        &&& #[trigger] exchange(
                                                            direct3,
                                                            read3,
                                                            *final(read2),
                                                            self.address(),
                                                            EXPORT_POWER,
                                                            REGISTERS_PER_VALUE,
                                                            answer3,
                                                        )
                                                        &&& *read3 == *final(direct3)
                                                        &&& if value_of(answer3) is Err {
                                                            &&& final(serial).client() == Some(*final(read3))
                                                            &&& outcome_view(r) == Err::<ModelView, ErrorKind>(ErrorKind::Transport)
                                                        } else {
                                                            exists|direct4: &mut C, read4: &mut C, answer4: Result<Vec<u16>, MeterError>|
                                                                {
                                                                    &&& #[trigger] exchange(
                                                                        direct4,
                                                                        read4,
                                                                        *final(read3),
                                                                        self.address(),
                                                                        TOTAL_KWH,
                                                                        REGISTERS_PER_VALUE,
                                                                        answer4,
                                                                    )
                                                                    &&& *read4 == *final(direct4)
                                                                    &&& final(serial).client() == Some(*final(read4))
                                                                    &&& outcome_view(r) == cycle_result(
                                                                        self.name(),
                                                                        now,
                                                                        value_of(answer1),
                                                                        value_of(answer2),
                                                                        value_of(answer3),
                                                                        value_of(answer4),
                                                                    )
                                                                }
                                                        }
                                                    }
                                            }
                                        }
                                }
                            }
                    }
            }),
    {
        let total_power = match self.read_float_register(serial, open, TOTAL_POWER) {
            Ok(v) => v,
            Err(e) => {
                return Err(e);
            },
        };
        let import_power = match self.read_float_register(serial, open, IMPORT_POWER) {
            Ok(v) => v,
            Err(e) => {
                return Err(e);
            },
        };
        let export_power = match self.read_float_register(serial, open, EXPORT_POWER) {
            Ok(v) => v,
            Err(e) => {
                return Err(e);
            },
        };
        let total_kwh = match self.read_float_register(serial, open, TOTAL_KWH) {
            Ok(v) => v,
            Err(e) => {
                return Err(e);
            },
        };
        Ok(
            Model {
                meter_name: self.name.clone(),
                timestamp: now,
                total_power,
                import_power,
                export_power,
                total_kwh,
            },
        )
    }

    /// One step of a polling cycle at time `now`, after `retry_count`
    /// back-offs that took `waited_millis` in all.
    ///
    /// The step tries to take the channel. While the channel is busy and the
    /// retry budget lasts, it asks the caller to wait; when the budget or the
    /// channel's time limit is used up, the cycle ends with `LockTimeout`.
    /// In both cases the channel and its client are left as they were: no
    /// request is made.
    ///
    /// Once the channel is acquired, a channel that is not open is opened;
    /// where that fails the cycle fails. Then total power, import power,
    /// export power and total energy are read in this order, each as two
    /// registers from this driver's slave address, each read starting from
    /// the client as the read before left it. A read is made only if the one
    /// before it decoded to a value; the first that does not ends the cycle
    /// with `Transport`. Four values make the reading, stamped `now`. The
    /// channel keeps the client as the last read left it and is released
    /// whether the values could be read or not: afterwards nobody holds it.
    pub fn get_value<C: ModbusClient, F: Fn(&SerialSettings, u8) -> Result<C, MeterError>>(
        &self,
        serial: &mut SharedSerial<C>,
        open: &F,
        now: i64,
        retry_count: u32,
        waited_millis: u64,
    ) -> (step: CycleStep)
        requires
            forall|s: &SerialSettings, slave: u8| #[trigger] open.requires((s, slave)),
        ensures
            final(serial)@.port == old(serial)@.port,
            final(serial)@.baud_rate == old(serial)@.baud_rate,
            final(serial)@.timeout == old(serial)@.timeout,
            old(serial)@.connected ==> final(serial)@.connected,
            match acquire_step(
                old(serial)@.timeout,
                old(serial)@.holder is Some,
                retry_count,
                waited_millis,
            ) {
                LockAttempt::Wait { millis } => step == (CycleStep::Wait { millis })
                    && final(serial)@ == old(serial)@ && final(serial).client()
                    == old(serial).client(),
                LockAttempt::TimedOut => step == CycleStep::Done(Err(ErrorKind::LockTimeout))
                    && final(serial)@ == old(serial)@ && final(serial).client()
                    == old(serial).client(),
                LockAttempt::Acquired => {
                    &&& final(serial)@.holder is None
                    &&& step matches CycleStep::Done(outcome)
                    &&& match outcome {
                        Ok(m) => m@.meter_name == self.name() && m@.timestamp == now,
                        Err(e) => e == ErrorKind::Transport,
                    }
                    &&& ({
                        ||| {
                            &&& fails_to_open(old(serial)@, old(serial).client(), open, self.address())
                            &&& final(serial)@ == (SerialView { holder: None, ..old(serial)@ })
                            &&& final(serial).client() is None
                            &&& outcome_view(outcome) == Err::<ModelView, ErrorKind>(ErrorKind::Transport)
                        }
                        ||| exists|start: C|
                            {
                                &&& #[trigger] begins(
                                    old(serial)@,
                                    old(serial).client(),
                                    open,
                                    self.address(),
                                    start,
                                )
                                &&& final(serial)@ == (SerialView { holder: None, connected: true, ..old(serial)@ })
                                &&& exists|direct1: &mut C, read1: &mut C, answer1: Result<Vec<u16>, MeterError>|
                                    {
                                        &&& #[trigger] exchange(
                                            direct1,
                                            read1,
                                            start,
                                            self.address(),
                                            TOTAL_POWER,
                                            REGISTERS_PER_VALUE,
                                            answer1,
                                        )
                                        &&& *read1 == *final(direct1)
                                        &&& if value_of(answer1) is Err {
                                            &&& final(serial).client() == Some(*final(read1))
                                            &&& outcome_view(outcome) == Err::<ModelView, ErrorKind>(ErrorKind::Transport)
                                        } else {
                                            exists|direct2: &mut C, read2: &mut C, answer2: Result<Vec<u16>, MeterError>|
                                                {
                                                    &&& #[trigger] exchange(
                                                        direct2,
                                                        read2,
                                                        *final(read1),
                                                        self.address(),
                                                        IMPORT_POWER,
                                                        REGISTERS_PER_VALUE,
                                                        answer2,
                                                    )
                                                    &&& *read2 == *final(direct2)
                                                    &&& if value_of(answer2) is Err {
                                                        &&& final(serial).client() == Some(*final(read2))
                                                        &&& outcome_view(outcome) == Err::<ModelView, ErrorKind>(ErrorKind::Transport)
                                                    } else {
                                                        exists|direct3: &mut C, read3: &mut C, answer3: Result<Vec<u16>, MeterError>|
                                                            {
                                                                &&& #[trigger] exchange(
                                                                    direct3,
                                                                    read3,
                                                                    *final(read2),
                                                                    self.address(),
                                                                    EXPORT_POWER,
                                                                    REGISTERS_PER_VALUE,
                                                                    answer3,
                                                                )
                                                                &&& *read3 == *final(direct3)
                                                                &&& if value_of(answer3) is Err {
                                                                    &&& final(serial).client() == Some(*final(read3))
                                                                    &&& outcome_view(outcome) == Err::<ModelView, ErrorKind>(ErrorKind::Transport)
                                                                } else {
                                                                    exists|direct4: &mut C, read4: &mut C, answer4: Result<Vec<u16>, MeterError>|
                                                                        {
                                                                            &&& #[trigger] exchange(
                                                                                direct4,
                                                                                read4,
                                                                                *final(read3),
                                                                                self.address(),
                                                                                TOTAL_KWH,
                                                                                REGISTERS_PER_VALUE,
                                                                                answer4,
                                                                            )
                                                                            &&& *read4 == *final(direct4)
                                                                            &&& final(serial).client() == Some(*final(read4))
                                                                            &&& outcome_view(outcome) == cycle_result(
                                                                                self.name(),
                                                                                now,
                                                                                value_of(answer1),
                                                                                value_of(answer2),
                                                                                value_of(answer3),
                                                                                value_of(answer4),
                                                                            )
                                                                        }
                                                                }
                                                            }
                                                    }
                                                }
                                        }
                                    }
                            }
                    })
                },
            },
    {
        match serial.acquire_lock(self.name.as_str(), retry_count, waited_millis) {
            LockAttempt::Wait { millis } => CycleStep::Wait { millis },
            LockAttempt::TimedOut => CycleStep::Done(Err(ErrorKind::LockTimeout)),
            LockAttempt::Acquired => {
                proof {
                    lemma_opening_ignores_holder(
                        serial@,
                        old(serial)@,
                        serial.client(),
                        open,
                        self.address(),
                    );
                }
                let result = self.read_all(serial, open, now);
                serial.release_lock(self.name.as_str());
                CycleStep::Done(result)
            },
        }
    }

    /// The step of a polling cycle that finds the channel in use by another
    /// meter and cannot get at it: the step that `get_value` makes on a held
    /// channel whose time limit is this driver's timeout. No request is made.
    pub fn step_when_busy(&self, retry_count: u32, waited_millis: u64) -> (step: CycleStep)
        ensures
            match acquire_step(self.timeout(), true, retry_count, waited_millis) {
                LockAttempt::Wait { millis } => step == (CycleStep::Wait { millis }),
                LockAttempt::TimedOut => step == CycleStep::Done(Err(ErrorKind::LockTimeout)),
                LockAttempt::Acquired => false,
            },
    {
        match acquire_attempt(self.timeout, true, retry_count, waited_millis) {
            LockAttempt::Wait { millis } => CycleStep::Wait { millis },
            _ => CycleStep::Done(Err(ErrorKind::LockTimeout)),
        }
    }

    pub fn get_polling_rate(&self) -> (rate: u32)
        ensures
            rate == self.polling_rate(),
    {
        self.polling_rate
    }

    /// The read timeout, in seconds.
    pub fn get_timeout(&self) -> (secs: u64)
        ensures
            secs == self.timeout(),
    {
        self.timeout as u64
    }
}

} // verus!
