//! Meters, and the serial channel that the meters on one port share.

use vstd::prelude::*;
use crate::config::MeterType;
use crate::error::{ErrorKind, MeterError};
use crate::meters::mock_meter::MockMeter;
use crate::meters::sdm72d::SDM72DMeter;
use crate::reader::ModbusClient;

pub mod constants;
pub mod mock_meter;
pub mod sdm72d;

verus! {

/// How often a busy channel is tried again before the caller gives up.
pub const MAX_LOCK_RETRIES: u32 = 3;

/// Milliseconds to wait before a busy channel is tried again.
pub const LOCK_BACKOFF_MILLIS: u64 = 500;

/// What one attempt to take the channel comes to.
#[derive(Clone, Copy, Debug, PartialEq, Eq, Structural)]
pub enum LockAttempt {
    /// The caller now holds the channel.
    Acquired,
    /// The channel is busy: wait this long, then try again with one retry
    /// more on the count.
    Wait { millis: u64 },
    /// The channel stayed busy for the whole retry budget, or the time allowed
    /// for acquiring it has run out.
    TimedOut,
}

/// The retry policy: a free channel is granted at once; a busy one is tried
/// again after a back-off, up to three times.
pub open spec fn lock_step(held: bool, retry_count: u32) -> LockAttempt {
    if !held {
        LockAttempt::Acquired
    } else if retry_count >= MAX_LOCK_RETRIES {
        LockAttempt::TimedOut
    } else {
        LockAttempt::Wait { millis: LOCK_BACKOFF_MILLIS }
    }
}

/// Whether the time allowed for acquiring has run out after the caller has
/// waited `waited_millis`. The first attempt is always made.
pub open spec fn deadline_passed(timeout: u32, waited_millis: u64) -> bool {
    waited_millis > 0 && waited_millis >= timeout * 1000
}

/// One attempt under the retry policy and the time limit of the channel.
pub open spec fn acquire_step(
    timeout: u32,
    held: bool,
    retry_count: u32,
    waited_millis: u64,
) -> LockAttempt {
    if deadline_passed(timeout, waited_millis) {
        LockAttempt::TimedOut
    } else {
        lock_step(held, retry_count)
    }
}

/// Decides one attempt from what is known of the channel: its time limit and
/// whether another caller holds it.
pub fn acquire_attempt(timeout: u32, held: bool, retry_count: u32, waited_millis: u64) -> (attempt:
    LockAttempt)
    ensures
        attempt == acquire_step(timeout, held, retry_count, waited_millis),
{
    if waited_millis > 0 && waited_millis >= (timeout as u64) * 1000 {
        LockAttempt::TimedOut
    } else if !held {
        LockAttempt::Acquired
    } else if retry_count >= MAX_LOCK_RETRIES {
        LockAttempt::TimedOut
    } else {
        LockAttempt::Wait { millis: LOCK_BACKOFF_MILLIS }
    }
}

/// How acquiring ends, and after how many milliseconds of waiting, on a
/// channel with the time limit `timeout`, when attempt `k` is the next one,
/// `k` back-offs were waited before it, and `busy[i]` tells whether attempt
/// `i` finds the channel held by another caller.
pub open spec fn acquire_outcome(timeout: u32, busy: Seq<bool>, k: nat) -> (LockAttempt, nat)
    recommends
        busy.len() > MAX_LOCK_RETRIES,
    decreases 4 - k,
{
    let attempt = acquire_step(timeout, busy[k as int], k as u32, (k * 500) as u64);
    if k < MAX_LOCK_RETRIES && attempt is Wait {
        acquire_outcome(timeout, busy, k + 1)
    } else {
        (attempt, k * 500)
    }
}

/// A caller that finds the channel held until the holder releases it before
/// attempt `k`, within the retry budget and before the channel's time limit
/// has run out, acquires it after `k` back-offs of 500 ms.
pub proof fn lemma_acquire_after_release(timeout: u32, busy: Seq<bool>, k: nat)
    requires
        busy.len() > MAX_LOCK_RETRIES,
        k <= MAX_LOCK_RETRIES,
        forall|i: int| 0 <= i < k ==> busy[i],
        !busy[k as int],
        k == 0 || k * 500 < timeout * 1000,
    ensures
        acquire_outcome(timeout, busy, 0) == (LockAttempt::Acquired, k * 500),
{
    lemma_acquire_from(timeout, busy, k, 0);
}

proof fn lemma_acquire_from(timeout: u32, busy: Seq<bool>, k: nat, from: nat)
    requires
        busy.len() > MAX_LOCK_RETRIES,
        from <= k <= MAX_LOCK_RETRIES,
        forall|i: int| 0 <= i < k ==> busy[i],
        !busy[k as int],
        k == 0 || k * 500 < timeout * 1000,
    ensures
        acquire_outcome(timeout, busy, from) == (LockAttempt::Acquired, k * 500),
    decreases k - from,
{
    if from < k {
        assert(busy[from as int]);
        lemma_acquire_from(timeout, busy, k, from + 1);
    }
}

/// A caller that finds the channel held at every attempt gives up with
/// `TimedOut`: after three back-offs of 500 ms, 1500 ms in all, where the
/// channel's time limit is 2 s or more, and at the first attempt after the
/// time limit has run out where it is less.
pub proof fn lemma_acquire_never_released(timeout: u32, busy: Seq<bool>)
    requires
        busy.len() > MAX_LOCK_RETRIES,
        forall|i: int| 0 <= i <= MAX_LOCK_RETRIES ==> busy[i],
    ensures
        acquire_outcome(timeout, busy, 0) == (
            LockAttempt::TimedOut,
            if timeout == 0 {
                500nat
            } else if timeout == 1 {
                1000nat
            } else {
                1500nat
            },
        ),
{
    assert(busy[0] && busy[1] && busy[2] && busy[3]);
    assert(acquire_outcome(timeout, busy, 3).0 == LockAttempt::TimedOut);
    if timeout == 0 {
        assert(acquire_outcome(timeout, busy, 1) == (LockAttempt::TimedOut, 500nat));
    } else if timeout == 1 {
        assert(acquire_outcome(timeout, busy, 2) == (LockAttempt::TimedOut, 1000nat));
        assert(acquire_outcome(timeout, busy, 1) == acquire_outcome(timeout, busy, 2));
    } else {
        assert(acquire_outcome(timeout, busy, 3) == (LockAttempt::TimedOut, 1500nat));
        assert(acquire_outcome(timeout, busy, 2) == acquire_outcome(timeout, busy, 3));
        assert(acquire_outcome(timeout, busy, 1) == acquire_outcome(timeout, busy, 2));
    }
    assert(acquire_outcome(timeout, busy, 0) == acquire_outcome(timeout, busy, 1));
}

/// Parity of a serial line.
#[derive(Clone, Copy, Debug, PartialEq, Eq, Structural)]
pub enum Parity {
    Disabled,
    Odd,
    Even,
}

/// The parameters a serial port is opened with.
#[derive(Debug)]
pub struct SerialSettings {
    pub port: String,
    pub baud_rate: u32,
    pub data_bits: u8,
    pub stop_bits: u8,
    pub parity: Parity,
    pub timeout_secs: u64,
}

/// What is seen of a channel: its port and settings, who holds it, and
/// whether its connection is open.
pub struct SerialView {
    pub port: Seq<char>,
    pub baud_rate: u32,
    pub timeout: u32,
    pub holder: Option<Seq<char>>,
    pub connected: bool,
}

/// `s` are the parameters a channel of this kind is opened with: its port,
/// baud rate and read timeout, 8 data bits, 1 stop bit and no parity.
pub open spec fn opens_with(channel: SerialView, s: SerialSettings) -> bool {
    &&& s.port@ == channel.port
    &&& s.baud_rate == channel.baud_rate
    &&& s.data_bits == 8
    &&& s.stop_bits == 1
    &&& s.parity == Parity::Disabled
    &&& s.timeout_secs == channel.timeout
}

/// What a channel makes of a client's answer: the registers as they came, or
/// `Transport` for every error of the client.
pub open spec fn transport_reply(answer: Result<Vec<u16>, MeterError>) -> Result<
    Vec<u16>,
    ErrorKind,
> {
    match answer {
        Ok(registers) => Ok(registers),
        Err(_) => Err(ErrorKind::Transport),
    }
}

/// One read as a client sees it: `direct` is the call that points the client
/// `start` to the device `slave`, and `read` is the call that asks for
/// `quantity` input registers at `address` and is given `answer`.
pub open spec fn exchange<C: ModbusClient>(
    direct: &mut C,
    read: &mut C,
    start: C,
    slave: u8,
    address: u16,
    quantity: u16,
    answer: Result<Vec<u16>, MeterError>,
) -> bool {
    &&& mut_ref_current(direct) == start
    &&& call_ensures(C::set_slave, (direct, slave), ())
    &&& call_ensures(C::read_input_registers, (read, address, quantity), answer)
}

/// A channel that was just made: nobody holds it and it is not open.
pub open spec fn fresh_channel(port: Seq<char>, baud_rate: u32, timeout: u32) -> SerialView {
    SerialView { port, baud_rate, timeout, holder: None, connected: false }
}

/// The one connection to a serial port, with the lock that lets one meter at a
/// time talk on it. `C` is the client that is attached once the port is open.
pub struct SharedSerial<C> {
    ctx: Option<C>,
    port: String,
    baud_rate: u32,
    timeout: u32,
    holder: Option<String>,
}

impl<C> View for SharedSerial<C> {
    type V = SerialView;

    closed spec fn view(&self) -> SerialView {
        SerialView {
            port: self.port@,
            baud_rate: self.baud_rate,
            timeout: self.timeout,
            holder: match self.holder {
                Some(name) => Some(name@),
                None => None,
            },
            connected: self.ctx is Some,
        }
    }
}

impl<C> SharedSerial<C> {
    /// The attached client, if the connection is open.
    pub closed spec fn client(&self) -> Option<C> {
        self.ctx
    }

    /// A channel for `port` that nobody holds and that is not yet open.
    pub fn new(port: String, baud_rate: u32, timeout: u32) -> (serial: Self)
        ensures
            serial@ == fresh_channel(port@, baud_rate, timeout),
            serial.client() is None,
    {
        SharedSerial { ctx: None, port, baud_rate, timeout, holder: None }
    }

    /// One attempt of `meter_name` to take the channel, under the retry
    /// policy alone.
    pub fn _acquire_lock(&mut self, meter_name: &str, retry_count: u32) -> (attempt: LockAttempt)
        ensures
            attempt == lock_step(old(self)@.holder is Some, retry_count),
            final(self).client() == old(self).client(),
            final(self)@ == if attempt == LockAttempt::Acquired {
                (SerialView { holder: Some(meter_name@), ..old(self)@ })
            } else {
                old(self)@
            },
    {
        if self.holder.is_none() {
            self.holder = Some(meter_name.to_owned());
            LockAttempt::Acquired
        } else if retry_count >= MAX_LOCK_RETRIES {
            LockAttempt::TimedOut
        } else {
            LockAttempt::Wait { millis: LOCK_BACKOFF_MILLIS }
        }
    }

    /// One attempt of `meter_name` to take the channel, after it has waited
    /// `waited_millis` in `retry_count` back-offs. The attempt is not made once
    /// the channel's time limit has run out.
    pub fn acquire_lock(&mut self, meter_name: &str, retry_count: u32, waited_millis: u64) -> (attempt:
        LockAttempt)
        ensures
            attempt == acquire_step(
                old(self)@.timeout,
                old(self)@.holder is Some,
                retry_count,
                waited_millis,
            ),
            final(self).client() == old(self).client(),
            final(self)@ == if attempt == LockAttempt::Acquired {
                (SerialView { holder: Some(meter_name@), ..old(self)@ })
            } else {
                old(self)@
            },
    {
        if waited_millis > 0 && waited_millis >= (self.timeout as u64) * 1000 {
            LockAttempt::TimedOut
        } else {
            self._acquire_lock(meter_name, retry_count)
        }
    }

    /// Gives the channel up. Afterwards nobody holds it.
    pub fn release_lock(&mut self, meter_name: &str)
        ensures
            final(self).client() == old(self).client(),
            final(self)@ == (SerialView { holder: None, ..old(self)@ }),
    {
        self.holder = None;
    }

    /// The parameters to open the port with: 8 data bits, 1 stop bit, no
    /// parity, and the channel's baud rate and read timeout.
    pub fn settings(&self) -> (s: SerialSettings)
        ensures
            opens_with(self@, s),
    {
        SerialSettings {
            port: self.port.clone(),
            baud_rate: self.baud_rate,
            data_bits: 8,
            stop_bits: 1,
            parity: Parity::Disabled,
            timeout_secs: self.timeout as u64,
        }
    }

    pub fn port(&self) -> (p: &String)
        ensures
            p@ == self@.port,
    {
        &self.port
    }

    pub fn timeout(&self) -> (t: u32)
        ensures
            t == self@.timeout,
    {
        self.timeout
    }

    pub fn is_connected(&self) -> (c: bool)
        ensures
            c == self@.connected,
            c == self.client() is Some,
    {
        self.ctx.is_some()
    }
}

impl<C: ModbusClient> SharedSerial<C> {
    /// Attaches the client of a port that was just opened.
    pub fn attach(&mut self, client: C)
        ensures
            final(self).client() == Some(client),
            final(self)@ == (SerialView { connected: true, ..old(self)@ }),
    {
        self.ctx = Some(client);
    }

    /// Reads `quantity` input registers at `address` from the device with
    /// address `slave`.
    ///
    /// On an open connection the attached client is pointed to `slave` and
    /// then asked for the registers; the result is its answer, with every
    /// error of the client turned into `Transport`, and the channel keeps the
    /// client as the two calls left it. Without a connection the read fails
    /// with `Transport` and no call is made. What is seen of the channel stays
    /// as it is.
    pub fn read_registers(&mut self, slave: u8, address: u16, quantity: u16) -> (reply: Result<
        Vec<u16>,
        ErrorKind,
    >)
        ensures
            final(self)@ == old(self)@,
            reply is Err ==> reply == Err::<Vec<u16>, ErrorKind>(ErrorKind::Transport),
            !old(self)@.connected ==> reply is Err,
            old(self)@.connected == old(self).client() is Some,
            match old(self).client() {
                Some(start) => exists|
                    direct: &mut C,
                    read: &mut C,
                    answer: Result<Vec<u16>, MeterError>,
                |
                    {
                        &&& #[trigger] exchange(direct, read, start, slave, address, quantity, answer)
                        &&& *read == *final(direct)
                        &&& final(self).client() == Some(*final(read))
                        &&& reply == transport_reply(answer)
                    },
                None => final(self).client() is None,
            },
    {
        let ghost start = self.ctx;
        match &mut self.ctx {
            Some(client) => {
                client.set_slave(slave);
                let answer = client.read_input_registers(address, quantity);
                proof {
                    let (direct, read) = choose|direct: &mut C, read: &mut C|
                        *direct == start->Some_0 && #[trigger] call_ensures(
                            C::set_slave,
                            (direct, slave),
                            (),
                        ) && *read == *final(direct) && #[trigger] call_ensures(
                            C::read_input_registers,
                            (read, address, quantity),
                            answer,
                        ) && *final(read) == *client;
                    assert(exchange(direct, read, start->Some_0, slave, address, quantity, answer));
                }
                match answer {
                    Ok(registers) => Ok(registers),
                    Err(_) => Err(ErrorKind::Transport),
                }
            },
            None => Err(ErrorKind::Transport),
        }
    }
}

/// A channel that nobody holds is granted to the next caller at its first
/// attempt, whoever held it before and however that caller's cycle ended.
pub proof fn lemma_free_channel_is_granted(channel: SerialView, retry_count: u32)
    requires
        channel.holder is None,
    ensures
        lock_step(channel.holder is Some, retry_count) == LockAttempt::Acquired,
        acquire_step(channel.timeout, channel.holder is Some, retry_count, 0)
            == LockAttempt::Acquired,
{
}

/// What every meter can tell of itself.
pub trait MeterReader {
    /// The read timeout, in seconds.
    fn get_timeout(&self) -> u64;

    /// Seconds between two polling cycles.
    fn get_polling_rate(&self) -> u32;
}

impl<H> MeterReader for SDM72DMeter<H> {
    fn get_timeout(&self) -> (secs: u64)
        ensures
            secs == self.timeout(),
    {
        SDM72DMeter::get_timeout(self)
    }

    fn get_polling_rate(&self) -> (rate: u32)
        ensures
            rate == self.polling_rate(),
    {
        SDM72DMeter::get_polling_rate(self)
    }
}

impl MeterReader for MockMeter {
    fn get_timeout(&self) -> (secs: u64)
        ensures
            secs == 5,
    {
        MockMeter::get_timeout(self)
    }

    fn get_polling_rate(&self) -> (rate: u32)
        ensures
            rate == 10,
    {
        MockMeter::get_polling_rate(self)
    }
}

/// A meter of one of the known kinds.
pub enum Meter<H> {
    Sdm72d(SDM72DMeter<H>),
    Mock(MockMeter),
}

impl<H> MeterReader for Meter<H> {
    fn get_timeout(&self) -> (secs: u64)
        ensures
            secs == match *self {
                Meter::Sdm72d(m) => m.timeout() as u64,
                Meter::Mock(_) => 5,
            },
    {
        match self {
            Meter::Sdm72d(m) => SDM72DMeter::get_timeout(m),
            Meter::Mock(m) => MockMeter::get_timeout(m),
        }
    }

    fn get_polling_rate(&self) -> (rate: u32)
        ensures
            rate == match *self {
                Meter::Sdm72d(m) => m.polling_rate(),
                Meter::Mock(_) => 10,
            },
    {
        match self {
            Meter::Sdm72d(m) => SDM72DMeter::get_polling_rate(m),
            Meter::Mock(m) => MockMeter::get_polling_rate(m),
        }
    }
}

/// The channels in use, one per port name. `H` is the handle under which a
/// channel is shared among the meters of its port.
pub struct SerialRegistry<H> {
    ports: Vec<String>,
    handles: Vec<H>,
}

impl<H: Clone> SerialRegistry<H> {
    /// The names of the ports that have a channel, in the order of creation.
    pub closed spec fn ports(&self) -> Seq<Seq<char>> {
        self.ports@.map_values(|p: String| p@)
    }

    /// The handle kept for each port, under the port's index.
    pub closed spec fn handles(&self) -> Seq<H> {
        self.handles@
    }

    /// Each port has one handle, and no port occurs twice.
    pub open spec fn wf(&self) -> bool {
        &&& self.ports().len() == self.handles().len()
        &&& self.ports().no_duplicates()
    }

    pub fn new() -> (registry: Self)
        ensures
            registry.wf(),
            registry.ports().len() == 0,
    {
        SerialRegistry { ports: Vec::new(), handles: Vec::new() }
    }

    /// The handle of the channel for `port`, made on the first request.
    ///
    /// For a port that has a channel, the result is a clone of the handle
    /// kept for it, whatever `baud_rate` and `timeout` say, and the registry
    /// stays as it is. For a new port a fresh channel is made, `share` turns
    /// it into the handle that is returned, and a clone of that handle is kept.
    pub fn get_or_create_shared_serial<C, F: FnOnce(SharedSerial<C>) -> H>(
        &mut self,
        port: String,
        baud_rate: u32,
        timeout: u32,
        share: F,
    ) -> (handle: H)
        requires
            old(self).wf(),
            forall|serial: SharedSerial<C>| #[trigger] share.requires((serial,)),
        ensures
            final(self).wf(),
            final(self).ports().contains(port@),
            old(self).ports().contains(port@) ==> {
                &&& final(self).ports() == old(self).ports()
                &&& final(self).handles() == old(self).handles()
                &&& cloned(old(self).handles()[old(self).ports().index_of(port@)], handle)
            },
            !old(self).ports().contains(port@) ==> {
                &&& final(self).ports() == old(self).ports().push(port@)
                &&& final(self).handles().len() == old(self).handles().len() + 1
                &&& final(self).handles().drop_last() == old(self).handles()
                &&& cloned(handle, final(self).handles().last())
                &&& exists|serial: SharedSerial<C>|
                    serial@ == fresh_channel(port@, baud_rate, timeout) && serial.client() is None
                        && #[trigger] share.ensures((serial,), handle)
            },
    {
        let mut i: usize = 0;
        while i < self.ports.len()
            invariant
                self.wf(),
                self.ports() == old(self).ports(),
                self.handles() == old(self).handles(),
                i <= self.ports.len(),
                self.ports.len() == self.ports().len(),
                forall|j: int| 0 <= j < i ==> self.ports()[j] != port@,
            decreases self.ports.len() - i,
        {
            assert(self.ports()[i as int] == self.ports@[i as int]@);
            if self.ports[i] == port {
                proof {
                    assert(self.ports().contains(port@));
                    let k = self.ports().index_of(port@);
                    assert(self.ports()[k] == port@);
                    assert(k == i);
                }
                return self.handles[i].clone();
            }
            i += 1;
        }
        let serial = SharedSerial::new(port.clone(), baud_rate, timeout);
        let handle = share(serial);
        let kept = handle.clone();
        self.ports.push(port);
        self.handles.push(kept);
        proof {
            assert(self.ports() =~= old(self).ports().push(port@));
            assert(self.handles().drop_last() =~= old(self).handles());
            assert(self.ports()[old(self).ports().len() as int] == port@);
            assert forall|a: int, b: int|
                0 <= a < self.ports().len() && 0 <= b < self.ports().len() && a != b implies self.ports()[a]
                != self.ports()[b] by {
                if a < old(self).ports().len() && b < old(self).ports().len() {
                } else if a < old(self).ports().len() {
                    assert(self.ports()[a] == old(self).ports()[a]);
                } else {
                    assert(self.ports()[b] == old(self).ports()[b]);
                }
            }
        }
        handle
    }
}

/// Makes the meter that a configuration entry describes.
///
/// An SDM72D meter gets the channel of its port from the registry, which
/// makes a fresh channel with the given baud rate and timeout if the port has
/// none yet. A simulated meter needs no channel, and the registry stays as
/// it is.
pub fn create_meter<C, H: Clone, F: FnOnce(SharedSerial<C>) -> H>(
    registry: &mut SerialRegistry<H>,
    share: F,
    name: String,
    meter_type: MeterType,
    port: String,
    baud_rate: u32,
    polling_rate: u32,
    modbus_address: u8,
    timeout: u32,
) -> (meter: Meter<H>)
    requires
        old(registry).wf(),
        forall|serial: SharedSerial<C>| #[trigger] share.requires((serial,)),
    ensures
        final(registry).wf(),
        match meter_type {
            MeterType::Sdm72d => {
                &&& meter matches Meter::Sdm72d(m)
                &&& m.name() == name@
                &&& m.address() == modbus_address
                &&& m.polling_rate() == polling_rate
                &&& m.timeout() == timeout
                &&& final(registry).ports().contains(port@)
                &&& old(registry).ports().contains(port@) ==> {
                    &&& final(registry).ports() == old(registry).ports()
                    &&& final(registry).handles() == old(registry).handles()
                    &&& cloned(
                        old(registry).handles()[old(registry).ports().index_of(port@)],
                        m.channel(),
                    )
                }
                &&& !old(registry).ports().contains(port@) ==> {
                    &&& final(registry).ports() == old(registry).ports().push(port@)
                    &&& final(registry).handles().len() == old(registry).handles().len() + 1
                    &&& final(registry).handles().drop_last() == old(registry).handles()
                    &&& cloned(m.channel(), final(registry).handles().last())
                    &&& exists|serial: SharedSerial<C>|
                        serial@ == fresh_channel(port@, baud_rate, timeout) && serial.client() is None
                            && #[trigger] share.ensures((serial,), m.channel())
                }
            },
            MeterType::Mock => {
                &&& meter matches Meter::Mock(m)
                &&& m.name() == name@
                &&& m.accumulated() == 0
                &&& m.last_update() is None
                &&& final(registry).ports() == old(registry).ports()
                &&& final(registry).handles() == old(registry).handles()
            },
        },
{
    match meter_type {
        MeterType::Sdm72d => {
            let shared_serial = registry.get_or_create_shared_serial(port, baud_rate, timeout, share);
            Meter::Sdm72d(
                SDM72DMeter::new(name, shared_serial, modbus_address, polling_rate, timeout),
            )
        },
        MeterType::Mock => Meter::Mock(MockMeter::new(name)),
    }
}

} // verus!
