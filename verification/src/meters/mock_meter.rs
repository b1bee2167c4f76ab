//! A meter without hardware, for trials and demonstrations.

use vstd::prelude::*;
use crate::model::Model;

verus! {

/// Bit pattern of `+infinity` in single precision; the patterns above it, up
/// to the sign bit, are NaNs.
pub const POSITIVE_INFINITY: u32 = 0x7F80_0000;

pub const SIGN_BIT: u32 = 0x8000_0000;

/// The greater of a single-precision value and zero, on bit patterns: a
/// positive number or `+infinity` stays, everything else becomes `+0.0`.
pub open spec fn positive_part(bits: u32) -> u32 {
    if bits <= POSITIVE_INFINITY {
        bits
    } else {
        0
    }
}

/// The bit pattern of the negated value: the sign bit flipped.
pub open spec fn negated(bits: u32) -> u32 {
    if bits >= SIGN_BIT {
        (bits - SIGN_BIT) as u32
    } else {
        (bits + SIGN_BIT) as u32
    }
}

pub fn positive_part_of(bits: u32) -> (r: u32)
    ensures
        r == positive_part(bits),
{
    if bits <= POSITIVE_INFINITY {
        bits
    } else {
        0
    }
}

pub fn negate(bits: u32) -> (r: u32)
    ensures
        r == negated(bits),
{
    if bits >= SIGN_BIT {
        bits - SIGN_BIT
    } else {
        bits + SIGN_BIT
    }
}

/// A simulated meter. It keeps the energy it has accumulated and the time of
/// its last reading, in milliseconds since the epoch.
pub struct MockMeter {
    name: String,
    kwh_accumulator: u32,
    last_update: Option<i64>,
}

impl MockMeter {
    pub closed spec fn name(&self) -> Seq<char> {
        self.name@
    }

    /// Bit pattern of the energy accumulated so far.
    pub closed spec fn accumulated(&self) -> u32 {
        self.kwh_accumulator
    }

    pub closed spec fn last_update(&self) -> Option<i64> {
        self.last_update
    }

    /// A meter that has not read yet: no energy, no last reading.
    pub fn new(name: String) -> (meter: Self)
        ensures
            meter.name() == name@,
            meter.accumulated() == 0,
            meter.last_update() is None,
    {
        MockMeter { name, kwh_accumulator: 0, last_update: None }
    }

    pub fn get_polling_rate(&self) -> (rate: u32)
        ensures
            rate == 10,
    {
        10
    }

    /// The read timeout, in seconds.
    pub fn get_timeout(&self) -> (secs: u64)
        ensures
            secs == 5,
    {
        5
    }

    /// Milliseconds since the last reading, as far as 64 bits can tell.
    pub open spec fn elapsed(last: Option<i64>, now_millis: i64) -> Option<i64> {
        match last {
            Some(t) => if i64::MIN <= now_millis - t <= i64::MAX {
                Some((now_millis - t) as i64)
            } else {
                None
            },
            None => None,
        }
    }

    /// A reading at `now_millis` milliseconds since the epoch. It never fails.
    ///
    /// `wave` is given the time in seconds, the milliseconds since the last
    /// reading (none at the first) and the energy accumulated so far; it gives
    /// the power and the energy accumulated now. The reading carries both,
    /// with the power split into its positive part as import and the positive
    /// part of its negation as export.
    pub fn get_value<W: Fn(i64, Option<i64>, u32) -> (u32, u32)>(
        &mut self,
        now_millis: i64,
        wave: &W,
    ) -> (reading: Model)
        requires
            forall|secs: i64, since: Option<i64>, kwh: u32| #[trigger] wave.requires((secs, since, kwh)),
        ensures
            final(self).name() == old(self).name(),
            final(self).last_update() == Some(now_millis),
            final(self).accumulated() == reading@.total_kwh,
            reading@.meter_name == old(self).name(),
            reading@.timestamp == now_millis as int / 1000,
            wave.ensures(
                (
                    reading@.timestamp,
                    Self::elapsed(old(self).last_update(), now_millis),
                    old(self).accumulated(),
                ),
                (reading@.total_power, reading@.total_kwh),
            ),
            reading@.import_power == positive_part(reading@.total_power),
            reading@.export_power == positive_part(negated(reading@.total_power)),
    {
        let secs: i64 = if now_millis >= 0 {
            now_millis / 1000
        } else {
            let q: i64 = (-(now_millis + 1)) / 1000;
            assert(now_millis as int / 1000 == -((-(now_millis + 1)) / 1000) - 1);
            -q - 1
        };
        let since: Option<i64> = match self.last_update {
            Some(t) => now_millis.checked_sub(t),
            None => None,
        };
        let (power, kwh) = wave(secs, since, self.kwh_accumulator);
        self.kwh_accumulator = kwh;
        self.last_update = Some(now_millis);
        Model {
            meter_name: self.name.clone(),
            timestamp: secs,
            total_power: power,
            import_power: positive_part_of(power),
            export_power: positive_part_of(negate(power)),
            total_kwh: kwh,
        }
    }
}

} // verus!
