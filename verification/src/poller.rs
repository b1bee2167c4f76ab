//! What a polling task does with the outcome of one cycle.

use vstd::prelude::*;
use crate::database_sync::{DatabaseSync, MAX_METERS};
use crate::error::ErrorKind;
use crate::model::{Model, Sample};

verus! {

/// Seconds to wait after a failed cycle; they take the place of the polling
/// interval.
pub const ERROR_COOLDOWN: u64 = 30;

/// What became of one cycle, and how long to wait before the next.
#[derive(Clone, Copy, Debug, PartialEq, Eq, Structural)]
pub struct PollReport {
    /// The reading was stored.
    pub stored: bool,
    /// The error that ended the cycle or kept the reading out of the store.
    pub error: Option<ErrorKind>,
    /// Seconds until the next cycle.
    pub delay: u64,
}

/// Seconds until the next cycle: the cooldown after a failed read, the
/// polling interval otherwise.
pub open spec fn next_delay(read_ok: bool, polling_rate: u32) -> u64 {
    if read_ok {
        polling_rate as u64
    } else {
        ERROR_COOLDOWN
    }
}

/// Deals with the outcome of one polling cycle.
///
/// A reading goes to the store, and the next cycle follows after the polling
/// interval, also where the store refused the reading: that reading is
/// lost. A failed cycle leaves the store alone and is followed by the
/// cooldown.
pub fn handle_meter<E: Fn(u32) -> i16, D: Fn(i16) -> u32>(
    db: &mut DatabaseSync<E, D>,
    outcome: Result<Model, ErrorKind>,
    polling_rate: u32,
) -> (report: PollReport)
    requires
        old(db).wf(),
    ensures
        final(db).wf(),
        final(db).encoder() == old(db).encoder(),
        final(db).decoder() == old(db).decoder(),
        final(db).location() == old(db).location(),
        report.delay == next_delay(outcome is Ok, polling_rate),
        match outcome {
            Err(e) => report.error == Some(e) && !report.stored && final(db)@ == old(db)@,
            Ok(reading) => {
                let known = old(db)@.register(reading@.meter_name);
                if old(db)@.knows(reading@.meter_name) || old(db)@.names.len() < MAX_METERS {
                    &&& report.stored
                    &&& report.error is None
                    &&& exists|x: Sample|
                        #![trigger known.store(known.id_of(reading@.meter_name), x)]
                        old(db).packs(reading@, x) && final(db)@ == known.store(
                            known.id_of(reading@.meter_name),
                            x,
                        )
                } else {
                    &&& !report.stored
                    &&& report.error == Some(ErrorKind::CapacityExceeded)
                    &&& final(db)@ == old(db)@
                }
            },
        },
{
    match outcome {
        Ok(reading) => {
            proof {
                crate::database_sync::lemma_register(db@, reading@.meter_name);
            }
            match db.insert_meter_reading(&reading) {
                Ok(()) => PollReport {
                    stored: true,
                    error: None,
                    delay: polling_rate as u64,
                },
                Err(e) => PollReport { stored: false, error: Some(e), delay: polling_rate as u64 },
            }
        },
        Err(e) => PollReport { stored: false, error: Some(e), delay: ERROR_COOLDOWN },
    }
}

} // verus!
