//! The figures that a status page shows of the store.

use vstd::prelude::*;
use crate::database_sync::{DatabaseSync, StoreView};
use crate::model::Sample;

verus! {

#[derive(Debug)]
pub struct SystemStatus {
    pub database_size_bytes: u64,
    pub database_path: String,
    pub meters_count: usize,
    pub last_write: Option<i64>,
    pub total_records: i64,
    pub uptime_seconds: u64,
}

/// The latest state of one meter. `last_power_reading` is the bit pattern of
/// a single-precision value.
#[derive(Debug)]
pub struct MeterStatus {
    pub meter_name: String,
    pub last_reading_timestamp: Option<i64>,
    pub last_power_reading: u32,
    pub total_readings: i64,
}

/// How many of the first `n` meters have at least one row.
pub open spec fn with_rows(series: Seq<Seq<Sample>>, n: nat) -> nat
    decreases n,
{
    if n == 0 {
        0
    } else {
        with_rows(series, (n - 1) as nat) + if series[n - 1].len() > 0 {
            1nat
        } else {
            0nat
        }
    }
}

/// How many rows the first `n` meters have together.
pub open spec fn row_count(series: Seq<Seq<Sample>>, n: nat) -> nat
    decreases n,
{
    if n == 0 {
        0
    } else {
        row_count(series, (n - 1) as nat) + series[n - 1].len()
    }
}

/// `t` is the timestamp of some row.
pub open spec fn is_written(v: StoreView, t: i64) -> bool {
    exists|id: int, i: int|
        0 <= id < v.series.len() && 0 <= i < v.series[id].len() && (
        #[trigger] v.series[id][i]).timestamp == t
}

/// No row is later than `t`.
pub open spec fn none_later(v: StoreView, t: i64) -> bool {
    forall|id: int, i: int|
        0 <= id < v.series.len() && 0 <= i < v.series[id].len() ==> (
        #[trigger] v.series[id][i]).timestamp <= t
}

/// The number of meters that have at least one row.
pub fn get_unique_meters<E: Fn(u32) -> i16, D: Fn(i16) -> u32>(db: &DatabaseSync<E, D>) -> (n:
    usize)
    requires
        db.wf(),
    ensures
        n == with_rows(db@.series, db@.series.len()),
{
    let count = db.meter_count();
    let mut n: usize = 0;
    let mut id: usize = 0;
    while id < count
        invariant
            db.wf(),
            count == db@.series.len(),
            id <= count <= 256,
            n == with_rows(db@.series, id as nat),
            n <= id,
        decreases count - id,
    {
        if db.samples(id as u8).len() > 0 {
            n += 1;
        }
        id += 1;
    }
    n
}

/// The number of rows, or `i64::MAX` where there are more.
pub fn get_total_records<E: Fn(u32) -> i16, D: Fn(i16) -> u32>(db: &DatabaseSync<E, D>) -> (n:
    i64)
    requires
        db.wf(),
    ensures
        n == if row_count(db@.series, db@.series.len()) <= i64::MAX {
            row_count(db@.series, db@.series.len()) as int
        } else {
            i64::MAX as int
        },
{
    let count = db.meter_count();
    let mut n: i64 = 0;
    let mut id: usize = 0;
    while id < count
        invariant
            db.wf(),
            count == db@.series.len(),
            id <= count <= 256,
            n == if row_count(db@.series, id as nat) <= i64::MAX {
                row_count(db@.series, id as nat) as int
            } else {
                i64::MAX as int
            },
        decreases count - id,
    {
        let len = db.samples(id as u8).len();
        if len as u64 > (i64::MAX - n) as u64 {
            n = i64::MAX;
        } else {
            n = n + len as i64;
        }
        id += 1;
    }
    n
}

/// The timestamp of the latest row; `None` for a store without rows.
pub fn get_last_write<E: Fn(u32) -> i16, D: Fn(i16) -> u32>(db: &DatabaseSync<E, D>) -> (last:
    Option<i64>)
    requires
        db.wf(),
    ensures
        match last {
            Some(t) => is_written(db@, t) && none_later(db@, t),
            None => forall|id: int| 0 <= id < db@.series.len() ==> (#[trigger] db@.series[id]).len() == 0,
        },
{
    let count = db.meter_count();
    let mut last: Option<i64> = None;
    let mut id: usize = 0;
    while id < count
        invariant
            db.wf(),
            count == db@.series.len(),
            id <= count <= 256,
            match last {
                Some(t) => is_written(db@, t) && forall|k: int, i: int|
                    0 <= k < id && 0 <= i < db@.series[k].len() ==> (
                    #[trigger] db@.series[k][i]).timestamp <= t,
                None => forall|k: int| 0 <= k < id ==> (#[trigger] db@.series[k]).len() == 0,
            },
        decreases count - id,
    {
        let series = db.samples(id as u8);
        let len = series.len();
        if len > 0 {
            let t = series[len - 1].timestamp;
            proof {
                assert(db@.series[id as int][len - 1].timestamp == t);
                assert forall|i: int| 0 <= i < len implies (
                #[trigger] db@.series[id as int][i]).timestamp <= t by {
                    if i < len - 1 {
                    }
                }
            }
            let newer = match last {
                Some(u) => t > u,
                None => true,
            };
            if newer {
                last = Some(t);
            }
        }
        id += 1;
    }
    last
}

/// The status of the store, with the size of its file and the uptime as the
/// caller measured them.
pub fn handle_status<E: Fn(u32) -> i16, D: Fn(i16) -> u32>(
    db: &DatabaseSync<E, D>,
    database_size_bytes: u64,
    uptime_seconds: u64,
) -> (status: SystemStatus)
    requires
        db.wf(),
    ensures
        status.database_size_bytes == database_size_bytes,
        status.uptime_seconds == uptime_seconds,
        status.database_path@ == db.location(),
        status.meters_count == with_rows(db@.series, db@.series.len()),
        status.total_records == if row_count(db@.series, db@.series.len()) <= i64::MAX {
            row_count(db@.series, db@.series.len()) as int
        } else {
            i64::MAX as int
        },
        match status.last_write {
            Some(t) => is_written(db@, t) && none_later(db@, t),
            None => forall|id: int| 0 <= id < db@.series.len() ==> (#[trigger] db@.series[id]).len() == 0,
        },
{
    SystemStatus {
        database_size_bytes,
        database_path: db.get_database_path(),
        meters_count: get_unique_meters(db),
        last_write: get_last_write(db),
        total_records: get_total_records(db),
        uptime_seconds,
    }
}

/// The latest state of the meter registered under `meter_id`: its name, the
/// time and the decoded power of its newest row, and the number of its rows
/// (`i64::MAX` where there are more). `None` for an id that is not in use and
/// for a meter without rows.
pub fn meter_status<E: Fn(u32) -> i16, D: Fn(i16) -> u32>(db: &DatabaseSync<E, D>, meter_id: u8) -> (status:
    Option<MeterStatus>)
    requires
        db.wf(),
    ensures
        match status {
            Some(s) => {
                let series = db@.series[meter_id as int];
                &&& meter_id < db@.names.len()
                &&& series.len() > 0
                &&& s.meter_name@ == db@.names[meter_id as int]
                &&& s.last_reading_timestamp == Some(series.last().timestamp)
                &&& db.decoder().ensures((series.last().total_power,), s.last_power_reading)
                &&& s.total_readings == if series.len() <= i64::MAX {
                    series.len() as int
                } else {
                    i64::MAX as int
                }
            },
            None => meter_id >= db@.names.len() || db@.series[meter_id as int].len() == 0,
        },
{
    let name = match db.meter_name(meter_id) {
        Some(name) => name,
        None => {
            return None;
        },
    };
    let series = db.samples(meter_id);
    let len = series.len();
    if len == 0 {
        return None;
    }
    let newest = series[len - 1];
    let total: i64 = if len as u64 > i64::MAX as u64 {
        i64::MAX
    } else {
        len as i64
    };
    Some(
        MeterStatus {
            meter_name: name,
            last_reading_timestamp: Some(newest.timestamp),
            last_power_reading: db.f16_to_f32(newest.total_power),
            total_readings: total,
        },
    )
}

} // verus!
