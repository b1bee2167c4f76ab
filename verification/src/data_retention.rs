//! Retention: samples that have aged into a window are replaced, bucket by
//! bucket, by one summary sample each.

use vstd::prelude::*;
use crate::compaction::{age_limit, at_least, compacted, covers, export_powers, import_powers,
    in_slot, lemma_in_slot, lemma_later_untouched, lemma_slot_monotone, lemma_splice, max_kwh,
    rewritten, slot, slot_of, summarizes, total_powers, valid_interval, window_applied,
    window_pass, window_start};
use crate::database_sync::{DatabaseSync, StoreView};
use crate::error::ErrorKind;
use crate::model::Sample;
use crate::series::{ascending, between, lemma_rank, lemma_rank_is, lemma_rank_monotone, upper_bound};

verus! {

pub const HOUR: i64 = 3600;

pub const DAY: i64 = 86400;

pub const WEEK: i64 = 604800;

/// Seconds between two retention runs.
pub const RETENTION_PERIOD: u64 = 3600;

/// The retention engine, generic in the function that averages a column of
/// half-precision values.
pub struct RetentionService<A> {
    average: A,
}

impl<A: Fn(&Vec<i16>) -> i16> RetentionService<A> {
    pub closed spec fn averager(&self) -> A {
        self.average
    }

    /// The averaging function accepts every non-empty column.
    pub open spec fn wf(&self) -> bool {
        forall|v: &Vec<i16>| v@.len() > 0 ==> #[trigger] self.averager().requires((v,))
    }

    pub fn new(average: A) -> (service: Self)
        requires
            forall|v: &Vec<i16>| v@.len() > 0 ==> #[trigger] average.requires((v,)),
        ensures
            service.wf(),
            service.averager() == average,
    {
        RetentionService { average }
    }

    /// Summarizes the samples of one bucket; `None` for an empty one. A
    /// bucket of one sample is summarized by that sample, without averaging.
    pub fn aggregate_data_points(&self, readings: &Vec<Sample>) -> (out: Option<Sample>)
        requires
            self.wf(),
        ensures
            match out {
                Some(x) => summarizes(self.averager(), readings@, x),
                None => readings@.len() == 0,
            },
    {
        let n = readings.len();
        if n == 0 {
            return None;
        }
        if n == 1 {
            return Some(readings[0]);
        }
        let mut total: Vec<i16> = Vec::new();
        let mut import: Vec<i16> = Vec::new();
        let mut export: Vec<i16> = Vec::new();
        let mut kwh: u32 = readings[0].total_kwh;
        let mut i: usize = 0;
        while i < n
            invariant
                n == readings.len(),
                0 <= i <= n,
                total@ == total_powers(readings@.take(i as int)),
                import@ == import_powers(readings@.take(i as int)),
                export@ == export_powers(readings@.take(i as int)),
                i > 0 ==> kwh == max_kwh(readings@.take(i as int)),
                i == 0 ==> kwh == readings@[0].total_kwh,
            decreases n - i,
        {
            let x = readings[i];
            total.push(x.total_power);
            import.push(x.import_power);
            export.push(x.export_power);
            if i > 0 && at_least(x.total_kwh, kwh) {
                kwh = x.total_kwh;
            }
            proof {
                let now = readings@.take(i + 1);
                let was = readings@.take(i as int);
                assert(now.drop_last() =~= was);
                assert(now.last() == readings@[i as int]);
                assert(total_powers(now) =~= total_powers(was).push(x.total_power));
                assert(import_powers(now) =~= import_powers(was).push(x.import_power));
                assert(export_powers(now) =~= export_powers(was).push(x.export_power));
                if i == 0 {
                    assert(now[0] == readings@[0]);
                }
            }
            i += 1;
        }
        assert(readings@.take(n as int) =~= readings@);
        assert(self.averager().requires((&total,)));
        assert(self.averager().requires((&import,)));
        assert(self.averager().requires((&export,)));
        let out = Sample {
            timestamp: readings[n / 2].timestamp,
            total_power: (self.average)(&total),
            import_power: (self.average)(&import),
            export_power: (self.average)(&export),
            total_kwh: kwh,
        };
        Some(out)
    }

    /// Compacts the samples `series[from..to]` into buckets of `width` seconds.
    fn compact(&self, series: &Vec<Sample>, from: usize, to: usize, width: i64) -> (dst: Vec<
        Sample,
    >)
        requires
            self.wf(),
            ascending(series@),
            from <= to <= series.len(),
            width > 0,
        ensures
            compacted(self.averager(), series@.subrange(from as int, to as int), dst@, width as int),
            ascending(dst@),
            forall|j: int|
                0 <= j < dst.len() ==> series@[from as int].timestamp <= (#[trigger] dst@[j]).timestamp
                    <= series@[to - 1].timestamp,
    {
        let ghost win = series@.subrange(from as int, to as int);
        let ghost w = width as int;
        let mut dst: Vec<Sample> = Vec::new();
        let mut i: usize = from;
        while i < to
            invariant
                self.wf(),
                ascending(series@),
                from <= i <= to <= series.len(),
                width > 0,
                w == width as int,
                win == series@.subrange(from as int, to as int),
                forall|k: int| 0 <= k < i - from ==> covers(dst@, (#[trigger] win[k]).timestamp as int, w),
                forall|j: int, k: int|
                    0 <= j < k < dst.len() ==> slot((#[trigger] dst@[j]).timestamp as int, w) < slot(
                        (#[trigger] dst@[k]).timestamp as int,
                        w,
                    ),
                forall|j: int|
                    0 <= j < dst.len() ==> summarizes(
                        self.averager(),
                        in_slot(win, slot((#[trigger] dst@[j]).timestamp as int, w), w),
                        dst@[j],
                    ),
                forall|j: int, k: int|
                    0 <= j < dst.len() && i <= k < to ==> slot((#[trigger] dst@[j]).timestamp as int, w)
                        < slot((#[trigger] series@[k]).timestamp as int, w),
                forall|k: int, m: int|
                    from <= k < i && i <= m < to ==> slot((#[trigger] series@[k]).timestamp as int, w)
                        < slot((#[trigger] series@[m]).timestamp as int, w),
                forall|j: int|
                    0 <= j < dst.len() ==> series@[from as int].timestamp <= (
                    #[trigger] dst@[j]).timestamp <= series@[to - 1].timestamp,
            decreases to - i,
        {
            let q = slot_of(series[i].timestamp, width);
            let mut run: Vec<Sample> = Vec::new();
            run.push(series[i]);
            let mut j: usize = i + 1;
            while j < to && slot_of(series[j].timestamp, width) == q
                invariant
                    i < j <= to <= series.len(),
                    width > 0,
                    w == width as int,
                    q == slot(series@[i as int].timestamp as int, w),
                    run@ == series@.subrange(i as int, j as int),
                    forall|k: int|
                        i <= k < j ==> slot((#[trigger] series@[k]).timestamp as int, w) == q,
                decreases to - j,
            {
                run.push(series[j]);
                assert(series@.subrange(i as int, j + 1) =~= series@.subrange(i as int, j as int).push(
                    series@[j as int],
                ));
                j += 1;
            }
            proof {
                assert forall|k: int| j <= k < to implies slot(
                    (#[trigger] series@[k]).timestamp as int,
                    w,
                ) > q by {
                    lemma_slot_monotone(series@[i as int].timestamp as int, series@[j as int].timestamp as int, w);
                    lemma_slot_monotone(series@[j as int].timestamp as int, series@[k].timestamp as int, w);
                }
                assert forall|k: int| 0 <= k < i - from implies slot(
                    (#[trigger] win[k]).timestamp as int,
                    w,
                ) < q by {
                    assert(win[k] == series@[from + k]);
                }
                assert forall|k: int| i - from <= k < j - from implies slot(
                    (#[trigger] win[k]).timestamp as int,
                    w,
                ) == q by {
                    assert(win[k] == series@[from + k]);
                }
                assert forall|k: int| j - from <= k < win.len() implies slot(
                    (#[trigger] win[k]).timestamp as int,
                    w,
                ) > q by {
                    assert(win[k] == series@[from + k]);
                }
                assert(ascending(win)) by {
                    assert forall|x: int, y: int| 0 <= x < y < win.len() implies win[x].timestamp
                        < win[y].timestamp by {
                        assert(win[x] == series@[from + x]);
                        assert(win[y] == series@[from + y]);
                    }
                }
                lemma_in_slot(win, q as int, w, i - from, j - from);
                assert(win.subrange(i - from, j - from) =~= run@);
            }
            let x = match self.aggregate_data_points(&run) {
                Some(x) => x,
                None => {
                    proof {
                        assert(false);
                    }
                    series[i]
                },
            };
            proof {
                let mid = run@.len() as int / 2;
                assert(run@[mid] == series@[i + mid]);
                assert(slot(x.timestamp as int, w) == q);
                assert(series@[from as int].timestamp <= x.timestamp) by {
                    if from < i + mid {
                    }
                }
                assert(x.timestamp <= series@[to - 1].timestamp) by {
                    if i + mid < to - 1 {
                    }
                }
            }
            let ghost before = dst@;
            dst.push(x);
            proof {
                assert forall|k: int| 0 <= k < j - from implies covers(
                    dst@,
                    (#[trigger] win[k]).timestamp as int,
                    w,
                ) by {
                    if k < i - from {
                        assert(covers(before, win[k].timestamp as int, w));
                        let h = choose|h: int|
                            0 <= h < before.len() && slot((#[trigger] before[h]).timestamp as int, w)
                                == slot(win[k].timestamp as int, w);
                        assert(dst@[h] == before[h]);
                    } else {
                        assert(dst@[before.len() as int] == x);
                    }
                }
                assert forall|h: int, k: int| 0 <= h < k < dst.len() implies slot(
                    (#[trigger] dst@[h]).timestamp as int,
                    w,
                ) < slot((#[trigger] dst@[k]).timestamp as int, w) by {
                    assert(dst@[h] == before[h]);
                    if k < before.len() {
                        assert(dst@[k] == before[k]);
                    } else {
                        assert(slot(before[h].timestamp as int, w) < slot(
                            series@[i as int].timestamp as int,
                            w,
                        ));
                    }
                }
                assert forall|h: int| 0 <= h < dst.len() implies summarizes(
                    self.averager(),
                    in_slot(win, slot((#[trigger] dst@[h]).timestamp as int, w), w),
                    dst@[h],
                ) by {
                    if h < before.len() {
                        assert(dst@[h] == before[h]);
                    }
                }
                assert forall|h: int, k: int| 0 <= h < dst.len() && j <= k < to implies slot(
                    (#[trigger] dst@[h]).timestamp as int,
                    w,
                ) < slot((#[trigger] series@[k]).timestamp as int, w) by {
                    if h < before.len() {
                        assert(dst@[h] == before[h]);
                    }
                }
                assert forall|h: int| 0 <= h < dst.len() implies series@[from as int].timestamp <= (
                #[trigger] dst@[h]).timestamp <= series@[to - 1].timestamp by {
                    if h < before.len() {
                        assert(dst@[h] == before[h]);
                    }
                }
            }
            i = j;
        }
        proof {
            assert forall|h: int, k: int| 0 <= h < k < dst.len() implies dst@[h].timestamp
                < dst@[k].timestamp by {
                if dst@[h].timestamp >= dst@[k].timestamp {
                    lemma_slot_monotone(dst@[k].timestamp as int, dst@[h].timestamp as int, w);
                }
            }
        }
        dst
    }

    /// Rewrites one window of one meter: the samples later than
    /// `end_timestamp` (if given) and not later than `start_timestamp` are
    /// replaced, in one step, by one summary per bucket of `interval_minutes`.
    ///
    /// Fails, and changes nothing, with `Configuration` exactly when the
    /// interval is not valid, else with `Storage` exactly when no meter is
    /// registered under `meter_id`.
    pub fn aggregate_meter_data<E: Fn(u32) -> i16, D: Fn(i16) -> u32>(
        &self,
        db: &mut DatabaseSync<E, D>,
        meter_id: u8,
        start_timestamp: i64,
        end_timestamp: Option<i64>,
        interval_minutes: i64,
    ) -> (r: Result<(), ErrorKind>)
        requires
            self.wf(),
            old(db).wf(),
        ensures
            final(db).wf(),
            final(db).encoder() == old(db).encoder(),
            final(db).decoder() == old(db).decoder(),
            final(db).location() == old(db).location(),
            match r {
                Ok(()) => {
                    &&& valid_interval(interval_minutes)
                    &&& meter_id < old(db)@.names.len()
                    &&& final(db)@.names == old(db)@.names
                    &&& final(db)@.series == old(db)@.series.update(
                        meter_id as int,
                        final(db)@.series[meter_id as int],
                    )
                    &&& rewritten(
                        self.averager(),
                        old(db)@.series[meter_id as int],
                        final(db)@.series[meter_id as int],
                        window_start(end_timestamp),
                        start_timestamp as int,
                        interval_minutes * 60,
                    )
                },
                Err(e) => {
                    &&& final(db)@ == old(db)@
                    &&& if !valid_interval(interval_minutes) {
                        e == ErrorKind::Configuration
                    } else {
                        e == ErrorKind::Storage && meter_id >= old(db)@.names.len()
                    }
                },
            },
    {
        if interval_minutes <= 0 || interval_minutes > i64::MAX / 60 {
            return Err(ErrorKind::Configuration);
        }
        let width: i64 = interval_minutes * 60;
        if meter_id as usize >= db.meter_count() {
            return Err(ErrorKind::Storage);
        }
        let series = db.samples(meter_id);
        let ghost before = series@;
        let ghost lo = window_start(end_timestamp);
        let ghost hi = start_timestamp as int;
        let from = match end_timestamp {
            Some(e) => upper_bound(series, e),
            None => 0,
        };
        let to = upper_bound(series, start_timestamp);
        proof {
            lemma_rank(before, lo);
            lemma_rank(before, hi + 1);
            if end_timestamp is None {
                lemma_rank_is(before, lo, 0);
            }
            lemma_rank_is(before, i64::MIN as int, 0);
            lemma_rank_is(before, i64::MAX + 1, before.len() as int);
        }
        if from >= to {
            proof {
                if lo <= hi {
                    lemma_rank_monotone(before, lo, hi + 1);
                }
                assert(between(before, lo, hi) =~= Seq::empty());
                assert(db@.series =~= db@.series.update(meter_id as int, before));
            }
            return Ok(());
        }
        proof {
            if lo > hi {
                lemma_rank_monotone(before, hi + 1, lo);
            }
            assert(before[from as int].timestamp >= lo);
            assert(before[to - 1].timestamp <= hi);
        }
        let dst = self.compact(series, from, to, width);
        let mut out: Vec<Sample> = Vec::new();
        let mut i: usize = 0;
        while i < from
            invariant
                i <= from <= series.len(),
                out@ == series@.take(i as int),
            decreases from - i,
        {
            out.push(series[i]);
            assert(series@.take(i + 1) =~= series@.take(i as int).push(series@[i as int]));
            i += 1;
        }
        let mut j: usize = 0;
        while j < dst.len()
            invariant
                j <= dst.len(),
                out@ == series@.take(from as int) + dst@.take(j as int),
            decreases dst.len() - j,
        {
            out.push(dst[j]);
            assert(dst@.take(j + 1) =~= dst@.take(j as int).push(dst@[j as int]));
            assert(series@.take(from as int) + dst@.take(j + 1) =~= (series@.take(from as int)
                + dst@.take(j as int)).push(dst@[j as int]));
            j += 1;
        }
        assert(dst@.take(dst.len() as int) =~= dst@);
        let mut k: usize = to;
        while k < series.len()
            invariant
                to <= k <= series.len(),
                out@ == series@.take(from as int) + dst@ + series@.subrange(to as int, k as int),
            decreases series.len() - k,
        {
            out.push(series[k]);
            assert(series@.subrange(to as int, k + 1) =~= series@.subrange(to as int, k as int).push(
                series@[k as int],
            ));
            assert(series@.take(from as int) + dst@ + series@.subrange(to as int, k + 1) =~= (
            series@.take(from as int) + dst@ + series@.subrange(to as int, k as int)).push(
                series@[k as int],
            ));
            k += 1;
        }
        proof {
            assert(series@.subrange(to as int, series.len() as int) =~= before.skip(to as int));
            lemma_splice(before, dst@, lo, hi, out@);
        }
        db.replace_series(meter_id, out);
        Ok(())
    }

    /// Applies one window to every registered meter, one meter at a time.
    ///
    /// Fails with `Configuration`, and changes nothing, exactly when the
    /// interval is not valid.
    pub fn process_time_window<E: Fn(u32) -> i16, D: Fn(i16) -> u32>(
        &self,
        db: &mut DatabaseSync<E, D>,
        start_time: i64,
        end_time: Option<i64>,
        interval_minutes: i64,
    ) -> (r: Result<(), ErrorKind>)
        requires
            self.wf(),
            old(db).wf(),
        ensures
            final(db).wf(),
            final(db).encoder() == old(db).encoder(),
            final(db).decoder() == old(db).decoder(),
            final(db).location() == old(db).location(),
            match r {
                Ok(()) => valid_interval(interval_minutes) && window_applied(
                    self.averager(),
                    old(db)@,
                    final(db)@,
                    window_start(end_time),
                    start_time as int,
                    interval_minutes * 60,
                ),
                Err(e) => e == ErrorKind::Configuration && !valid_interval(interval_minutes)
                    && final(db)@ == old(db)@,
            },
    {
        if interval_minutes <= 0 || interval_minutes > i64::MAX / 60 {
            return Err(ErrorKind::Configuration);
        }
        let ghost lo = window_start(end_time);
        let ghost hi = start_time as int;
        let ghost width = interval_minutes * 60;
        let count = db.meter_count();
        let mut id: usize = 0;
        while id < count
            invariant
                self.wf(),
                db.wf(),
                db.encoder() == old(db).encoder(),
                db.decoder() == old(db).decoder(),
                db.location() == old(db).location(),
                valid_interval(interval_minutes),
                lo == window_start(end_time),
                hi == start_time as int,
                width == interval_minutes * 60,
                id <= count <= 256,
                count == old(db)@.names.len(),
                db@.names == old(db)@.names,
                db@.series.len() == old(db)@.series.len(),
                forall|k: int|
                    0 <= k < id ==> rewritten(
                        self.averager(),
                        #[trigger] old(db)@.series[k],
                        db@.series[k],
                        lo,
                        hi,
                        width,
                    ),
                forall|k: int| id <= k < count ==> #[trigger] db@.series[k] == old(db)@.series[k],
            decreases count - id,
        {
            let ghost prior = db@;
            let r = self.aggregate_meter_data(db, id as u8, start_time, end_time, interval_minutes);
            proof {
                assert(r is Ok);
                assert forall|k: int| 0 <= k < id + 1 implies rewritten(
                    self.averager(),
                    #[trigger] old(db)@.series[k],
                    db@.series[k],
                    lo,
                    hi,
                    width,
                ) by {
                    if k < id {
                        assert(db@.series[k] == prior.series[k]);
                    } else {
                        assert(prior.series[k] == old(db)@.series[k]);
                    }
                }
                assert forall|k: int| id + 1 <= k < count implies #[trigger] db@.series[k]
                    == old(db)@.series[k] by {
                    assert(db@.series[k] == prior.series[k]);
                }
            }
            id += 1;
        }
        Ok(())
    }

    /// The second `age` seconds before `now`.
    fn limit(now: i64, age: i64) -> (r: Option<i64>)
        requires
            age >= 0,
        ensures
            r == age_limit(now, age as int),
    {
        if now < i64::MIN + age {
            None
        } else {
            Some(now - age)
        }
    }

    /// Applies one window if it holds any second.
    fn pass<E: Fn(u32) -> i16, D: Fn(i16) -> u32>(
        &self,
        db: &mut DatabaseSync<E, D>,
        end: Option<i64>,
        start: Option<i64>,
        minutes: i64,
    )
        requires
            self.wf(),
            old(db).wf(),
            valid_interval(minutes),
        ensures
            final(db).wf(),
            final(db).encoder() == old(db).encoder(),
            final(db).decoder() == old(db).decoder(),
            final(db).location() == old(db).location(),
            window_pass(self.averager(), old(db)@, final(db)@, end, start, minutes),
    {
        match start {
            Some(h) => {
                let r = self.process_time_window(db, h, end, minutes);
                assert(r is Ok);
            },
            None => {},
        }
    }

    /// One retention run at time `now`: samples at least a week old are
    /// compacted into hours, those at least a day old into 20 minutes, those
    /// at least an hour old into 10 minutes, in this order.
    ///
    /// No sample younger than an hour is touched, and the registry stays as
    /// it is.
    pub fn process_retention<E: Fn(u32) -> i16, D: Fn(i16) -> u32>(
        &self,
        db: &mut DatabaseSync<E, D>,
        now: i64,
    )
        requires
            self.wf(),
            old(db).wf(),
        ensures
            final(db).wf(),
            final(db).encoder() == old(db).encoder(),
            final(db).decoder() == old(db).decoder(),
            final(db).location() == old(db).location(),
            exists|first: StoreView, second: StoreView|
                {
                    &&& window_pass(
                        self.averager(),
                        old(db)@,
                        first,
                        None,
                        age_limit(now, WEEK as int),
                        60,
                    )
                    &&& #[trigger] window_pass(
                        self.averager(),
                        first,
                        second,
                        age_limit(now, WEEK as int),
                        age_limit(now, DAY as int),
                        20,
                    )
                    &&& window_pass(
                        self.averager(),
                        second,
                        final(db)@,
                        age_limit(now, DAY as int),
                        age_limit(now, HOUR as int),
                        10,
                    )
                },
            final(db)@.names == old(db)@.names,
            final(db)@.series.len() == old(db)@.series.len(),
            forall|id: int|
                0 <= id < old(db)@.series.len() ==> between(
                    #[trigger] final(db)@.series[id],
                    now - HOUR + 1,
                    i64::MAX as int,
                ) == between(old(db)@.series[id], now - HOUR + 1, i64::MAX as int),
    {
        let week = Self::limit(now, WEEK);
        let day = Self::limit(now, DAY);
        let hour = Self::limit(now, HOUR);
        self.pass(db, None, week, 60);
        let ghost first = db@;
        self.pass(db, week, day, 20);
        let ghost second = db@;
        self.pass(db, day, hour, 10);
        proof {
            assert(window_pass(self.averager(), first, second, week, day, 20));
            assert forall|id: int| 0 <= id < old(db)@.series.len() implies between(
                #[trigger] db@.series[id],
                now - HOUR + 1,
                i64::MAX as int,
            ) == between(old(db)@.series[id], now - HOUR + 1, i64::MAX as int) by {
                let s0 = old(db)@.series[id];
                let s1 = first.series[id];
                let s2 = second.series[id];
                let s3 = db@.series[id];
                let q = now - HOUR + 1;
                if week is Some {
                    lemma_later_untouched(s0, s1, now - WEEK + 1, q);
                }
                assert(first.series.len() == old(db)@.series.len());
                if day is Some {
                    lemma_later_untouched(s1, s2, now - DAY + 1, q);
                }
                assert(second.series.len() == old(db)@.series.len());
                if hour is Some {
                    lemma_later_untouched(s2, s3, now - HOUR + 1, q);
                }
            }
        }
    }
}

} // verus!
