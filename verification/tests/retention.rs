use half::f16;
use solarmeter::compaction::{at_least, slot_of};
use solarmeter::data_retention::RetentionService;
use solarmeter::database_sync::DatabaseSync;
use solarmeter::error::ErrorKind;
use solarmeter::model::{Model, Sample, StoredRow};

const HOUR: i64 = 3600;
const DAY: i64 = 86400;

fn encode(bits: u32) -> i16 {
    f16::from_f32(f32::from_bits(bits)).to_bits() as i16
}

fn decode(half: i16) -> u32 {
    f16::from_bits(half as u16).to_f32().to_bits()
}

fn half(value: f32) -> i16 {
    f16::from_f32(value).to_bits() as i16
}

fn mean(column: &Vec<i16>) -> i16 {
    let sum: f32 = column.iter().map(|h| f16::from_bits(*h as u16).to_f32()).sum();
    half(sum / column.len() as f32)
}

type Store = DatabaseSync<fn(u32) -> i16, fn(i16) -> u32>;

fn store() -> Store {
    DatabaseSync::new("readings.db", encode as fn(u32) -> i16, decode as fn(i16) -> u32)
}

fn service() -> RetentionService<fn(&Vec<i16>) -> i16> {
    RetentionService::new(mean as fn(&Vec<i16>) -> i16)
}

fn put(db: &mut Store, name: &str, timestamp: i64, power: f32, kwh: f32) {
    let m = Model {
        meter_name: name.to_string(),
        timestamp,
        total_power: power.to_bits(),
        import_power: power.to_bits(),
        export_power: 0f32.to_bits(),
        total_kwh: kwh.to_bits(),
    };
    assert_eq!(db.insert_meter_reading(&m), Ok(()));
}

fn sample(timestamp: i64, power: f32, kwh: f32) -> Sample {
    Sample {
        timestamp,
        total_power: half(power),
        import_power: half(power),
        export_power: half(0.0),
        total_kwh: kwh.to_bits(),
    }
}

#[test]
fn six_old_rows_become_one() {
    let mut db = store();
    let base: i64 = 1_699_999_200;
    assert_eq!(base % HOUR, 0);
    let now = base + 8 * DAY;
    let kwh = [100.0f32, 101.5, 103.0, 102.0, 104.25, 104.0];
    for i in 0..6 {
        put(&mut db, "garage", base + 60 * i as i64, 10.0 * (i + 1) as f32, kwh[i]);
    }
    service().process_retention(&mut db, now);
    let rows = db.meter_rows(0);
    assert_eq!(rows.len(), 1);
    assert_eq!(rows[0].meter_id, 0);
    assert_eq!(f16::from_bits(rows[0].total_power as u16).to_f32(), 35.0);
    assert_eq!(f16::from_bits(rows[0].import_power as u16).to_f32(), 35.0);
    assert_eq!(f16::from_bits(rows[0].export_power as u16).to_f32(), 0.0);
    assert_eq!(f32::from_bits(rows[0].total_kwh), 104.25);
    assert_eq!(rows[0].timestamp, base + 60 * 3);
}

#[test]
fn a_second_run_changes_nothing() {
    let mut db = store();
    let now: i64 = 1_700_000_000;
    let mut t = now - 9 * DAY;
    let mut k = 0.0f32;
    while t < now {
        put(&mut db, "garage", t, (t % 977) as f32, k);
        put(&mut db, "roof", t + 7, (t % 311) as f32, 2.0 * k);
        t += 173;
        k += 0.25;
    }
    let before = db.meter_rows(0).len();
    service().process_retention(&mut db, now);
    let once: Vec<Vec<StoredRow>> = vec![db.meter_rows(0), db.meter_rows(1)];
    assert!(once[0].len() < before);
    service().process_retention(&mut db, now);
    let twice: Vec<Vec<StoredRow>> = vec![db.meter_rows(0), db.meter_rows(1)];
    assert_eq!(once, twice);
    assert_eq!(service().process_time_window(&mut db, now - DAY, Some(now - 7 * DAY), 20), Ok(()));
    assert_eq!(vec![db.meter_rows(0), db.meter_rows(1)], once);
}

#[test]
fn each_window_has_its_bucket_width() {
    let mut db = store();
    let now: i64 = 1_700_000_000;
    let mut t = now - 10 * DAY;
    while t <= now {
        put(&mut db, "garage", t, 1.0, 1.0);
        t += 60;
    }
    service().process_retention(&mut db, now);
    let rows = db.meter_rows(0);
    let mut fresh = 0;
    for pair in rows.windows(2) {
        let (a, b) = (pair[0].timestamp, pair[1].timestamp);
        assert!(a < b);
        if a > now - HOUR {
            assert_eq!(b - a, 60);
            fresh += 1;
        } else if b <= now - 7 * DAY {
            assert_ne!(a / 3600, b / 3600);
        } else if a > now - 7 * DAY && b <= now - DAY {
            assert_ne!(a / 1200, b / 1200);
        } else if a > now - DAY && b <= now - HOUR {
            assert_ne!(a / 600, b / 600);
        }
    }
    assert_eq!(fresh, 59);
    let week_old = rows.iter().filter(|r| r.timestamp <= now - 7 * DAY).count();
    assert!(week_old >= 72 && week_old <= 74);
}

#[test]
fn rows_younger_than_an_hour_stay() {
    let mut db = store();
    let now: i64 = 1_700_000_000;
    for i in 0..50 {
        put(&mut db, "garage", now - HOUR + 1 + i * 17, i as f32, i as f32);
    }
    let before = db.meter_rows(0);
    service().process_retention(&mut db, now);
    assert_eq!(db.meter_rows(0), before);
}

#[test]
fn the_window_bounds_are_half_open() {
    let mut db = store();
    let now: i64 = 1_700_000_000;
    let edge = now - HOUR;
    put(&mut db, "garage", edge, 10.0, 1.0);
    put(&mut db, "garage", edge + 1, 30.0, 2.0);
    assert_eq!(slot_of(edge, 600), slot_of(edge + 1, 600));
    service().process_retention(&mut db, now);
    let rows = db.meter_rows(0);
    assert_eq!(rows.len(), 2);
    assert_eq!(f16::from_bits(rows[0].total_power as u16).to_f32(), 10.0);
    assert_eq!(f16::from_bits(rows[1].total_power as u16).to_f32(), 30.0);

    let mut db = store();
    for t in [100i64, 200, 300, 400] {
        put(&mut db, "garage", t, t as f32, 1.0);
    }
    assert_eq!(service().aggregate_meter_data(&mut db, 0, 300, Some(100), 60), Ok(()));
    let stamps: Vec<i64> = db.meter_rows(0).iter().map(|r| r.timestamp).collect();
    assert_eq!(stamps, vec![100, 300, 400]);
    assert_eq!(f16::from_bits(db.meter_rows(0)[1].total_power as u16).to_f32(), 250.0);
}

#[test]
fn only_the_named_meter_is_rewritten() {
    let mut db = store();
    for t in [0i64, 60, 120] {
        put(&mut db, "garage", t, 1.0, 1.0);
        put(&mut db, "roof", t, 2.0, 2.0);
    }
    assert_eq!(service().aggregate_meter_data(&mut db, 1, 1000, None, 10), Ok(()));
    assert_eq!(db.meter_rows(0).len(), 3);
    assert_eq!(db.meter_rows(1).len(), 1);
    assert_eq!(db.meter_rows(1)[0].timestamp, 60);
    assert_eq!(db.meter_name(1), Some("roof".to_string()));
}

#[test]
fn a_bad_interval_or_meter_is_refused() {
    let mut db = store();
    put(&mut db, "garage", 0, 1.0, 1.0);
    put(&mut db, "garage", 1, 1.0, 1.0);
    let s = service();
    assert_eq!(s.aggregate_meter_data(&mut db, 0, 10, None, 0), Err(ErrorKind::Configuration));
    assert_eq!(s.aggregate_meter_data(&mut db, 0, 10, None, -5), Err(ErrorKind::Configuration));
    assert_eq!(
        s.aggregate_meter_data(&mut db, 0, 10, None, i64::MAX / 60 + 1),
        Err(ErrorKind::Configuration)
    );
    assert_eq!(s.aggregate_meter_data(&mut db, 1, 10, None, 10), Err(ErrorKind::Storage));
    assert_eq!(s.aggregate_meter_data(&mut db, 9, 10, None, 0), Err(ErrorKind::Configuration));
    assert_eq!(s.process_time_window(&mut db, 10, None, 0), Err(ErrorKind::Configuration));
    assert_eq!(db.meter_rows(0).len(), 2);
    assert_eq!(s.aggregate_meter_data(&mut db, 0, 10, None, i64::MAX / 60), Ok(()));
    assert_eq!(db.meter_rows(0).len(), 1);
}

#[test]
fn a_summary_has_mean_maximum_and_middle_time() {
    let s = service();
    assert_eq!(s.aggregate_data_points(&Vec::new()), None);
    let one = sample(77, 12.5, 3.0);
    assert_eq!(s.aggregate_data_points(&vec![one]), Some(one));
    let bucket = vec![sample(10, 1.0, 5.0), sample(20, 2.0, 9.0), sample(30, 6.0, 7.0)];
    assert_eq!(s.aggregate_data_points(&bucket), Some(sample(20, 3.0, 9.0)));
    let even = vec![sample(10, 1.0, 5.0), sample(20, 2.0, 4.0)];
    assert_eq!(s.aggregate_data_points(&even), Some(sample(20, 1.5, 5.0)));
    let negative = vec![sample(1, 0.0, -3.0), sample(2, 0.0, -1.0), sample(3, 0.0, -2.0)];
    assert_eq!(s.aggregate_data_points(&negative).unwrap().total_kwh, (-1.0f32).to_bits());
}

#[test]
fn bit_patterns_order_as_their_values() {
    let values = [
        f32::NEG_INFINITY,
        -1.0e30,
        -2.5,
        -1.0,
        -f32::MIN_POSITIVE,
        -0.0,
        0.0,
        f32::MIN_POSITIVE,
        0.5,
        1.0,
        1234.5,
        3.0e38,
        f32::INFINITY,
    ];
    for a in values {
        for b in values {
            assert_eq!(at_least(a.to_bits(), b.to_bits()), a >= b);
        }
    }
}

#[test]
fn buckets_are_floored() {
    assert_eq!(slot_of(0, 600), 0);
    assert_eq!(slot_of(599, 600), 0);
    assert_eq!(slot_of(600, 600), 1);
    assert_eq!(slot_of(-1, 600), -1);
    assert_eq!(slot_of(-600, 600), -1);
    assert_eq!(slot_of(-601, 600), -2);
    assert_eq!(slot_of(i64::MIN, 1), i64::MIN);
    assert_eq!(slot_of(i64::MIN, 3600), -2562047788015216);
    assert_eq!(slot_of(i64::MAX, 3600), 2562047788015215);
    assert_eq!(slot_of(1_700_000_000, 3600), 472222);
}

#[test]
fn a_clock_near_the_first_second_touches_nothing() {
    let mut db = store();
    put(&mut db, "garage", i64::MIN, 1.0, 1.0);
    put(&mut db, "garage", i64::MIN + 1, 1.0, 1.0);
    service().process_retention(&mut db, i64::MIN + 10);
    assert_eq!(db.meter_rows(0).len(), 2);
    service().process_retention(&mut db, i64::MIN + HOUR + 1);
    assert_eq!(db.meter_rows(0).len(), 1);
}

#[test]
fn a_single_row_is_its_own_summary() {
    let s = service();
    let odd = Sample {
        timestamp: 5,
        total_power: 0x7C01,
        import_power: half(-0.0),
        export_power: half(f32::INFINITY),
        total_kwh: f32::NAN.to_bits(),
    };
    assert_eq!(mean(&vec![odd.total_power]), 0x7E01);
    assert_eq!(s.aggregate_data_points(&vec![odd]), Some(odd));
    let mut db = store();
    assert_eq!(db.get_or_create_meter_id("garage"), Ok(0));
    assert_eq!(db.insert_row(StoredRow::new(0, odd)), Ok(()));
    assert_eq!(s.aggregate_meter_data(&mut db, 0, 100, None, 10), Ok(()));
    assert_eq!(db.meter_rows(0), vec![StoredRow::new(0, odd)]);
}
