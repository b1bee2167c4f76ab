use half::f16;
use solarmeter::database_sync::DatabaseSync;
use solarmeter::error::ErrorKind;
use solarmeter::model::{Model, Sample, StoredRow};

fn encode(bits: u32) -> i16 {
    f16::from_f32(f32::from_bits(bits)).to_bits() as i16
}

fn decode(half: i16) -> u32 {
    f16::from_bits(half as u16).to_f32().to_bits()
}

fn store() -> DatabaseSync<fn(u32) -> i16, fn(i16) -> u32> {
    DatabaseSync::new("/var/lib/solarmeter/readings.db", encode as fn(u32) -> i16, decode as fn(i16) -> u32)
}

fn reading(name: &str, timestamp: i64, power: f32, kwh: f32) -> Model {
    Model {
        meter_name: name.to_string(),
        timestamp,
        total_power: power.to_bits(),
        import_power: power.max(0.0).to_bits(),
        export_power: (-power).max(0.0).to_bits(),
        total_kwh: kwh.to_bits(),
    }
}

#[test]
fn new_store_is_empty_and_reports_its_path() {
    let db = store();
    assert_eq!(db.meter_count(), 0);
    assert_eq!(db.get_database_path(), "/var/lib/solarmeter/readings.db");
    assert!(db.get_meter_readings("garage", None, None).is_empty());
    assert_eq!(db.meter_id("garage"), None);
}

#[test]
fn insert_then_query_returns_the_energy_bit_for_bit() {
    let mut db = store();
    let inserted = reading("garage", 1_700_000_000, 1234.567, 98765.4321);
    assert_eq!(db.insert_meter_reading(&inserted), Ok(()));
    let back = db.get_meter_readings("garage", Some(1_700_000_000), Some(1_700_000_000));
    assert_eq!(back.len(), 1);
    assert_eq!(back[0].meter_name, "garage");
    assert_eq!(back[0].timestamp, 1_700_000_000);
    assert_eq!(back[0].total_kwh, 98765.4321f32.to_bits());
    let power = f32::from_bits(back[0].total_power);
    assert!((power - 1234.567).abs() <= 0.5);
    assert_eq!(power, f16::from_f32(1234.567).to_f32());
    assert_eq!(f32::from_bits(back[0].export_power), 0.0);
}

#[test]
fn a_row_holds_the_half_precision_pattern() {
    let mut db = store();
    assert_eq!(db.insert_meter_reading(&reading("roof", 10, -250.25, 1.5)), Ok(()));
    let rows = db.meter_rows(0);
    assert_eq!(
        rows,
        vec![StoredRow {
            meter_id: 0,
            timestamp: 10,
            total_power: f16::from_f32(-250.25).to_bits() as i16,
            import_power: 0,
            export_power: f16::from_f32(250.25).to_bits() as i16,
            total_kwh: 1.5f32.to_bits(),
        }]
    );
    assert_eq!(db.f32_to_f16(1.0f32.to_bits()), 0x3C00);
    assert_eq!(db.f16_to_f32(0x3C00), 1.0f32.to_bits());
    assert_eq!(db.f32_to_f16((-2.0f32).to_bits()), 0xC000u16 as i16);
}

#[test]
fn second_insert_under_one_key_wins() {
    let mut db = store();
    assert_eq!(db.insert_meter_reading(&reading("garage", 500, 10.0, 1.0)), Ok(()));
    assert_eq!(db.insert_meter_reading(&reading("garage", 500, 20.0, 2.0)), Ok(()));
    let all = db.get_meter_readings("garage", None, None);
    assert_eq!(all.len(), 1);
    assert_eq!(f32::from_bits(all[0].total_power), 20.0);
    assert_eq!(f32::from_bits(all[0].total_kwh), 2.0);
    assert_eq!(db.meter_rows(0).len(), 1);
    assert_eq!(db.meter_count(), 1);
}

#[test]
fn the_257th_meter_is_refused() {
    let mut db = store();
    for i in 0..256u32 {
        let name = format!("meter-{}", i);
        assert_eq!(db.get_or_create_meter_id(&name), Ok(i as u8));
    }
    assert_eq!(db.meter_count(), 256);
    assert_eq!(db.get_or_create_meter_id("one-too-many"), Err(ErrorKind::CapacityExceeded));
    assert_eq!(db.meter_count(), 256);
    assert_eq!(db.meter_id("one-too-many"), None);
    for i in 0..256u32 {
        let name = format!("meter-{}", i);
        assert_eq!(db.get_or_create_meter_id(&name), Ok(i as u8));
        assert_eq!(db.meter_id(&name), Some(i as u8));
        assert_eq!(db.meter_name(i as u8), Some(name));
    }
    assert_eq!(
        db.insert_meter_reading(&reading("one-too-many", 1, 1.0, 1.0)),
        Err(ErrorKind::CapacityExceeded)
    );
    assert_eq!(db.insert_meter_reading(&reading("meter-255", 1, 1.0, 1.0)), Ok(()));
    assert_eq!(db.meter_rows(255).len(), 1);
}

#[test]
fn ids_follow_the_order_of_first_use() {
    let mut db = store();
    assert_eq!(db.insert_meter_reading(&reading("b", 1, 1.0, 1.0)), Ok(()));
    assert_eq!(db.insert_meter_reading(&reading("a", 1, 1.0, 1.0)), Ok(()));
    assert_eq!(db.insert_meter_reading(&reading("b", 2, 1.0, 1.0)), Ok(()));
    assert_eq!(db.meter_id("b"), Some(0));
    assert_eq!(db.meter_id("a"), Some(1));
    assert_eq!(db.meter_name(0), Some("b".to_string()));
    assert_eq!(db.meter_name(2), None);
    assert_eq!(db.meter_rows(0).len(), 2);
    assert_eq!(db.meter_rows(1).len(), 1);
    assert!(db.meter_rows(2).is_empty());
}

#[test]
fn query_is_newest_first_with_inclusive_bounds() {
    let mut db = store();
    for t in [40i64, 10, 30, 20, 50] {
        assert_eq!(db.insert_meter_reading(&reading("garage", t, t as f32, t as f32)), Ok(()));
    }
    assert_eq!(db.insert_meter_reading(&reading("roof", 25, 1.0, 1.0)), Ok(()));
    let stamps = |v: Vec<Model>| v.iter().map(|m| m.timestamp).collect::<Vec<i64>>();
    assert_eq!(stamps(db.get_meter_readings("garage", None, None)), vec![50, 40, 30, 20, 10]);
    assert_eq!(stamps(db.get_meter_readings("garage", Some(20), Some(40))), vec![40, 30, 20]);
    assert_eq!(stamps(db.get_meter_readings("garage", Some(21), Some(39))), vec![30]);
    assert_eq!(stamps(db.get_meter_readings("garage", Some(30), None)), vec![50, 40, 30]);
    assert_eq!(stamps(db.get_meter_readings("garage", None, Some(20))), vec![20, 10]);
    assert_eq!(stamps(db.get_meter_readings("garage", Some(40), Some(20))), Vec::<i64>::new());
    assert_eq!(stamps(db.get_meter_readings("garage", Some(51), None)), Vec::<i64>::new());
    assert_eq!(stamps(db.get_meter_readings("cellar", None, None)), Vec::<i64>::new());
    assert_eq!(db.meter_count(), 2);
    assert_eq!(
        stamps(db.get_meter_readings("garage", Some(i64::MIN), Some(i64::MAX))),
        vec![50, 40, 30, 20, 10]
    );
}

#[test]
fn rows_come_out_oldest_first() {
    let mut db = store();
    for t in [3i64, 1, 2, i64::MAX, i64::MIN] {
        assert_eq!(db.insert_meter_reading(&reading("garage", t, 1.0, 1.0)), Ok(()));
    }
    let stamps: Vec<i64> = db.meter_rows(0).iter().map(|r| r.timestamp).collect();
    assert_eq!(stamps, vec![i64::MIN, 1, 2, 3, i64::MAX]);
    let samples: Vec<i64> = db.samples(0).iter().map(|s| s.timestamp).collect();
    assert_eq!(samples, stamps);
}

#[test]
fn a_row_for_an_unknown_meter_is_a_storage_error() {
    let mut db = store();
    let row = StoredRow {
        meter_id: 0,
        timestamp: 7,
        total_power: 1,
        import_power: 2,
        export_power: 3,
        total_kwh: 4,
    };
    assert_eq!(db.insert_row(row), Err(ErrorKind::Storage));
    assert_eq!(db.get_or_create_meter_id("garage"), Ok(0));
    assert_eq!(db.insert_row(row), Ok(()));
    assert_eq!(db.insert_row(StoredRow { meter_id: 1, ..row }), Err(ErrorKind::Storage));
    assert_eq!(db.meter_rows(0), vec![row]);
    assert_eq!(
        row.sample(),
        Sample { timestamp: 7, total_power: 1, import_power: 2, export_power: 3, total_kwh: 4 }
    );
    assert_eq!(StoredRow::new(0, row.sample()), row);
}

#[test]
fn a_decreasing_energy_counter_is_stored() {
    let mut db = store();
    assert_eq!(db.insert_meter_reading(&reading("garage", 1, 5.0, 100.0)), Ok(()));
    assert_eq!(db.insert_meter_reading(&reading("garage", 2, 5.0, 0.5)), Ok(()));
    let all = db.get_meter_readings("garage", None, None);
    assert_eq!(f32::from_bits(all[0].total_kwh), 0.5);
    assert_eq!(f32::from_bits(all[1].total_kwh), 100.0);
}
