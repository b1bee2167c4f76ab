use half::f16;
use solarmeter::config::{
    default_create_database, default_log_dir, default_log_level, LogLevel, MeterType,
};
use solarmeter::database_sync::DatabaseSync;
use solarmeter::error::{ErrorKind, MeterError};
use solarmeter::meters::mock_meter::{negate, positive_part_of, MockMeter};
use solarmeter::model::Model;
use solarmeter::poller::{handle_meter, PollReport, ERROR_COOLDOWN};
use solarmeter::web_server::{get_last_write, get_total_records, get_unique_meters, handle_status};

fn encode(bits: u32) -> i16 {
    f16::from_f32(f32::from_bits(bits)).to_bits() as i16
}

fn decode(half: i16) -> u32 {
    f16::from_bits(half as u16).to_f32().to_bits()
}

type Store = DatabaseSync<fn(u32) -> i16, fn(i16) -> u32>;

fn store() -> Store {
    DatabaseSync::new("/data/readings.db", encode as fn(u32) -> i16, decode as fn(i16) -> u32)
}

fn reading(name: &str, timestamp: i64) -> Model {
    Model {
        meter_name: name.to_string(),
        timestamp,
        total_power: 100f32.to_bits(),
        import_power: 100f32.to_bits(),
        export_power: 0,
        total_kwh: 5f32.to_bits(),
    }
}

#[test]
fn log_levels_map_to_their_filters() {
    assert_eq!(LogLevel::Error.to_level_filter(), log::LevelFilter::Error);
    assert_eq!(LogLevel::Warn.to_level_filter(), log::LevelFilter::Warn);
    assert_eq!(LogLevel::Info.to_level_filter(), log::LevelFilter::Info);
    assert_eq!(LogLevel::Debug.to_level_filter(), log::LevelFilter::Debug);
    assert_eq!(LogLevel::Trace.to_level_filter(), log::LevelFilter::Trace);
}

#[test]
fn the_defaults_are_as_documented() {
    assert_eq!(default_log_level(), LogLevel::Info);
    assert!(!default_create_database());
    assert_eq!(default_log_dir(), "~/log/solar_meter");
    assert_ne!(MeterType::Sdm72d, MeterType::Mock);
}

#[test]
fn errors_carry_their_text() {
    assert_eq!(MeterError::new("port gone").message, "port gone");
    assert_eq!(
        ErrorKind::CapacityExceeded.describe().message,
        "Failed to create meter ID - maximum number of meters (256) reached"
    );
    assert_eq!(ErrorKind::LockTimeout.describe().message, "Timeout waiting for serial port lock");
    assert_eq!(ErrorKind::Transport.describe().message, "Modbus transport failure");
    assert_eq!(ErrorKind::Storage.describe().message, "Storage failure");
    assert_eq!(ErrorKind::Configuration.describe().message, "Invalid configuration");
    assert!(ErrorKind::Transport.retryable());
    assert!(ErrorKind::LockTimeout.retryable());
    assert!(!ErrorKind::CapacityExceeded.retryable());
    assert!(!ErrorKind::Storage.retryable());
    assert!(!ErrorKind::Configuration.retryable());
}

#[test]
fn a_failed_cycle_is_followed_by_the_cooldown() {
    let mut db = store();
    for e in [ErrorKind::Transport, ErrorKind::LockTimeout] {
        assert_eq!(
            handle_meter(&mut db, Err(e), 10),
            PollReport { stored: false, error: Some(e), delay: 30 }
        );
    }
    assert_eq!(ERROR_COOLDOWN, 30);
    assert_eq!(db.meter_count(), 0);
}

#[test]
fn a_reading_is_stored_and_followed_by_the_polling_interval() {
    let mut db = store();
    assert_eq!(
        handle_meter(&mut db, Ok(reading("garage", 1)), 10),
        PollReport { stored: true, error: None, delay: 10 }
    );
    assert_eq!(
        handle_meter(&mut db, Ok(reading("garage", 2)), u32::MAX),
        PollReport { stored: true, error: None, delay: u32::MAX as u64 }
    );
    assert_eq!(db.meter_rows(0).len(), 2);
    for i in 1..256 {
        assert_eq!(db.get_or_create_meter_id(&format!("m{}", i)), Ok(i as u8));
    }
    assert_eq!(
        handle_meter(&mut db, Ok(reading("late", 3)), 10),
        PollReport { stored: false, error: Some(ErrorKind::CapacityExceeded), delay: 10 }
    );
}

#[test]
fn the_status_counts_meters_rows_and_the_last_write() {
    let mut db = store();
    let empty = handle_status(&db, 0, 0);
    assert_eq!((empty.meters_count, empty.total_records, empty.last_write), (0, 0, None));
    assert_eq!(db.get_or_create_meter_id("idle"), Ok(0));
    assert_eq!(get_unique_meters(&db), 0);
    assert_eq!(get_last_write(&db), None);
    for t in [5i64, 900, 17] {
        assert_eq!(db.insert_meter_reading(&reading("garage", t)), Ok(()));
    }
    for t in [-3i64, 899] {
        assert_eq!(db.insert_meter_reading(&reading("roof", t)), Ok(()));
    }
    assert_eq!(get_unique_meters(&db), 2);
    assert_eq!(get_total_records(&db), 5);
    assert_eq!(get_last_write(&db), Some(900));
    assert_eq!(db.insert_meter_reading(&reading("roof", 901)), Ok(()));
    let status = handle_status(&db, 4096, 77);
    assert_eq!(status.database_size_bytes, 4096);
    assert_eq!(status.database_path, "/data/readings.db");
    assert_eq!(status.meters_count, 2);
    assert_eq!(status.last_write, Some(901));
    assert_eq!(status.total_records, 6);
    assert_eq!(status.uptime_seconds, 77);
}

#[test]
fn power_splits_into_import_and_export() {
    let values = [0.0f32, 1.0, 1234.5, f32::INFINITY, -1.0, -987.25, f32::NEG_INFINITY, f32::MIN_POSITIVE];
    for v in values {
        assert_eq!(f32::from_bits(positive_part_of(v.to_bits())), v.max(0.0));
        assert_eq!(f32::from_bits(negate(v.to_bits())), -v);
        assert_eq!(f32::from_bits(positive_part_of(negate(v.to_bits()))), (-v).max(0.0));
    }
    assert_eq!(positive_part_of((-0.0f32).to_bits()), 0);
    assert_eq!(positive_part_of(f32::NAN.to_bits()), 0);
    assert_eq!(positive_part_of(negate(f32::NAN.to_bits())), 0);
    assert_eq!(negate(0), 0x8000_0000);
    assert_eq!(negate(0x8000_0000), 0);
}

#[test]
fn the_simulated_meter_accumulates_energy() {
    let wave = |secs: i64, since: Option<i64>, kwh: u32| -> (u32, u32) {
        let power = (secs as f32 / 3600.0).sin() * 1000.0;
        let mut total = f32::from_bits(kwh);
        if let Some(millis) = since {
            total += power * (millis as f32 / 3_600_000.0) / 1000.0;
        }
        (power.to_bits(), total.to_bits())
    };
    let mut meter = MockMeter::new("demo".to_string());
    assert_eq!((meter.get_polling_rate(), meter.get_timeout()), (10, 5));
    let first = meter.get_value(3_600_000, &wave);
    assert_eq!(first.meter_name, "demo");
    assert_eq!(first.timestamp, 3600);
    assert_eq!(f32::from_bits(first.total_kwh), 0.0);
    let power = 1.0f32.sin() * 1000.0;
    assert_eq!(f32::from_bits(first.total_power), power);
    assert_eq!(f32::from_bits(first.import_power), power);
    assert_eq!(f32::from_bits(first.export_power), 0.0);
    let second = meter.get_value(3_600_000 + 1_800_000, &wave);
    assert_eq!(second.timestamp, 5400);
    let later = 1.5f32.sin() * 1000.0;
    assert_eq!(f32::from_bits(second.total_kwh), later * 0.5 / 1000.0);
    let third = meter.get_value(3_600_000 * 5, &wave);
    let negative = 5.0f32.sin() * 1000.0;
    assert!(negative < 0.0);
    assert_eq!(f32::from_bits(third.import_power), 0.0);
    assert_eq!(f32::from_bits(third.export_power), -negative);
    assert!(f32::from_bits(third.total_kwh) < f32::from_bits(second.total_kwh));
    assert_eq!(meter.get_value(-1, &wave).timestamp, -1);
    assert_eq!(meter.get_value(-1000, &wave).timestamp, -1);
    assert_eq!(meter.get_value(-1001, &wave).timestamp, -2);
}
