use std::cell::RefCell;
use std::rc::Rc;

use solarmeter::config::MeterType;
use solarmeter::error::{ErrorKind, MeterError};
use solarmeter::meters::constants::{EXPORT_POWER, IMPORT_POWER, TOTAL_KWH, TOTAL_POWER};
use solarmeter::meters::sdm72d::{CycleStep, SDM72DMeter};
use solarmeter::meters::{
    acquire_attempt, create_meter, LockAttempt, Meter, MeterReader, Parity, SerialRegistry,
    SerialSettings, SharedSerial,
};
use solarmeter::reader::{MockModbusClient, ModbusClient};

/// A client that answers from a script and records what it was asked.
struct Scripted {
    replies: Vec<Result<Vec<u16>, String>>,
    log: Rc<RefCell<Vec<(u8, u16, u16)>>>,
    slave: u8,
}

impl ModbusClient for Scripted {
    fn set_slave(&mut self, slave: u8) {
        self.slave = slave;
    }

    fn read_input_registers(&mut self, address: u16, quantity: u16) -> Result<Vec<u16>, MeterError> {
        self.log.borrow_mut().push((self.slave, address, quantity));
        if self.replies.is_empty() {
            return Err(MeterError::new("script exhausted"));
        }
        match self.replies.remove(0) {
            Ok(registers) => Ok(registers),
            Err(text) => Err(MeterError::new(&text)),
        }
    }
}

fn registers_of(value: f32) -> Vec<u16> {
    let bits = value.to_bits();
    vec![(bits >> 16) as u16, (bits & 0xFFFF) as u16]
}

fn no_port(_: &SerialSettings, _: u8) -> Result<Scripted, MeterError> {
    Err(MeterError::new("no such port"))
}

fn channel_with(replies: Vec<Result<Vec<u16>, String>>) -> (SharedSerial<Scripted>, Rc<RefCell<Vec<(u8, u16, u16)>>>) {
    let log = Rc::new(RefCell::new(Vec::new()));
    let mut serial = SharedSerial::new("/dev/ttyUSB0".to_string(), 9600, 5);
    serial.attach(Scripted { replies, log: log.clone(), slave: 0 });
    (serial, log)
}

fn driver(name: &str, address: u8) -> SDM72DMeter<usize> {
    SDM72DMeter::new(name.to_string(), 0usize, address, 15, 5)
}

#[test]
fn two_registers_decode_as_big_endian_bytes() {
    let pairs: [(u16, u16); 7] = [
        (0x4366, 0x8000),
        (0x0000, 0x0000),
        (0x8000, 0x0000),
        (0xFFFF, 0xFFFF),
        (0x1234, 0x5678),
        (0x7F80, 0x0000),
        (0xC2C8, 0x0001),
    ];
    for (r0, r1) in pairs {
        let bytes = [(r0 >> 8) as u8, (r0 & 0xFF) as u8, (r1 >> 8) as u8, (r1 & 0xFF) as u8];
        let bits = SDM72DMeter::<usize>::registers_to_f32(&[r0, r1]);
        assert_eq!(bits, f32::from_be_bytes(bytes).to_bits());
        assert_eq!(bits, u32::from_be_bytes(bytes));
        assert_eq!(bits, ((r0 as u32) << 16) | r1 as u32);
    }
    assert_eq!(f32::from_bits(SDM72DMeter::<usize>::registers_to_f32(&[0x4366, 0x8000])), 230.5);
    assert_eq!(SDM72DMeter::<usize>::registers_to_f32(&[0x4366, 0x8000, 0xFFFF]), 0x4366_8000);
}

#[test]
fn every_register_value_survives_the_byte_split() {
    let mut r: u32 = 0;
    while r <= 0xFFFF {
        let r0 = r as u16;
        let r1 = (r as u16).wrapping_mul(40503).wrapping_add(17);
        let bits = SDM72DMeter::<usize>::registers_to_f32(&[r0, r1]);
        assert_eq!(bits, (r0 as u32) * 65536 + r1 as u32);
        r += 1;
    }
}

#[test]
fn a_short_or_failed_reply_is_a_transport_error() {
    assert_eq!(SDM72DMeter::<usize>::decode_reply(Ok(vec![])), Err(ErrorKind::Transport));
    assert_eq!(SDM72DMeter::<usize>::decode_reply(Ok(vec![0x4366])), Err(ErrorKind::Transport));
    assert_eq!(SDM72DMeter::<usize>::decode_reply(Ok(vec![0x4366, 0x8000])), Ok(0x4366_8000));
    assert_eq!(SDM72DMeter::<usize>::decode_reply(Ok(vec![1, 2, 3])), Ok(0x0001_0002));
    for e in [ErrorKind::Transport, ErrorKind::LockTimeout, ErrorKind::Storage] {
        assert_eq!(SDM72DMeter::<usize>::decode_reply(Err(e)), Err(ErrorKind::Transport));
    }
}

#[test]
fn a_busy_channel_is_retried_three_times() {
    let mut serial: SharedSerial<Scripted> = SharedSerial::new("/dev/ttyUSB0".to_string(), 9600, 5);
    assert_eq!(serial._acquire_lock("first", 0), LockAttempt::Acquired);
    let mut waited = 0u64;
    for retry in 0..3u32 {
        assert_eq!(serial._acquire_lock("second", retry), LockAttempt::Wait { millis: 500 });
        waited += 500;
    }
    assert_eq!(serial._acquire_lock("second", 3), LockAttempt::TimedOut);
    assert_eq!(waited, 1500);
    assert_eq!(serial._acquire_lock("second", 4), LockAttempt::TimedOut);
    assert_eq!(serial._acquire_lock("first", 0), LockAttempt::Wait { millis: 500 });
}

#[test]
fn a_waiting_caller_gets_the_channel_once_it_is_released() {
    let mut serial: SharedSerial<Scripted> = SharedSerial::new("/dev/ttyUSB0".to_string(), 9600, 5);
    assert_eq!(serial.acquire_lock("first", 0, 0), LockAttempt::Acquired);
    assert_eq!(serial.acquire_lock("second", 0, 0), LockAttempt::Wait { millis: 500 });
    assert_eq!(serial.acquire_lock("second", 1, 500), LockAttempt::Wait { millis: 500 });
    serial.release_lock("first");
    assert_eq!(serial.acquire_lock("second", 2, 1000), LockAttempt::Acquired);
    assert_eq!(serial.acquire_lock("first", 0, 0), LockAttempt::Wait { millis: 500 });
    serial.release_lock("second");
    assert_eq!(serial.acquire_lock("first", 3, 1500), LockAttempt::Acquired);
}

#[test]
fn the_time_limit_ends_the_wait() {
    let mut serial: SharedSerial<Scripted> = SharedSerial::new("/dev/ttyUSB0".to_string(), 9600, 1);
    assert_eq!(serial.acquire_lock("first", 0, 0), LockAttempt::Acquired);
    assert_eq!(serial.acquire_lock("second", 0, 0), LockAttempt::Wait { millis: 500 });
    assert_eq!(serial.acquire_lock("second", 1, 500), LockAttempt::Wait { millis: 500 });
    assert_eq!(serial.acquire_lock("second", 2, 999), LockAttempt::Wait { millis: 500 });
    assert_eq!(serial.acquire_lock("second", 2, 1000), LockAttempt::TimedOut);
    serial.release_lock("first");
    assert_eq!(serial.acquire_lock("second", 2, 1000), LockAttempt::TimedOut);
    assert_eq!(serial.acquire_lock("second", 0, 0), LockAttempt::Acquired);

    let mut zero: SharedSerial<Scripted> = SharedSerial::new("/dev/ttyUSB1".to_string(), 9600, 0);
    assert_eq!(zero.acquire_lock("first", 0, 0), LockAttempt::Acquired);
    assert_eq!(zero.acquire_lock("second", 0, 0), LockAttempt::Wait { millis: 500 });
    assert_eq!(zero.acquire_lock("second", 1, 1), LockAttempt::TimedOut);
}

#[test]
fn a_cycle_reads_four_values_and_frees_the_channel() {
    let (mut serial, log) = channel_with(vec![
        Ok(registers_of(1500.5)),
        Ok(registers_of(1500.5)),
        Ok(registers_of(0.0)),
        Ok(registers_of(98765.25)),
    ]);
    let meter = driver("garage", 7);
    let reading = match meter.get_value(&mut serial, &no_port, 1_700_000_000, 0, 0) {
        CycleStep::Done(Ok(reading)) => reading,
        other => panic!("{:?}", other),
    };
    assert_eq!(reading.meter_name, "garage");
    assert_eq!(reading.timestamp, 1_700_000_000);
    assert_eq!(f32::from_bits(reading.total_power), 1500.5);
    assert_eq!(f32::from_bits(reading.import_power), 1500.5);
    assert_eq!(f32::from_bits(reading.export_power), 0.0);
    assert_eq!(f32::from_bits(reading.total_kwh), 98765.25);
    assert_eq!(
        *log.borrow(),
        vec![(7, TOTAL_POWER, 2), (7, IMPORT_POWER, 2), (7, EXPORT_POWER, 2), (7, TOTAL_KWH, 2)]
    );
    assert_eq!(*log.borrow(), vec![(7, 0x34, 2), (7, 0x500, 2), (7, 0x502, 2), (7, 0x156, 2)]);
    assert_eq!(serial._acquire_lock("roof", 0), LockAttempt::Acquired);
}

#[test]
fn a_failed_read_ends_the_cycle_and_frees_the_channel() {
    let (mut serial, log) = channel_with(vec![
        Ok(registers_of(1.0)),
        Err("timeout".to_string()),
        Ok(registers_of(3.0)),
        Ok(registers_of(4.0)),
    ]);
    let meter = driver("garage", 1);
    match meter.get_value(&mut serial, &no_port, 10, 0, 0) {
        CycleStep::Done(Err(ErrorKind::Transport)) => {}
        other => panic!("{:?}", other),
    }
    assert_eq!(log.borrow().len(), 2);
    assert_eq!(serial.acquire_lock("roof", 0, 0), LockAttempt::Acquired);
}

#[test]
fn a_short_reply_ends_the_cycle_and_frees_the_channel() {
    let (mut serial, log) = channel_with(vec![
        Ok(registers_of(1.0)),
        Ok(registers_of(2.0)),
        Ok(vec![0x4366]),
        Ok(registers_of(4.0)),
    ]);
    let meter = driver("garage", 1);
    match meter.get_value(&mut serial, &no_port, 10, 0, 0) {
        CycleStep::Done(Err(ErrorKind::Transport)) => {}
        other => panic!("{:?}", other),
    }
    assert_eq!(log.borrow().len(), 3);
    assert_eq!(serial.acquire_lock("roof", 0, 0), LockAttempt::Acquired);
}

#[test]
fn a_cycle_waits_while_another_meter_holds_the_channel() {
    let (mut serial, log) = channel_with(vec![Ok(registers_of(1.0)); 4]);
    assert_eq!(serial.acquire_lock("roof", 0, 0), LockAttempt::Acquired);
    let meter = driver("garage", 1);
    for retry in 0..3u32 {
        match meter.get_value(&mut serial, &no_port, 10, retry, 500 * retry as u64) {
            CycleStep::Wait { millis: 500 } => {}
            other => panic!("{:?}", other),
        }
    }
    match meter.get_value(&mut serial, &no_port, 10, 3, 1500) {
        CycleStep::Done(Err(ErrorKind::LockTimeout)) => {}
        other => panic!("{:?}", other),
    }
    assert!(log.borrow().is_empty());
    assert_eq!(serial.acquire_lock("cellar", 0, 0), LockAttempt::Wait { millis: 500 });
    serial.release_lock("roof");
    match meter.get_value(&mut serial, &no_port, 10, 0, 0) {
        CycleStep::Done(Ok(_)) => {}
        other => panic!("{:?}", other),
    }
    assert_eq!(log.borrow().len(), 4);
}

#[test]
fn the_port_is_opened_once_with_8n1() {
    let opened: Rc<RefCell<Vec<(String, u32, u8, u8, Parity, u64, u8)>>> = Rc::new(RefCell::new(Vec::new()));
    let seen = opened.clone();
    let open = move |s: &SerialSettings, slave: u8| -> Result<MockModbusClient, MeterError> {
        seen.borrow_mut().push((
            s.port.clone(),
            s.baud_rate,
            s.data_bits,
            s.stop_bits,
            s.parity,
            s.timeout_secs,
            slave,
        ));
        Ok(MockModbusClient)
    };
    let mut serial: SharedSerial<MockModbusClient> = SharedSerial::new("/dev/ttyS3".to_string(), 19200, 4);
    assert!(!serial.is_connected());
    let meter = driver("garage", 9);
    let reading = match meter.get_value(&mut serial, &open, 55, 0, 0) {
        CycleStep::Done(Ok(reading)) => reading,
        other => panic!("{:?}", other),
    };
    assert_eq!(
        (reading.total_power, reading.import_power, reading.export_power, reading.total_kwh),
        (0, 0, 0, 0)
    );
    assert!(serial.is_connected());
    assert_eq!(meter.ensure_connected(&mut serial, &open), Ok(()));
    match meter.get_value(&mut serial, &open, 56, 0, 0) {
        CycleStep::Done(Ok(_)) => {}
        other => panic!("{:?}", other),
    }
    assert_eq!(
        *opened.borrow(),
        vec![("/dev/ttyS3".to_string(), 19200, 8, 1, Parity::Disabled, 4, 9)]
    );
}

#[test]
fn a_port_that_cannot_be_opened_is_a_transport_error() {
    let mut serial: SharedSerial<Scripted> = SharedSerial::new("/dev/ttyUSB0".to_string(), 9600, 5);
    let meter = driver("garage", 1);
    assert_eq!(meter.ensure_connected(&mut serial, &no_port), Err(ErrorKind::Transport));
    assert!(!serial.is_connected());
    assert_eq!(meter.read_float_register(&mut serial, &no_port, TOTAL_POWER), Err(ErrorKind::Transport));
    assert_eq!(serial.read_registers(1, TOTAL_POWER, 2), Err(ErrorKind::Transport));
    match meter.get_value(&mut serial, &no_port, 10, 0, 0) {
        CycleStep::Done(Err(ErrorKind::Transport)) => {}
        other => panic!("{:?}", other),
    }
    assert_eq!(serial.acquire_lock("roof", 0, 0), LockAttempt::Acquired);
}

#[test]
fn one_value_is_one_request_for_two_registers() {
    let (mut serial, log) = channel_with(vec![Ok(registers_of(230.5)), Ok(vec![7]), Err("crc".to_string())]);
    let meter = driver("garage", 42);
    assert_eq!(meter.read_float_register(&mut serial, &no_port, TOTAL_KWH), Ok(230.5f32.to_bits()));
    assert_eq!(*log.borrow(), vec![(42, 0x156, 2)]);
    assert_eq!(meter.read_float_register(&mut serial, &no_port, TOTAL_POWER), Err(ErrorKind::Transport));
    assert_eq!(meter.read_float_register(&mut serial, &no_port, IMPORT_POWER), Err(ErrorKind::Transport));
    assert_eq!(*log.borrow(), vec![(42, 0x156, 2), (42, 0x34, 2), (42, 0x500, 2)]);
    assert!(serial.is_connected());
}

#[test]
fn the_mock_client_reads_zeros() {
    let mut client = MockModbusClient;
    client.set_slave(3);
    assert_eq!(client.read_input_registers(0x34, 2).unwrap(), vec![0, 0]);
    assert_eq!(client.read_input_registers(0, 0).unwrap(), Vec::<u16>::new());
    assert_eq!(client.read_input_registers(9, 5).unwrap(), vec![0; 5]);
}

#[test]
fn meters_on_one_port_share_one_channel() {
    let share = |s: SharedSerial<MockModbusClient>| Rc::new(RefCell::new(s));
    let mut registry: SerialRegistry<Rc<RefCell<SharedSerial<MockModbusClient>>>> = SerialRegistry::new();
    let a = registry.get_or_create_shared_serial("/dev/ttyUSB0".to_string(), 9600, 5, share);
    let b = registry.get_or_create_shared_serial("/dev/ttyUSB0".to_string(), 19200, 9, share);
    let c = registry.get_or_create_shared_serial("/dev/ttyUSB1".to_string(), 9600, 5, share);
    assert!(Rc::ptr_eq(&a, &b));
    assert!(!Rc::ptr_eq(&a, &c));
    assert_eq!(b.borrow().timeout(), 5);
    assert_eq!(b.borrow().port(), "/dev/ttyUSB0");
    assert_eq!(b.borrow().settings().baud_rate, 9600);
    assert_eq!(a.borrow_mut().acquire_lock("garage", 0, 0), LockAttempt::Acquired);
    assert_eq!(b.borrow_mut().acquire_lock("roof", 0, 0), LockAttempt::Wait { millis: 500 });
    assert_eq!(c.borrow_mut().acquire_lock("roof", 0, 0), LockAttempt::Acquired);
}

#[test]
fn a_meter_is_made_after_its_kind() {
    let share = |s: SharedSerial<MockModbusClient>| Rc::new(RefCell::new(s));
    let mut registry: SerialRegistry<Rc<RefCell<SharedSerial<MockModbusClient>>>> = SerialRegistry::new();
    let first = create_meter(
        &mut registry,
        share,
        "garage".to_string(),
        MeterType::Sdm72d,
        "/dev/ttyUSB0".to_string(),
        9600,
        15,
        1,
        5,
    );
    let second = create_meter(
        &mut registry,
        share,
        "roof".to_string(),
        MeterType::Sdm72d,
        "/dev/ttyUSB0".to_string(),
        9600,
        20,
        2,
        5,
    );
    let third = create_meter(
        &mut registry,
        share,
        "demo".to_string(),
        MeterType::Mock,
        "/dev/ttyUSB7".to_string(),
        9600,
        99,
        3,
        77,
    );
    assert_eq!((first.get_polling_rate(), first.get_timeout()), (15, 5));
    assert_eq!((second.get_polling_rate(), second.get_timeout()), (20, 5));
    assert_eq!((third.get_polling_rate(), third.get_timeout()), (10, 5));
    match (&first, &second, &third) {
        (Meter::Sdm72d(a), Meter::Sdm72d(b), Meter::Mock(_)) => {
            assert!(Rc::ptr_eq(a.shared_serial(), b.shared_serial()));
            assert_eq!((a.get_polling_rate(), a.get_timeout()), (15, 5));
        }
        _ => panic!("wrong kinds"),
    }
    let unused_port = registry.get_or_create_shared_serial("/dev/ttyUSB7".to_string(), 1, 1, share);
    assert_eq!(unused_port.borrow().settings().baud_rate, 1);
}

#[test]
fn a_meter_that_cannot_reach_the_channel_follows_the_retry_policy() {
    let meter = driver("garage", 1);
    for retry in 0..3u32 {
        match meter.step_when_busy(retry, 500 * retry as u64) {
            CycleStep::Wait { millis: 500 } => {}
            other => panic!("{:?}", other),
        }
    }
    match meter.step_when_busy(3, 1500) {
        CycleStep::Done(Err(ErrorKind::LockTimeout)) => {}
        other => panic!("{:?}", other),
    }
    let hasty: SDM72DMeter<usize> = SDM72DMeter::new("roof".to_string(), 0, 2, 15, 1);
    match hasty.step_when_busy(2, 1000) {
        CycleStep::Done(Err(ErrorKind::LockTimeout)) => {}
        other => panic!("{:?}", other),
    }
}

#[test]
fn an_attempt_is_decided_by_time_limit_holder_and_retries() {
    assert_eq!(acquire_attempt(5, false, 0, 0), LockAttempt::Acquired);
    assert_eq!(acquire_attempt(5, false, 9, 4999), LockAttempt::Acquired);
    assert_eq!(acquire_attempt(5, false, 0, 5000), LockAttempt::TimedOut);
    assert_eq!(acquire_attempt(0, false, 0, 0), LockAttempt::Acquired);
    assert_eq!(acquire_attempt(0, true, 0, 0), LockAttempt::Wait { millis: 500 });
    assert_eq!(acquire_attempt(5, true, 2, 1000), LockAttempt::Wait { millis: 500 });
    assert_eq!(acquire_attempt(5, true, 3, 1500), LockAttempt::TimedOut);
    assert_eq!(acquire_attempt(1, true, 1, 500), LockAttempt::Wait { millis: 500 });
    assert_eq!(acquire_attempt(1, true, 2, 1000), LockAttempt::TimedOut);
    assert_eq!(acquire_attempt(u32::MAX, true, 0, u64::MAX), LockAttempt::TimedOut);
}

#[test]
fn a_new_port_gets_a_channel_with_the_given_settings() {
    let share = |s: SharedSerial<MockModbusClient>| Rc::new(RefCell::new(s));
    let mut registry: SerialRegistry<Rc<RefCell<SharedSerial<MockModbusClient>>>> = SerialRegistry::new();
    let meter = create_meter(
        &mut registry,
        share,
        "garage".to_string(),
        MeterType::Sdm72d,
        "/dev/ttyS9".to_string(),
        19200,
        15,
        1,
        7,
    );
    match meter {
        Meter::Sdm72d(m) => {
            let channel = m.shared_serial().borrow();
            assert_eq!(channel.port(), "/dev/ttyS9");
            assert_eq!(channel.settings().baud_rate, 19200);
            assert_eq!(channel.timeout(), 7);
            assert!(!channel.is_connected());
        }
        _ => panic!("wrong kind"),
    }
}
