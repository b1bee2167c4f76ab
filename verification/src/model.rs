use vstd::prelude::*;

verus! {

/// One normalized measurement of one meter.
///
/// The four measured quantities are IEEE-754 single-precision values held as
/// their bit patterns; `timestamp` counts seconds since the Unix epoch, UTC.
#[derive(Debug)]
pub struct Model {
    pub meter_name: String,
    pub timestamp: i64,
    pub total_power: u32,
    pub import_power: u32,
    pub export_power: u32,
    pub total_kwh: u32,
}

pub struct ModelView {
    pub meter_name: Seq<char>,
    pub timestamp: i64,
    pub total_power: u32,
    pub import_power: u32,
    pub export_power: u32,
    pub total_kwh: u32,
}

impl View for Model {
    type V = ModelView;

    open spec fn view(&self) -> ModelView {
        ModelView {
            meter_name: self.meter_name@,
            timestamp: self.timestamp,
            total_power: self.total_power,
            import_power: self.import_power,
            export_power: self.export_power,
            total_kwh: self.total_kwh,
        }
    }
}

impl Clone for Model {
    fn clone(&self) -> (r: Model)
        ensures
            r@ == self@,
    {
        Model {
            meter_name: self.meter_name.clone(),
            timestamp: self.timestamp,
            total_power: self.total_power,
            import_power: self.import_power,
            export_power: self.export_power,
            total_kwh: self.total_kwh,
        }
    }
}

/// What the store keeps of one reading: the three power values in
/// half precision (16 bits each), the energy counter in full single precision.
#[derive(Clone, Copy, Debug, PartialEq, Eq, Structural)]
pub struct Sample {
    pub timestamp: i64,
    pub total_power: i16,
    pub import_power: i16,
    pub export_power: i16,
    pub total_kwh: u32,
}

/// A stored row as it is laid out for persistence: a sample with the compact
/// id of its meter. `(meter_id, timestamp)` is the row's key.
#[derive(Clone, Copy, Debug, PartialEq, Eq, Structural)]
pub struct StoredRow {
    pub meter_id: u8,
    pub timestamp: i64,
    pub total_power: i16,
    pub import_power: i16,
    pub export_power: i16,
    pub total_kwh: u32,
}

impl StoredRow {
    pub open spec fn spec_sample(&self) -> Sample {
        Sample {
            timestamp: self.timestamp,
            total_power: self.total_power,
            import_power: self.import_power,
            export_power: self.export_power,
            total_kwh: self.total_kwh,
        }
    }

    pub open spec fn of(meter_id: u8, s: Sample) -> StoredRow {
        StoredRow {
            meter_id,
            timestamp: s.timestamp,
            total_power: s.total_power,
            import_power: s.import_power,
            export_power: s.export_power,
            total_kwh: s.total_kwh,
        }
    }

    #[verifier::when_used_as_spec(spec_sample)]
    pub fn sample(&self) -> (s: Sample)
        ensures
            s == self.spec_sample(),
    {
        Sample {
            timestamp: self.timestamp,
            total_power: self.total_power,
            import_power: self.import_power,
            export_power: self.export_power,
            total_kwh: self.total_kwh,
        }
    }

    pub fn new(meter_id: u8, s: Sample) -> (row: StoredRow)
        ensures
            row == StoredRow::of(meter_id, s),
    {
        StoredRow {
            meter_id,
            timestamp: s.timestamp,
            total_power: s.total_power,
            import_power: s.import_power,
            export_power: s.export_power,
            total_kwh: s.total_kwh,
        }
    }
}

} // verus!
