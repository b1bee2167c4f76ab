use vstd::prelude::*;

verus! {

/// The failures this library distinguishes.
#[derive(Clone, Copy, Debug, PartialEq, Eq, Structural)]
pub enum ErrorKind {
    /// Serial I/O failed, or a Modbus reply was missing or too short.
    Transport,
    /// The shared serial channel stayed busy for the whole retry budget.
    LockTimeout,
    /// The meter registry already holds its maximum of 256 names.
    CapacityExceeded,
    /// The store refused a row, or persisting it failed.
    Storage,
    /// A setting is missing or invalid.
    Configuration,
}

impl ErrorKind {
    /// Whether a polling cycle that ended with this error is simply retried
    /// after the cooldown. True of the two errors a meter read can produce.
    pub open spec fn is_retryable(self) -> bool {
        self == ErrorKind::Transport || self == ErrorKind::LockTimeout
    }

    pub fn retryable(&self) -> (r: bool)
        ensures
            r == self.is_retryable(),
    {
        match self {
            ErrorKind::Transport => true,
            ErrorKind::LockTimeout => true,
            _ => false,
        }
    }

    /// The text reported for this error.
    pub fn describe(&self) -> (e: MeterError)
        ensures
            e.message@ == self.text(),
    {
        match self {
            ErrorKind::Transport => MeterError::new("Modbus transport failure"),
            ErrorKind::LockTimeout => MeterError::new("Timeout waiting for serial port lock"),
            ErrorKind::CapacityExceeded => MeterError::new(
                "Failed to create meter ID - maximum number of meters (256) reached",
            ),
            ErrorKind::Storage => MeterError::new("Storage failure"),
            ErrorKind::Configuration => MeterError::new("Invalid configuration"),
        }
    }

    pub open spec fn text(self) -> Seq<char> {
        match self {
            ErrorKind::Transport => "Modbus transport failure"@,
            ErrorKind::LockTimeout => "Timeout waiting for serial port lock"@,
            ErrorKind::CapacityExceeded =>
                "Failed to create meter ID - maximum number of meters (256) reached"@,
            ErrorKind::Storage => "Storage failure"@,
            ErrorKind::Configuration => "Invalid configuration"@,
        }
    }
}

/// An error carrying only its message, as a transport hands it over.
#[derive(Debug)]
pub struct MeterError {
    pub message: String,
}

impl MeterError {
    pub fn new(message: &str) -> (e: MeterError)
        ensures
            e.message@ == message@,
    {
        MeterError { message: message.to_owned() }
    }
}

} // verus!
