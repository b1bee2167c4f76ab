//! The settings the service is started with.

use vstd::prelude::*;
use std::collections::HashMap;

verus! {

#[verifier::external_type_specification]
pub struct ExLevelFilter(log::LevelFilter);

#[derive(Debug)]
pub struct GlobalConfig {
    pub database_url: String,
    pub create_database: bool,
    pub health_check_port: Option<u16>,
    pub log_level: LogLevel,
    pub log_dir: String,
    pub web_server_port: Option<u16>,
    pub bind_address: String,
}

#[derive(Clone, Copy, Debug, PartialEq, Eq, Structural)]
pub enum LogLevel {
    Error,
    Warn,
    Info,
    Debug,
    Trace,
}

impl LogLevel {
    /// The filter of the `log` crate that lets through this level and the
    /// more severe ones.
    pub fn to_level_filter(&self) -> (filter: log::LevelFilter)
        ensures
            filter == match *self {
                LogLevel::Error => log::LevelFilter::Error,
                LogLevel::Warn => log::LevelFilter::Warn,
                LogLevel::Info => log::LevelFilter::Info,
                LogLevel::Debug => log::LevelFilter::Debug,
                LogLevel::Trace => log::LevelFilter::Trace,
            },
    {
        match self {
            LogLevel::Error => log::LevelFilter::Error,
            LogLevel::Warn => log::LevelFilter::Warn,
            LogLevel::Info => log::LevelFilter::Info,
            LogLevel::Debug => log::LevelFilter::Debug,
            LogLevel::Trace => log::LevelFilter::Trace,
        }
    }
}

/// The log level where the settings name none.
pub fn default_log_level() -> (level: LogLevel)
    ensures
        level == LogLevel::Info,
{
    LogLevel::Info
}

/// Whether a missing database is created where the settings do not say.
pub fn default_create_database() -> (create: bool)
    ensures
        !create,
{
    false
}

/// The log directory where the settings name none.
pub fn default_log_dir() -> (dir: String)
    ensures
        dir@ == "~/log/solar_meter"@,
{
    "~/log/solar_meter".to_owned()
}

/// The kinds of meter.
#[derive(Clone, Copy, Debug, PartialEq, Eq, Structural)]
pub enum MeterType {
    Sdm72d,
    Mock,
}

#[derive(Debug)]
pub struct MeterConfig {
    pub name: String,
    pub port: String,
    pub baud_rate: u32,
    pub timeout: u32,
    pub polling_rate: u32,
    pub modbus_address: u8,
    pub meter_type: MeterType,
}

#[derive(Debug)]
pub struct AppConfig {
    pub global: GlobalConfig,
    pub meters: HashMap<String, MeterConfig>,
}

} // verus!
