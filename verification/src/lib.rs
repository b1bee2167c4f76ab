//! Acquisition-to-retention core of a solar meter logger: register decoding,
//! shared serial arbitration, a compact time-series store and its retention
//! pass, each with a machine-checked contract.

pub mod error;
pub mod config;
pub mod model;
pub mod series;
pub mod database_sync;
pub mod compaction;
pub mod data_retention;
pub mod reader;
pub mod meters;
pub mod poller;
pub mod web_server;
