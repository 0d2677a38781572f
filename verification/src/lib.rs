//! Sensor store for digital temperature sensors: readings, their change
//! filter, timestamped measurements, the line-oriented durable log and the
//! registry of stores.

pub mod error;
pub mod log;
pub mod measurement;
pub mod registry;
pub mod sensor;
pub mod store;
pub mod temperature;
pub mod text;
pub mod timestamp;
