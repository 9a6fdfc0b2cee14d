//! Core transform engine for activity telemetry: a payload value type with
//! deep structural equality, stable sorts over event sequences, heartbeat
//! merging, gap flooding, key-based aggregation, and an RFC 3339 time
//! interval value type.

pub mod aggregate;
pub mod event;
pub mod flood;
pub mod heartbeat;
pub mod sort;
pub mod timeinterval;
pub mod value;
