//! Publishers of telemetry.
pub mod kafka_laws;
pub mod kafka_yang;
