//! Verified building blocks of a network telemetry collector.
pub mod decimal;
pub mod fx_map;
pub mod netconf;
pub mod octets;
pub mod publishers;
pub mod text;
pub mod udp_notif;
pub mod yang_push;
