//! YANG-Push: subscriptions, and the validation of their notifications.
pub mod call_laws;
pub mod laws;
pub mod state;
pub mod subscription;
pub mod telemetry;
pub mod transition_laws;
pub mod validation;
pub mod yang;
