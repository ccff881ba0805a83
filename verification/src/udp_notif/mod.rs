//! UDP-Notif: the wire format of its packets and the reassembly of segmented
//! messages, per draft-ietf-netconf-udp-notif.
pub mod call_laws;
pub mod codec;
pub mod laws;
pub mod reassembly;
pub mod wire;
pub mod wire_laws;
