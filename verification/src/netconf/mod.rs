//! NETCONF: message framing and the shared cache of YANG modules.
pub mod call_laws;
pub mod codec;
pub mod framing;
pub mod framing_laws;
pub mod laws;
pub mod yang_module_cache;
