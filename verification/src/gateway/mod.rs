//! The connection to the gateway.

pub mod client;
pub mod device_auth_store;
pub mod device_identity;
pub mod protocol;
