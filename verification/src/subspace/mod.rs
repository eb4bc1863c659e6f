//! The connections to Subspace servers.

pub mod auth;
pub mod client;
pub mod identity;
pub mod manager;
