//! Core of the Subspace daemon.

pub mod attention;
pub mod build_info;
pub mod cli;
pub mod clock;
pub mod config;
pub mod crypto;
pub mod failure;
pub mod gateway;
pub mod hard_failure;
pub mod ipc;
pub mod json;
pub mod launchd;
mod lists;
pub mod paths;
pub mod retry;
pub mod runtime_store;
pub mod server_url;
pub mod setup;
pub mod sorted_map;
pub mod storage;
pub mod subspace;
pub mod supervisor;
pub mod text;
pub mod websocket;
