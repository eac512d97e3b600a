//! The logic behind the JSON-RPC methods.

pub mod analytics;
pub mod boost;
pub mod admin;
pub mod electrum;
pub mod auth;
pub mod disks;
