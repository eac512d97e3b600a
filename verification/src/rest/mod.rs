//! The REST API: its error answer, its credentials and its v4 endpoints.

pub mod auth;
pub mod error;
pub mod nostr_auth;
pub mod v3;
pub mod v4;
