//! The v4 REST endpoints.

pub mod activity;
pub mod areas;
pub mod auth;
pub mod countries;
pub mod dashboard;
pub mod events;
pub mod invoices;
pub mod nostr;
pub mod place_boosts;
pub mod place_comments;
pub mod place_issues;
pub mod place_reports;
pub mod place_submissions;
pub mod places;
pub mod search;
pub mod top_editors;
pub mod users;
