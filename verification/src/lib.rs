//! Calendar logic for an agent-facing iCloud server.

pub mod auth;
pub mod civil;
pub mod config;
pub mod error;
pub mod events;
pub mod exclusion;
pub mod ical;
pub mod icloud;
pub mod laws;
pub mod listing;
pub mod model;
pub mod read;
pub mod slots;
pub mod text;
pub mod views;
pub mod write;
