//! The dashboard: who may see it, what it shows, and what it can change.

pub mod auth;
pub mod handlers;
