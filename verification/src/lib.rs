//! A multi-region RPC gateway: routing, health, rate limits, access control and stream
//! multiplexing as plain data and verified decisions.

pub mod chance;
pub mod cluster;
pub mod codec;
pub mod config;
pub mod dash;
pub mod dashboard;
pub mod error;
pub mod middleware;
pub mod names;
pub mod net;
pub mod proxy;
pub mod runtime;
pub mod shadow;
pub mod stats;
pub mod text;
