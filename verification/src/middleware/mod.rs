//! Who may use the proxy, and how often.

pub mod api_keys;
pub mod firewall;
pub mod ip_whitelist;
pub mod limiter;
pub mod rate_limiter;
