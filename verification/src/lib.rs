//! Verified core of a small network troubleshooting tool.

pub mod text;
pub mod ipv4;
pub mod cli;
pub mod ports;
pub mod ping;
pub mod dns;
pub mod ssl;
pub mod mac;
pub mod scan;
pub mod http;
pub mod tools;
