//! Heavy: the decisions of a challenge-issuing reverse proxy.

pub mod access_log;
pub mod breaker;
pub mod challenge;
pub mod clock;
pub mod config;
pub mod crypto;
pub mod float_bits;
pub mod gateway;
pub mod headers;
pub mod ip;
pub mod latency;
pub mod ml;
pub mod numbers;
pub mod socket;
pub mod text;
pub mod whitelist;
