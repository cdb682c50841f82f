//! Core of a one-wire temperature monitor: decoding sensor status text,
//! resolving probes, keeping the latest readings, and rendering them.

pub mod cache;
pub mod clock;
pub mod config;
pub mod decimal;
pub mod html;
pub mod metrics;
pub mod probe;
pub mod sampler;
pub mod sensor;
pub mod server;
pub mod table;
pub mod text;
