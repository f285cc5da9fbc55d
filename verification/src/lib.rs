//! Core of a TCP reverse proxy: a backend pool with round-robin selection
//! under live health flags, a tumbling-window rate limiter, and the request
//! pipeline that composes admission control, backend selection and upstream
//! host rewriting into one forwarding decision per request.
//!
//! Everything here is in-memory decision logic; the network transport, the
//! probe I/O and the telemetry export around it live outside this crate.

pub mod config;
pub mod parse;
pub mod pipeline;
pub mod pool;
pub mod ratelimit;

pub use config::Config;
pub use pipeline::LB;
