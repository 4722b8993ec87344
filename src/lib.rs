//! Ingest-buffer-flush pipeline for UAV position reports: a per-unit state
//! store with staleness eviction, status projection, a cache-aside call-sign
//! resolver, a reconnect backoff machine and the decision step of the service
//! loop that ties them together.
//!
//! Numeric observation fields are IEEE-754 binary64 values carried as their
//! bit patterns (`f64::to_bits`), so that no float arithmetic is needed here.
pub mod backoff;
pub mod buffer;
pub mod callsign;
pub mod config;
pub mod service;
pub mod telemetry;
