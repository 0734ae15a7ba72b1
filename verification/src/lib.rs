//! Remote-host telemetry metrics library.
//!
//! The heart of a remote telemetry dashboard: per-metric extractors that turn
//! loosely structured command output into typed values, a stateful CPU
//! utilization delta tracker, a per-interface record registry merging two data
//! sources, and human-readable byte / duration formatting. Everything here is
//! pure computation on plain values; the surrounding program supplies the
//! remote command transport and the terminal rendering.

pub mod cli;
pub mod cpu;
pub mod format;
pub mod fs;
pub mod net;
pub mod stats;
pub mod text;
