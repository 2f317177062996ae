//! Core engine of a Docker dashboard: normalizes container, image, network
//! and volume listings coming either from a native Docker API connection or
//! from `docker` CLI commands run over SSH, computes live CPU / memory /
//! network / block-I/O statistics from cumulative counters with a stateful
//! per-container cache, and tracks a set of named servers with one active
//! execution context at a time.

pub mod config;
pub mod fmt;
pub mod json;
pub mod logs;
pub mod manager;
pub mod parse;
pub mod persistence;
pub mod records;
pub mod servers;
pub mod ssh;
pub mod stats;
pub mod strutil;
pub mod trusted;
