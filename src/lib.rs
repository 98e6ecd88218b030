//! A TCP traffic generator: weighted target selection, paced workers and
//! the aggregation of their per-request measurements into a report.
//!
//! The library decides and computes; the program around it opens the
//! connections, keeps the time and writes the report out.
pub mod config;
pub mod metrics;
pub mod report;
pub mod selector;
pub mod text;
pub mod worker;
