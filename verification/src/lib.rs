//! Translates per-container resource usage, sampled as loosely formatted
//! human-readable text, into correctly scaled numeric gauge values and a
//! Prometheus text exposition of them.
//!
//! The pipeline is: unit conversion (a value and a unit symbol become a byte
//! count), composite field parsing (percentages, single sizes, "A / B" size
//! pairs), metric derivation (one container record becomes a set of named,
//! labeled gauges), and rendering (all gauges become one text document).
//! Every step is exact: values are carried as base-10 fixed-point numbers,
//! never as floating point.

pub mod decimal;
pub mod docker;
pub mod error;
pub mod labels;
pub mod laws;
pub mod metrics;
pub mod parse;
pub mod render;
pub mod text;
pub mod units;
