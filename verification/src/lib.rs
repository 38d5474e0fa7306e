//! A library for a desktop companion that visualizes developer-tool usage
//! metrics: it resolves symbolic time ranges into query windows, validates and
//! reshapes responses from a Prometheus-compatible metrics server, and
//! aggregates a local usage history into sessions, project rollups, streaks
//! and period-over-period comparisons.
//!
//! All monetary and fractional metric values are held in fixed-point
//! micro-units (one millionth of the base unit), since the library's
//! arithmetic is verified over integers.

pub mod dashboard;
pub mod dates;
pub mod insights;
pub mod metrics;
pub mod numbers;
pub mod prometheus;
pub mod prometheus_health;
pub mod seq_util;
pub mod sessions;
pub mod tray;

