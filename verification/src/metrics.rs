//! The dashboard summary record and its two derived sequences.

use vstd::prelude::*;

verus! {

/// Total tokens attributed to one model.
#[derive(Clone, Debug)]
pub struct ModelTokens {
    pub model: String,
    pub tokens: u64,
}

/// One point of a time series, the value in micro-units.
#[derive(Clone, Copy, Debug, PartialEq, Eq, Structural)]
pub struct TimeSeriesPoint {
    pub timestamp: i64,
    pub value_micros: u64,
}

/// The flat dashboard summary: scalar totals plus the per-model breakdown
/// and the over-time series. Costs are micro-dollars and active time is
/// micro-seconds; token, line and count fields are whole units.
#[derive(Clone, Debug)]
pub struct DashboardMetrics {
    pub total_tokens: u64,
    pub total_cost_micro_usd: u64,
    pub active_time_micro_seconds: u64,
    pub session_count: u32,
    pub lines_added: u64,
    pub lines_removed: u64,
    pub commit_count: u32,
    pub pull_request_count: u32,
    pub tokens_by_model: Vec<ModelTokens>,
    pub tokens_over_time: Vec<TimeSeriesPoint>,
    pub input_tokens: u64,
    pub output_tokens: u64,
    pub cache_read_tokens: u64,
    pub cache_creation_tokens: u64,
}

/// The plain-value view of a per-model total.
pub open spec fn model_tokens_view(mt: ModelTokens) -> (Seq<char>, u64) {
    (mt.model@, mt.tokens)
}

/// The plain-value view of a time-series point.
pub open spec fn point_view(p: TimeSeriesPoint) -> (i64, u64) {
    (p.timestamp, p.value_micros)
}

} // verus!
