//! The metrics server's self-monitoring summary, assembled from a battery
//! of independent queries.
//!
//! Unlike the dashboard, this view degrades per field: a failed query is
//! handed in as `None` and its fields fall back to zero, so the health view
//! still renders when the monitored server is degraded. Every scalar field
//! holds its metric's value in micro-units.

use vstd::prelude::*;

use crate::dashboard::{over_time_samples, sample_point_view};
use crate::prometheus::{first_value_micros, label_get, QueryResult, Sample};

verus! {

/// One point of a self-monitoring sparkline, the value in micro-units.
#[derive(Clone, Copy, Debug, PartialEq, Eq, Structural)]
pub struct TimeSeriesPoint {
    pub timestamp: i64,
    pub value_micros: u64,
}

/// The plain-value view of a sparkline point.
pub open spec fn health_point_view(p: TimeSeriesPoint) -> (i64, u64) {
    (p.timestamp, p.value_micros)
}

/// The self-monitoring summary: server status, storage, memory, ingestion
/// and scrape scalars in micro-units, plus three sparkline series.
#[derive(Clone, Debug)]
pub struct PrometheusHealthMetrics {
    pub is_ready: bool,
    pub uptime_seconds: u64,
    pub version: String,
    pub go_version: String,
    pub storage_blocks_bytes: u64,
    pub storage_wal_bytes: u64,
    pub storage_total_bytes: u64,
    pub storage_retention_limit_bytes: u64,
    pub storage_retention_limit_seconds: u64,
    pub head_series: u64,
    pub oldest_timestamp_seconds: u64,
    pub newest_timestamp_seconds: u64,
    pub blocks_loaded: u64,
    pub process_memory_bytes: u64,
    pub heap_inuse_bytes: u64,
    pub heap_alloc_bytes: u64,
    pub goroutines: u64,
    pub cpu_seconds_rate: u64,
    pub samples_appended_rate: u64,
    pub series_created_rate: u64,
    pub target_count: u64,
    pub scrape_duration_seconds: u64,
    pub scrape_samples: u64,
    pub compactions_failed: u64,
    pub compactions_total: u64,
    pub wal_corruptions: u64,
    pub config_reload_success: bool,
    pub config_reload_timestamp: u64,
    pub storage_over_time: Vec<TimeSeriesPoint>,
    pub memory_over_time: Vec<TimeSeriesPoint>,
    pub samples_rate_over_time: Vec<TimeSeriesPoint>,
}

impl Default for PrometheusHealthMetrics {
    /// The zeroed summary every assembly starts from.
    fn default() -> (r: Self)
        ensures
            !r.is_ready,
            r.uptime_seconds == 0,
            r.version@ == Seq::<char>::empty(),
            r.go_version@ == Seq::<char>::empty(),
            r.storage_blocks_bytes == 0,
            r.storage_wal_bytes == 0,
            r.storage_total_bytes == 0,
            r.storage_retention_limit_bytes == 0,
            r.storage_retention_limit_seconds == 0,
            r.head_series == 0,
            r.oldest_timestamp_seconds == 0,
            r.newest_timestamp_seconds == 0,
            r.blocks_loaded == 0,
            r.process_memory_bytes == 0,
            r.heap_inuse_bytes == 0,
            r.heap_alloc_bytes == 0,
            r.goroutines == 0,
            r.cpu_seconds_rate == 0,
            r.samples_appended_rate == 0,
            r.series_created_rate == 0,
            r.target_count == 0,
            r.scrape_duration_seconds == 0,
            r.scrape_samples == 0,
            r.compactions_failed == 0,
            r.compactions_total == 0,
            r.wal_corruptions == 0,
            !r.config_reload_success,
            r.config_reload_timestamp == 0,
            r.storage_over_time@ == Seq::<TimeSeriesPoint>::empty(),
            r.memory_over_time@ == Seq::<TimeSeriesPoint>::empty(),
            r.samples_rate_over_time@ == Seq::<TimeSeriesPoint>::empty(),
    {
        PrometheusHealthMetrics {
            is_ready: false,
            uptime_seconds: 0,
            version: String::new(),
            go_version: String::new(),
            storage_blocks_bytes: 0,
            storage_wal_bytes: 0,
            storage_total_bytes: 0,
            storage_retention_limit_bytes: 0,
            storage_retention_limit_seconds: 0,
            head_series: 0,
            oldest_timestamp_seconds: 0,
            newest_timestamp_seconds: 0,
            blocks_loaded: 0,
            process_memory_bytes: 0,
            heap_inuse_bytes: 0,
            heap_alloc_bytes: 0,
            goroutines: 0,
            cpu_seconds_rate: 0,
            samples_appended_rate: 0,
            series_created_rate: 0,
            target_count: 0,
            scrape_duration_seconds: 0,
            scrape_samples: 0,
            compactions_failed: 0,
            compactions_total: 0,
            wal_corruptions: 0,
            config_reload_success: false,
            config_reload_timestamp: 0,
            storage_over_time: Vec::new(),
            memory_over_time: Vec::new(),
            samples_rate_over_time: Vec::new(),
        }
    }
}

/// The first value of a best-effort query: zero when the query failed,
/// returned no rows, or its value is unparsable.
pub open spec fn opt_first_micros(o: Option<Vec<QueryResult>>) -> u64 {
    match o {
        Some(rows) => first_value_micros(rows@),
        None => 0u64,
    }
}

/// The first value of a best-effort query with the zero-on-failure policy.
pub fn opt_rows_value(o: &Option<Vec<QueryResult>>) -> (r: u64)
    ensures
        r == opt_first_micros(*o),
{
    match o {
        Some(rows) => crate::prometheus::rows_first_value_micros(rows),
        None => 0,
    }
}

/// A label of a best-effort query's first row; empty when the query
/// failed, returned no rows, or the row lacks the label.
pub open spec fn opt_first_label(o: Option<Vec<QueryResult>>, key: Seq<char>) -> Seq<char> {
    match o {
        Some(rows) => if rows@.len() > 0 {
            match label_get(rows@[0].metric@, key) {
                Some(v) => v,
                None => Seq::<char>::empty(),
            }
        } else {
            Seq::<char>::empty()
        },
        None => Seq::<char>::empty(),
    }
}

/// Reads a label of a best-effort query's first row, defaulting to the
/// empty string.
pub fn opt_first_row_label(o: &Option<Vec<QueryResult>>, key: &str) -> (r: String)
    ensures
        r@ == opt_first_label(*o, key@),
{
    match o {
        Some(rows) => {
            if rows.len() > 0 {
                match rows[0].metric_get(key) {
                    Some(v) => v.clone(),
                    None => String::new(),
                }
            } else {
                String::new()
            }
        },
        None => String::new(),
    }
}

/// The sparkline points of a best-effort range query: empty when the query
/// failed, otherwise one point per sample of its first row.
pub open spec fn opt_series_views(o: Option<Vec<QueryResult>>) -> Seq<(i64, u64)> {
    match o {
        Some(rows) => over_time_samples(rows@).map_values(|s: Sample| sample_point_view(s)),
        None => Seq::<(i64, u64)>::empty(),
    }
}

/// Turns a best-effort range query into sparkline points.
pub fn opt_series_points(o: &Option<Vec<QueryResult>>) -> (r: Vec<TimeSeriesPoint>)
    ensures
        r@.map_values(|p: TimeSeriesPoint| health_point_view(p)) == opt_series_views(*o),
{
    let mut acc: Vec<TimeSeriesPoint> = Vec::new();
    match o {
        Some(rows) => {
            if rows.len() == 0 {
                proof {
                    assert(acc@.map_values(|p: TimeSeriesPoint| health_point_view(p))
                        =~= opt_series_views(*o));
                }
                return acc;
            }
            match &rows[0].values {
                Some(vals) => {
                    let n = vals.len();
                    for i in 0..n
                        invariant
                            n == vals@.len(),
                            acc@.map_values(|p: TimeSeriesPoint| health_point_view(p)) == vals@
                                .take(i as int).map_values(|s: Sample| sample_point_view(s)),
                    {
                        let p = TimeSeriesPoint {
                            timestamp: vals[i].timestamp,
                            value_micros: crate::numbers::micros_or_default(vals[i].value.as_str()),
                        };
                        let ghost before = acc@;
                        acc.push(p);
                        proof {
                            assert(vals@.take(i + 1) =~= vals@.take(i as int).push(
                                vals@[i as int],
                            ));
                            assert(acc@.map_values(|q: TimeSeriesPoint| health_point_view(q))
                                =~= before.map_values(|q: TimeSeriesPoint| health_point_view(q))
                                .push(health_point_view(p)));
                            assert(vals@.take(i + 1).map_values(|s: Sample| sample_point_view(s))
                                =~= vals@.take(i as int).map_values(
                                |s: Sample| sample_point_view(s),
                            ).push(sample_point_view(vals@[i as int])));
                        }
                    }
                    proof {
                        assert(vals@.take(n as int) =~= vals@);
                    }
                    acc
                },
                None => {
                    proof {
                        assert(acc@.map_values(|p: TimeSeriesPoint| health_point_view(p))
                            =~= opt_series_views(*o));
                    }
                    acc
                },
            }
        },
        None => {
            proof {
                assert(acc@.map_values(|p: TimeSeriesPoint| health_point_view(p))
                    =~= opt_series_views(*o));
            }
            acc
        },
    }
}

/// The sparkline step for a window's length in seconds: a staircase from
/// 15-second steps for quarter-hour windows up to one-hour steps beyond a
/// day.
pub open spec fn health_step_spec(start: int, end: int) -> Seq<char> {
    let duration = end - start;
    if duration <= 900 {
        "15s"@
    } else if duration <= 3600 {
        "60s"@
    } else if duration <= 14400 {
        "300s"@
    } else if duration <= 86400 {
        "900s"@
    } else {
        "3600s"@
    }
}

/// The sparkline step for a window.
pub fn health_step_for_window(start: i64, end: i64) -> (r: &'static str)
    ensures
        r@ == health_step_spec(start as int, end as int),
{
    let duration: i128 = end as i128 - start as i128;
    if duration <= 900 {
        "15s"
    } else if duration <= 3600 {
        "60s"
    } else if duration <= 14400 {
        "300s"
    } else if duration <= 86400 {
        "900s"
    } else {
        "3600s"
    }
}

/// The result rows of the health battery, one field per query; a `None`
/// records that that query failed and its fields default to zero.
pub struct HealthQueryRows {
    pub build_info: Option<Vec<QueryResult>>,
    pub uptime: Option<Vec<QueryResult>>,
    pub storage_blocks: Option<Vec<QueryResult>>,
    pub storage_wal: Option<Vec<QueryResult>>,
    pub retention_limit_bytes: Option<Vec<QueryResult>>,
    pub retention_limit_seconds: Option<Vec<QueryResult>>,
    pub head_series: Option<Vec<QueryResult>>,
    pub oldest_timestamp: Option<Vec<QueryResult>>,
    pub newest_timestamp: Option<Vec<QueryResult>>,
    pub blocks_loaded: Option<Vec<QueryResult>>,
    pub process_memory: Option<Vec<QueryResult>>,
    pub heap_inuse: Option<Vec<QueryResult>>,
    pub heap_alloc: Option<Vec<QueryResult>>,
    pub goroutines: Option<Vec<QueryResult>>,
    pub cpu_rate: Option<Vec<QueryResult>>,
    pub samples_appended_rate: Option<Vec<QueryResult>>,
    pub series_created_rate: Option<Vec<QueryResult>>,
    pub target_count: Option<Vec<QueryResult>>,
    pub scrape_duration: Option<Vec<QueryResult>>,
    pub scrape_samples: Option<Vec<QueryResult>>,
    pub compactions_failed: Option<Vec<QueryResult>>,
    pub compactions_total: Option<Vec<QueryResult>>,
    pub wal_corruptions: Option<Vec<QueryResult>>,
    pub config_reload_success: Option<Vec<QueryResult>>,
    pub config_reload_timestamp: Option<Vec<QueryResult>>,
    pub storage_over_time: Option<Vec<QueryResult>>,
    pub memory_over_time: Option<Vec<QueryResult>>,
    pub samples_rate_over_time: Option<Vec<QueryResult>>,
}

/// Assembles the self-monitoring summary. Every scalar is its query's
/// first value with the zero-on-failure policy; the total storage size is
/// the saturating sum of blocks and write-ahead-log bytes; the reload flag
/// is set exactly when its metric reads one; the version strings come from
/// the build-info row's labels; and each sparkline keeps its samples in
/// order.
pub fn assemble_health_metrics(rows: &HealthQueryRows, is_ready: bool) -> (m:
    PrometheusHealthMetrics)
    ensures
        m.is_ready == is_ready,
        m.uptime_seconds == opt_first_micros(rows.uptime),
        m.version@ == opt_first_label(rows.build_info, "version"@),
        m.go_version@ == opt_first_label(rows.build_info, "goversion"@),
        m.storage_blocks_bytes == opt_first_micros(rows.storage_blocks),
        m.storage_wal_bytes == opt_first_micros(rows.storage_wal),
        m.storage_total_bytes as int == ({
            let total = opt_first_micros(rows.storage_blocks) as int + opt_first_micros(
                rows.storage_wal,
            ) as int;
            if total <= u64::MAX {
                total
            } else {
                u64::MAX as int
            }
        }),
        m.storage_retention_limit_bytes == opt_first_micros(rows.retention_limit_bytes),
        m.storage_retention_limit_seconds == opt_first_micros(rows.retention_limit_seconds),
        m.head_series == opt_first_micros(rows.head_series),
        m.oldest_timestamp_seconds == opt_first_micros(rows.oldest_timestamp),
        m.newest_timestamp_seconds == opt_first_micros(rows.newest_timestamp),
        m.blocks_loaded == opt_first_micros(rows.blocks_loaded),
        m.process_memory_bytes == opt_first_micros(rows.process_memory),
        m.heap_inuse_bytes == opt_first_micros(rows.heap_inuse),
        m.heap_alloc_bytes == opt_first_micros(rows.heap_alloc),
        m.goroutines == opt_first_micros(rows.goroutines),
        m.cpu_seconds_rate == opt_first_micros(rows.cpu_rate),
        m.samples_appended_rate == opt_first_micros(rows.samples_appended_rate),
        m.series_created_rate == opt_first_micros(rows.series_created_rate),
        m.target_count == opt_first_micros(rows.target_count),
        m.scrape_duration_seconds == opt_first_micros(rows.scrape_duration),
        m.scrape_samples == opt_first_micros(rows.scrape_samples),
        m.compactions_failed == opt_first_micros(rows.compactions_failed),
        m.compactions_total == opt_first_micros(rows.compactions_total),
        m.wal_corruptions == opt_first_micros(rows.wal_corruptions),
        m.config_reload_success == (opt_first_micros(rows.config_reload_success) == 1_000_000),
        m.config_reload_timestamp == opt_first_micros(rows.config_reload_timestamp),
        m.storage_over_time@.map_values(|p: TimeSeriesPoint| health_point_view(p))
            == opt_series_views(rows.storage_over_time),
        m.memory_over_time@.map_values(|p: TimeSeriesPoint| health_point_view(p))
            == opt_series_views(rows.memory_over_time),
        m.samples_rate_over_time@.map_values(|p: TimeSeriesPoint| health_point_view(p))
            == opt_series_views(rows.samples_rate_over_time),
{
    let storage_blocks = opt_rows_value(&rows.storage_blocks);
    let storage_wal = opt_rows_value(&rows.storage_wal);
    PrometheusHealthMetrics {
        is_ready,
        uptime_seconds: opt_rows_value(&rows.uptime),
        version: opt_first_row_label(&rows.build_info, "version"),
        go_version: opt_first_row_label(&rows.build_info, "goversion"),
        storage_blocks_bytes: storage_blocks,
        storage_wal_bytes: storage_wal,
        storage_total_bytes: storage_blocks.saturating_add(storage_wal),
        storage_retention_limit_bytes: opt_rows_value(&rows.retention_limit_bytes),
        storage_retention_limit_seconds: opt_rows_value(&rows.retention_limit_seconds),
        head_series: opt_rows_value(&rows.head_series),
        oldest_timestamp_seconds: opt_rows_value(&rows.oldest_timestamp),
        newest_timestamp_seconds: opt_rows_value(&rows.newest_timestamp),
        blocks_loaded: opt_rows_value(&rows.blocks_loaded),
        process_memory_bytes: opt_rows_value(&rows.process_memory),
        heap_inuse_bytes: opt_rows_value(&rows.heap_inuse),
        heap_alloc_bytes: opt_rows_value(&rows.heap_alloc),
        goroutines: opt_rows_value(&rows.goroutines),
        cpu_seconds_rate: opt_rows_value(&rows.cpu_rate),
        samples_appended_rate: opt_rows_value(&rows.samples_appended_rate),
        series_created_rate: opt_rows_value(&rows.series_created_rate),
        target_count: opt_rows_value(&rows.target_count),
        scrape_duration_seconds: opt_rows_value(&rows.scrape_duration),
        scrape_samples: opt_rows_value(&rows.scrape_samples),
        compactions_failed: opt_rows_value(&rows.compactions_failed),
        compactions_total: opt_rows_value(&rows.compactions_total),
        wal_corruptions: opt_rows_value(&rows.wal_corruptions),
        config_reload_success: opt_rows_value(&rows.config_reload_success) == 1_000_000,
        config_reload_timestamp: opt_rows_value(&rows.config_reload_timestamp),
        storage_over_time: opt_series_points(&rows.storage_over_time),
        memory_over_time: opt_series_points(&rows.memory_over_time),
        samples_rate_over_time: opt_series_points(&rows.samples_rate_over_time),
    }
}

} // verus!
