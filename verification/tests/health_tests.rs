use usage_dashboard::prometheus::{QueryResult, Sample};
use usage_dashboard::prometheus_health::{
    assemble_health_metrics, HealthQueryRows, PrometheusHealthMetrics,
};

fn instant_row(labels: Vec<(&str, &str)>, value: &str) -> QueryResult {
    QueryResult {
        metric: labels
            .into_iter()
            .map(|(k, v)| (k.to_string(), v.to_string()))
            .collect(),
        value: Some(Sample { timestamp: 0, value: value.to_string() }),
        values: None,
    }
}

fn range_row(samples: Vec<(i64, &str)>) -> QueryResult {
    QueryResult {
        metric: vec![],
        value: None,
        values: Some(
            samples
                .into_iter()
                .map(|(ts, v)| Sample { timestamp: ts, value: v.to_string() })
                .collect(),
        ),
    }
}

fn all_failed() -> HealthQueryRows {
    HealthQueryRows {
        build_info: None,
        uptime: None,
        storage_blocks: None,
        storage_wal: None,
        retention_limit_bytes: None,
        retention_limit_seconds: None,
        head_series: None,
        oldest_timestamp: None,
        newest_timestamp: None,
        blocks_loaded: None,
        process_memory: None,
        heap_inuse: None,
        heap_alloc: None,
        goroutines: None,
        cpu_rate: None,
        samples_appended_rate: None,
        series_created_rate: None,
        target_count: None,
        scrape_duration: None,
        scrape_samples: None,
        compactions_failed: None,
        compactions_total: None,
        wal_corruptions: None,
        config_reload_success: None,
        config_reload_timestamp: None,
        storage_over_time: None,
        memory_over_time: None,
        samples_rate_over_time: None,
    }
}

#[test]
fn default_summary_is_zeroed() {
    let d = PrometheusHealthMetrics::default();
    assert!(!d.is_ready);
    assert_eq!(d.uptime_seconds, 0);
    assert_eq!(d.version, "");
    assert_eq!(d.storage_total_bytes, 0);
    assert!(!d.config_reload_success);
    assert!(d.storage_over_time.is_empty());
}

#[test]
fn every_failed_query_degrades_to_zero_and_the_call_still_succeeds() {
    let m = assemble_health_metrics(&all_failed(), false);
    assert!(!m.is_ready);
    assert_eq!(m.uptime_seconds, 0);
    assert_eq!(m.version, "");
    assert_eq!(m.go_version, "");
    assert_eq!(m.storage_total_bytes, 0);
    assert_eq!(m.head_series, 0);
    assert!(!m.config_reload_success);
    assert!(m.storage_over_time.is_empty());
    assert!(m.memory_over_time.is_empty());
    assert!(m.samples_rate_over_time.is_empty());
}

#[test]
fn partial_data_fills_its_fields() {
    let mut rows = all_failed();
    rows.build_info = Some(vec![instant_row(
        vec![("version", "2.53.0"), ("goversion", "go1.22")],
        "1",
    )]);
    rows.storage_blocks = Some(vec![instant_row(vec![], "1000")]);
    rows.storage_wal = Some(vec![instant_row(vec![], "24.5")]);
    rows.goroutines = Some(vec![instant_row(vec![], "42")]);
    rows.config_reload_success = Some(vec![instant_row(vec![], "1")]);
    rows.memory_over_time = Some(vec![range_row(vec![(5, "2048")])]);
    let m = assemble_health_metrics(&rows, true);
    assert!(m.is_ready);
    assert_eq!(m.version, "2.53.0");
    assert_eq!(m.go_version, "go1.22");
    assert_eq!(m.storage_blocks_bytes, 1_000_000_000);
    assert_eq!(m.storage_wal_bytes, 24_500_000);
    assert_eq!(m.storage_total_bytes, 1_024_500_000);
    assert_eq!(m.goroutines, 42_000_000);
    assert!(m.config_reload_success);
    assert_eq!(m.memory_over_time.len(), 1);
    assert_eq!(m.memory_over_time[0].timestamp, 5);
    assert_eq!(m.memory_over_time[0].value_micros, 2_048_000_000);
}

#[test]
fn reload_flag_requires_exactly_one() {
    let mut rows = all_failed();
    rows.config_reload_success = Some(vec![instant_row(vec![], "0")]);
    assert!(!assemble_health_metrics(&rows, false).config_reload_success);
    rows.config_reload_success = Some(vec![instant_row(vec![], "2")]);
    assert!(!assemble_health_metrics(&rows, false).config_reload_success);
    rows.config_reload_success = Some(vec![instant_row(vec![], "1.0")]);
    assert!(assemble_health_metrics(&rows, false).config_reload_success);
}
