use usage_dashboard::dashboard::{
    resolve_time_range, step_and_rate_window, time_range_to_promql, time_range_to_seconds,
};
use usage_dashboard::prometheus_health::health_step_for_window;

#[test]
fn symbolic_tokens_resolve_to_table_durations() {
    let now: i64 = 1_700_000_000;
    let table: Vec<(&str, i64)> = vec![
        ("15m", 900),
        ("1h", 3_600),
        ("4h", 14_400),
        ("1d", 86_400),
        ("7d", 604_800),
        ("30d", 2_592_000),
        ("90d", 7_776_000),
    ];
    for (token, secs) in table {
        let (start, end, literal) = resolve_time_range(token, now, None, None).unwrap();
        assert_eq!(end - start, secs);
        assert_eq!(end, now);
        assert_eq!(literal, token);
    }
}

#[test]
fn unknown_token_falls_back_to_shortest_range() {
    let now: i64 = 1_700_000_000;
    assert_eq!(time_range_to_seconds("fortnight"), 900);
    assert_eq!(time_range_to_promql("fortnight"), "15m");
    let (start, end, literal) = resolve_time_range("fortnight", now, None, None).unwrap();
    assert_eq!(end - start, 900);
    assert_eq!(literal, "15m");
}

#[test]
fn custom_range_writes_duration_literal() {
    let (start, end, literal) =
        resolve_time_range("custom", 1_700_000_000, Some(100), Some(86_500)).unwrap();
    assert_eq!(start, 100);
    assert_eq!(end, 86_500);
    assert_eq!(literal, "86400s");
}

#[test]
fn custom_range_requires_both_bounds() {
    let err = resolve_time_range("custom", 0, None, Some(5)).unwrap_err();
    assert_eq!(err, "Custom start time required");
    let err = resolve_time_range("custom", 0, Some(5), None).unwrap_err();
    assert_eq!(err, "Custom end time required");
}

#[test]
fn step_tables_follow_the_staircase() {
    assert_eq!(step_and_rate_window("15m", 0, 0), ("1m", "5m"));
    assert_eq!(step_and_rate_window("1h", 0, 0), ("1m", "5m"));
    assert_eq!(step_and_rate_window("4h", 0, 0), ("5m", "5m"));
    assert_eq!(step_and_rate_window("1d", 0, 0), ("1h", "1h"));
    assert_eq!(step_and_rate_window("7d", 0, 0), ("6h", "6h"));
    assert_eq!(step_and_rate_window("30d", 0, 0), ("1d", "1d"));
    assert_eq!(step_and_rate_window("90d", 0, 0), ("3d", "3d"));
    assert_eq!(step_and_rate_window("custom", 0, 3_600), ("1m", "5m"));
    assert_eq!(step_and_rate_window("custom", 0, 10_000), ("5m", "5m"));
    assert_eq!(step_and_rate_window("custom", 0, 86_400), ("1h", "1h"));
    assert_eq!(step_and_rate_window("custom", 0, 600_000), ("6h", "6h"));
    assert_eq!(step_and_rate_window("custom", 0, 2_000_000), ("1d", "1d"));
    assert_eq!(step_and_rate_window("custom", 0, 9_000_000), ("3d", "3d"));
}

#[test]
fn health_sparkline_steps_follow_their_own_staircase() {
    assert_eq!(health_step_for_window(0, 900), "15s");
    assert_eq!(health_step_for_window(0, 3_600), "60s");
    assert_eq!(health_step_for_window(0, 14_400), "300s");
    assert_eq!(health_step_for_window(0, 86_400), "900s");
    assert_eq!(health_step_for_window(0, 200_000), "3600s");
}
