use usage_dashboard::dashboard::{
    assemble_dashboard_metrics, by_model_query, instant_increase_query, model_breakdown,
    over_time_points, rate_query, typed_increase_query, DashboardQueryRows,
};
use usage_dashboard::prometheus::{QueryResult, Sample};

fn instant_row(labels: Vec<(&str, &str)>, value: &str) -> QueryResult {
    QueryResult {
        metric: labels
            .into_iter()
            .map(|(k, v)| (k.to_string(), v.to_string()))
            .collect(),
        value: Some(Sample { timestamp: 0, value: value.to_string() }),
        values: None,
    }
}

fn range_row(samples: Vec<(i64, &str)>) -> QueryResult {
    QueryResult {
        metric: vec![],
        value: None,
        values: Some(
            samples
                .into_iter()
                .map(|(ts, v)| Sample { timestamp: ts, value: v.to_string() })
                .collect(),
        ),
    }
}

#[test]
fn breakdown_drops_incomplete_rows_and_never_fails() {
    let rows = vec![
        instant_row(vec![("model", "sonnet")], "1000"),
        // No model label: dropped.
        instant_row(vec![("type", "input")], "500"),
        // Unparsable value: dropped.
        instant_row(vec![("model", "haiku")], "lots"),
        instant_row(vec![("model", "opus")], "2000.9"),
        // No sample at all: dropped.
        QueryResult {
            metric: vec![("model".to_string(), "ghost".to_string())],
            value: None,
            values: None,
        },
    ];
    let breakdown = model_breakdown(&rows);
    assert_eq!(breakdown.len(), 2);
    assert_eq!(breakdown[0].model, "sonnet");
    assert_eq!(breakdown[0].tokens, 1000);
    assert_eq!(breakdown[1].model, "opus");
    assert_eq!(breakdown[1].tokens, 2000);
}

#[test]
fn over_time_keeps_samples_in_order_with_zero_defaults() {
    let rows = vec![range_row(vec![(10, "1.5"), (20, "junk"), (30, "2")])];
    let points = over_time_points(&rows);
    assert_eq!(points.len(), 3);
    assert_eq!(points[0].timestamp, 10);
    assert_eq!(points[0].value_micros, 1_500_000);
    assert_eq!(points[1].value_micros, 0);
    assert_eq!(points[2].value_micros, 2_000_000);
    assert_eq!(over_time_points(&vec![]).len(), 0);
}

#[test]
fn dashboard_assembly_fills_every_field() {
    let rows = DashboardQueryRows {
        total_tokens: vec![instant_row(vec![], "1234.9")],
        input_tokens: vec![instant_row(vec![], "1000")],
        output_tokens: vec![instant_row(vec![], "234")],
        cache_read_tokens: vec![],
        cache_creation_tokens: vec![instant_row(vec![], "junk")],
        cost: vec![instant_row(vec![], "12.34")],
        active_time: vec![instant_row(vec![], "90.5")],
        sessions: vec![instant_row(vec![], "3")],
        lines_added: vec![instant_row(vec![], "120")],
        lines_removed: vec![instant_row(vec![], "40")],
        commits: vec![instant_row(vec![], "2")],
        pull_requests: vec![instant_row(vec![], "0")],
        by_model: vec![instant_row(vec![("model", "sonnet")], "1234")],
        over_time: vec![range_row(vec![(1, "0.5")])],
    };
    let m = assemble_dashboard_metrics(&rows);
    assert_eq!(m.total_tokens, 1234);
    assert_eq!(m.input_tokens, 1000);
    assert_eq!(m.output_tokens, 234);
    assert_eq!(m.cache_read_tokens, 0);
    assert_eq!(m.cache_creation_tokens, 0);
    assert_eq!(m.total_cost_micro_usd, 12_340_000);
    assert_eq!(m.active_time_micro_seconds, 90_500_000);
    assert_eq!(m.session_count, 3);
    assert_eq!(m.lines_added, 120);
    assert_eq!(m.lines_removed, 40);
    assert_eq!(m.commit_count, 2);
    assert_eq!(m.pull_request_count, 0);
    assert_eq!(m.tokens_by_model.len(), 1);
    assert_eq!(m.tokens_by_model[0].tokens, 1234);
    assert_eq!(m.tokens_over_time.len(), 1);
    assert_eq!(m.tokens_over_time[0].value_micros, 500_000);
}

#[test]
fn dashboard_queries_embed_the_resolved_window() {
    // A symbolic range: the window literal is the token itself.
    assert_eq!(
        instant_increase_query("claude_code_token_usage_tokens_total", "7d"),
        "sum(increase(claude_code_token_usage_tokens_total[7d]))"
    );
    // A custom range: the literal carries the window's length in seconds.
    assert_eq!(
        instant_increase_query("claude_code_cost_usage_USD_total", "86400s"),
        "sum(increase(claude_code_cost_usage_USD_total[86400s]))"
    );
    assert_eq!(
        typed_increase_query("\"input\"", "15m"),
        "sum(increase(claude_code_token_usage_tokens_total{type=\"input\"}[15m]))"
    );
    assert_eq!(
        by_model_query("1d"),
        "sum by (model) (increase(claude_code_token_usage_tokens_total[1d]))"
    );
    assert_eq!(
        rate_query("claude_code_cost_usage_USD_total", "5m"),
        "sum(rate(claude_code_cost_usage_USD_total[5m]))"
    );
}
