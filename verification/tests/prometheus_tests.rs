use usage_dashboard::numbers::{micros_or_default, parse_micros, parse_u32, to_count_u32, u64_to_string};
use usage_dashboard::prometheus::{
    rows_first_value_micros, PrometheusError, QueryData, QueryResponse, QueryResult, Sample,
};

fn response(status: &str, rows: Vec<QueryResult>) -> QueryResponse {
    QueryResponse {
        status: status.to_string(),
        data: QueryData { result_type: "vector".to_string(), result: rows },
    }
}

fn instant_row(labels: Vec<(&str, &str)>, value: &str) -> QueryResult {
    QueryResult {
        metric: labels
            .into_iter()
            .map(|(k, v)| (k.to_string(), v.to_string()))
            .collect(),
        value: Some(Sample { timestamp: 0, value: value.to_string() }),
        values: None,
    }
}

#[test]
fn success_envelope_yields_rows() {
    let rows = response("success", vec![instant_row(vec![], "1")]).into_rows().unwrap();
    assert_eq!(rows.len(), 1);
}

#[test]
fn non_success_envelope_always_fails() {
    // Rows are present, but the status gate must refuse them whole.
    let r = response("error", vec![instant_row(vec![], "1")]).into_rows();
    match r {
        Err(PrometheusError::InvalidResponse(status)) => assert_eq!(status, "error"),
        _ => panic!("expected an invalid-response error"),
    }
    let msg = response("oops", vec![]).into_rows().unwrap_err().message();
    assert_eq!(msg, "Invalid response: oops");
}

#[test]
fn request_error_message_keeps_its_text() {
    let e = PrometheusError::Request("timed out".to_string());
    assert_eq!(e.message(), "HTTP request failed: timed out");
}

#[test]
fn metric_value_parsing_is_fixed_point_micro() {
    assert_eq!(parse_micros("0"), Some(0));
    assert_eq!(parse_micros("16.5"), Some(16_500_000));
    assert_eq!(parse_micros("12"), Some(12_000_000));
    assert_eq!(parse_micros("12."), Some(12_000_000));
    assert_eq!(parse_micros(".5"), Some(500_000));
    assert_eq!(parse_micros("0.000001"), Some(1));
    // Digits past the sixth place are truncated.
    assert_eq!(parse_micros("1.2345678"), Some(1_234_567));
    assert_eq!(parse_micros(""), None);
    assert_eq!(parse_micros("."), None);
    assert_eq!(parse_micros("-1"), None);
    assert_eq!(parse_micros("1e3"), None);
    assert_eq!(parse_micros("1.2.3"), None);
    assert_eq!(parse_micros("99999999999999999999"), None);
    assert_eq!(micros_or_default("abc"), 0);
    assert_eq!(micros_or_default("2.5"), 2_500_000);
}

#[test]
fn u32_parsing_accepts_plain_digits_only() {
    assert_eq!(parse_u32("0"), Some(0));
    assert_eq!(parse_u32("23"), Some(23));
    assert_eq!(parse_u32("4294967295"), Some(u32::MAX));
    assert_eq!(parse_u32("4294967296"), None);
    assert_eq!(parse_u32(""), None);
    assert_eq!(parse_u32("1.5"), None);
    assert_eq!(parse_u32("+5"), None);
}

#[test]
fn decimal_rendering_round_trips() {
    assert_eq!(u64_to_string(0), "0");
    assert_eq!(u64_to_string(907), "907");
    assert_eq!(u64_to_string(u64::MAX), "18446744073709551615");
}

#[test]
fn count_conversion_truncates_and_saturates() {
    assert_eq!(to_count_u32(2_500_000), 2);
    assert_eq!(to_count_u32(999_999), 0);
    assert_eq!(to_count_u32(u64::MAX), u32::MAX);
}

#[test]
fn first_row_value_defaults_to_zero() {
    assert_eq!(rows_first_value_micros(&vec![]), 0);
    assert_eq!(rows_first_value_micros(&vec![instant_row(vec![], "nonsense")]), 0);
    assert_eq!(rows_first_value_micros(&vec![instant_row(vec![], "7.25")]), 7_250_000);
    let no_sample = QueryResult { metric: vec![], value: None, values: None };
    assert_eq!(rows_first_value_micros(&vec![no_sample]), 0);
}

#[test]
fn labels_are_found_by_name() {
    let row = instant_row(vec![("model", "sonnet"), ("type", "input")], "1");
    assert_eq!(row.metric_get("model").unwrap(), "sonnet");
    assert_eq!(row.metric_get("type").unwrap(), "input");
    assert!(row.metric_get("session_id").is_none());
}

#[test]
fn metric_discovery_keeps_only_own_names() {
    let names = vec![
        "claude_code_token_usage_tokens_total".to_string(),
        "go_goroutines".to_string(),
        "claude_code_cost_usage_USD_total".to_string(),
        "claude_code".to_string(),
    ];
    let kept = usage_dashboard::prometheus::filter_own_metrics(names);
    assert_eq!(
        kept,
        vec![
            "claude_code_token_usage_tokens_total".to_string(),
            "claude_code_cost_usage_USD_total".to_string(),
        ]
    );
}
