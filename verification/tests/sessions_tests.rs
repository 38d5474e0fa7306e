use usage_dashboard::prometheus::{QueryResult, Sample};
use usage_dashboard::sessions::{
    apply_cost_rows, extract_project_name, get_sessions_data, per_session_increase_query,
    per_session_type_query, sessions_from_lines, time_range_to_millis, time_range_to_promql,
};

fn line(ts: i64, project: &str, sid: &str) -> String {
    format!(
        "{{\"timestamp\":{},\"project\":\"{}\",\"sessionId\":\"{}\"}}",
        ts, project, sid
    )
}

fn row(labels: Vec<(&str, &str)>, value: &str) -> QueryResult {
    QueryResult {
        metric: labels
            .into_iter()
            .map(|(k, v)| (k.to_string(), v.to_string()))
            .collect(),
        value: Some(Sample { timestamp: 0, value: value.to_string() }),
        values: None,
    }
}

const DAY_MS: i64 = 86_400_000;

#[test]
fn project_names_are_last_path_segments() {
    assert_eq!(extract_project_name("/home/dev/projects/widget"), "widget");
    assert_eq!(extract_project_name("/home/dev/projects/widget/"), "widget");
    assert_eq!(extract_project_name("widget"), "widget");
    assert_eq!(extract_project_name("/"), "/");
    assert_eq!(extract_project_name(""), "");
}

#[test]
fn sessions_lookback_tables() {
    assert_eq!(time_range_to_millis("1h"), 3_600_000);
    assert_eq!(time_range_to_millis("24h"), DAY_MS);
    assert_eq!(time_range_to_millis("30d"), 2_592_000_000);
    // Unknown tokens fall back to the shortest supported range.
    assert_eq!(time_range_to_millis("whenever"), 3_600_000);
    assert_eq!(time_range_to_promql("8h"), "8h");
    assert_eq!(time_range_to_promql("whenever"), "1h");
}

#[test]
fn two_lines_with_one_session_id_fold_into_one_record() {
    let lines = vec![line(1_000, "/work/app", "s1"), line(5_000, "/work/app", "s1")];
    let sessions = sessions_from_lines(&lines, DAY_MS, "24h");
    assert_eq!(sessions.len(), 1);
    assert_eq!(sessions[0].session_id, "s1");
    assert_eq!(sessions[0].message_count, 2);
    assert_eq!(sessions[0].timestamp, 5_000);
    assert_eq!(sessions[0].project.as_deref(), Some("app"));
    assert_eq!(sessions[0].project_path.as_deref(), Some("/work/app"));
    assert_eq!(sessions[0].total_cost_micro_usd, 0);
}

#[test]
fn malformed_lines_are_skipped_not_fatal() {
    let lines = vec![
        "".to_string(),
        "not json".to_string(),
        "{\"timestamp\":1}".to_string(),
        line(1_000, "/work/app", "s1"),
    ];
    let sessions = sessions_from_lines(&lines, DAY_MS, "24h");
    assert_eq!(sessions.len(), 1);
    assert_eq!(sessions[0].message_count, 1);
}

#[test]
fn lines_before_the_cutoff_are_dropped() {
    // Cutoff sits at now minus one hour.
    let now = 10 * 3_600_000;
    let lines = vec![line(now - 2 * 3_600_000, "/a", "old"), line(now - 60_000, "/a", "new")];
    let sessions = sessions_from_lines(&lines, now, "1h");
    assert_eq!(sessions.len(), 1);
    assert_eq!(sessions[0].session_id, "new");
}

#[test]
fn cost_rows_enrich_matching_sessions_only() {
    let lines = vec![line(1_000, "/a/one", "s1"), line(2_000, "/a/two", "s2")];
    let mut sessions = sessions_from_lines(&lines, DAY_MS, "24h");
    let rows = vec![
        row(vec![("session_id", "s1")], "2.5"),
        row(vec![("model", "sonnet")], "9.9"),
        row(vec![("session_id", "missing")], "1.0"),
    ];
    apply_cost_rows(&mut sessions, &rows);
    assert_eq!(sessions[0].total_cost_micro_usd, 2_500_000);
    assert_eq!(sessions[1].total_cost_micro_usd, 0);
}

#[test]
fn sessions_view_enriches_sorts_and_rolls_up() {
    let lines = vec![
        line(1_000, "/work/alpha", "s1"),
        line(2_000, "/work/alpha", "s2"),
        line(3_000, "/work/beta", "s3"),
    ];
    let cost = Some(vec![
        row(vec![("session_id", "s1")], "10"),
        row(vec![("session_id", "s2")], "5"),
        row(vec![("session_id", "s3")], "7"),
    ]);
    let tokens = Some(vec![
        row(vec![("session_id", "s1")], "100"),
        row(vec![("session_id", "s2")], "50"),
    ]);
    let types = Some(vec![
        row(vec![("session_id", "s1"), ("type", "input")], "60"),
        row(vec![("session_id", "s1"), ("type", "output")], "40"),
        row(vec![("session_id", "s1"), ("type", "mystery")], "77"),
    ]);
    let times = Some(vec![row(vec![("session_id", "s1")], "12.5")]);
    let data = get_sessions_data(&lines, DAY_MS, "24h", &cost, &tokens, &types, &times);

    assert_eq!(data.total_count, 3);
    // Sorted by cost descending.
    assert_eq!(data.sessions[0].session_id, "s1");
    assert_eq!(data.sessions[1].session_id, "s3");
    assert_eq!(data.sessions[2].session_id, "s2");
    assert_eq!(data.sessions[0].total_cost_micro_usd, 10_000_000);
    assert_eq!(data.sessions[0].total_tokens, 100);
    assert_eq!(data.sessions[0].input_tokens, 60);
    assert_eq!(data.sessions[0].output_tokens, 40);
    assert_eq!(data.sessions[0].cache_read_tokens, 0);
    assert_eq!(data.sessions[0].active_time_micro_seconds, 12_500_000);
    assert_eq!(data.sessions[1].total_tokens, 0);

    // Projects fold by display name, sorted by cost descending.
    assert_eq!(data.projects.len(), 2);
    assert_eq!(data.projects[0].project, "alpha");
    assert_eq!(data.projects[0].session_count, 2);
    assert_eq!(data.projects[0].total_cost_micro_usd, 15_000_000);
    assert_eq!(data.projects[0].total_tokens, 150);
    assert_eq!(data.projects[1].project, "beta");
    assert_eq!(data.projects[1].session_count, 1);
}

#[test]
fn project_rollup_sums_cost_and_tokens() {
    // Two sessions of one project fold to one entry with summed totals.
    let lines = vec![line(1_000, "/p/A", "s1"), line(2_000, "/p/A", "s2")];
    let cost = Some(vec![
        row(vec![("session_id", "s1")], "10"),
        row(vec![("session_id", "s2")], "5"),
    ]);
    let tokens = Some(vec![
        row(vec![("session_id", "s1")], "100"),
        row(vec![("session_id", "s2")], "50"),
    ]);
    let data = get_sessions_data(&lines, DAY_MS, "24h", &cost, &tokens, &None, &None);
    assert_eq!(data.projects.len(), 1);
    assert_eq!(data.projects[0].project, "A");
    assert_eq!(data.projects[0].session_count, 2);
    assert_eq!(data.projects[0].total_cost_micro_usd, 15_000_000);
    assert_eq!(data.projects[0].total_tokens, 150);
}

#[test]
fn enrichment_failures_leave_sessions_bare() {
    let lines = vec![line(1_000, "/p/A", "s1")];
    let data = get_sessions_data(&lines, DAY_MS, "24h", &None, &None, &None, &None);
    assert_eq!(data.total_count, 1);
    assert_eq!(data.sessions[0].total_cost_micro_usd, 0);
    assert_eq!(data.sessions[0].total_tokens, 0);
    assert_eq!(data.sessions[0].active_time_micro_seconds, 0);
    assert_eq!(data.projects[0].project, "A");
}

#[test]
fn per_session_queries_embed_the_range_literal() {
    assert_eq!(
        per_session_increase_query("claude_code_cost_usage_USD_total", "24h"),
        "sum by (session_id) (increase(claude_code_cost_usage_USD_total[24h]))"
    );
    assert_eq!(
        per_session_type_query("7d"),
        "sum by (session_id, type) (increase(claude_code_token_usage_tokens_total[7d]))"
    );
}
