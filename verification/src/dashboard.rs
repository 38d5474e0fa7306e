//! Resolving a symbolic time range into a concrete query window, and
//! assembling the dashboard summary from query results.
//!
//! A range selector is one of the fixed tokens `15m`, `1h`, `4h`, `1d`,
//! `7d`, `30d`, `90d`, or the literal `custom` with explicit epoch-second
//! bounds. Unknown tokens fall back to the shortest supported duration;
//! that is policy, not an error.

use vstd::prelude::*;

use crate::metrics::{
    model_tokens_view, point_view, DashboardMetrics, ModelTokens, TimeSeriesPoint,
};
use crate::numbers::{
    count_u32_from_micros, dec_chars, micros_or_zero, parse_micros_spec, push_decimal, str_eq,
    to_count_u32,
};
use crate::prometheus::{first_value_micros, label_get, QueryResult, Sample};

verus! {

/// Seconds covered by a symbolic range token; unknown tokens count as the
/// shortest supported range.
pub open spec fn time_range_to_seconds_spec(r: Seq<char>) -> i64 {
    if r == "15m"@ {
        900i64
    } else if r == "1h"@ {
        3600i64
    } else if r == "4h"@ {
        14400i64
    } else if r == "1d"@ {
        86400i64
    } else if r == "7d"@ {
        604800i64
    } else if r == "30d"@ {
        2592000i64
    } else if r == "90d"@ {
        7776000i64
    } else {
        900i64
    }
}

/// The query-language range literal for a symbolic token; unknown tokens
/// fall back to the shortest supported range.
pub open spec fn time_range_to_promql_spec(r: Seq<char>) -> Seq<char> {
    if r == "15m"@ || r == "1h"@ || r == "4h"@ || r == "1d"@ || r == "7d"@ || r == "30d"@ || r
        == "90d"@ {
        r
    } else {
        "15m"@
    }
}

/// Seconds covered by a symbolic range token.
pub fn time_range_to_seconds(range: &str) -> (r: i64)
    ensures
        r == time_range_to_seconds_spec(range@),
{
    if str_eq(range, "15m") {
        900
    } else if str_eq(range, "1h") {
        3600
    } else if str_eq(range, "4h") {
        14400
    } else if str_eq(range, "1d") {
        86400
    } else if str_eq(range, "7d") {
        604800
    } else if str_eq(range, "30d") {
        2592000
    } else if str_eq(range, "90d") {
        7776000
    } else {
        900
    }
}

/// The query-language range literal for a symbolic token.
pub fn time_range_to_promql(range: &str) -> (r: &'static str)
    ensures
        r@ == time_range_to_promql_spec(range@),
{
    if str_eq(range, "15m") {
        "15m"
    } else if str_eq(range, "1h") {
        "1h"
    } else if str_eq(range, "4h") {
        "4h"
    } else if str_eq(range, "1d") {
        "1d"
    } else if str_eq(range, "7d") {
        "7d"
    } else if str_eq(range, "30d") {
        "30d"
    } else if str_eq(range, "90d") {
        "90d"
    } else {
        "15m"
    }
}

/// The range literal written for a custom window: its length in seconds
/// followed by `s`, with a leading minus sign when the bounds are reversed.
pub open spec fn duration_literal_chars(start: int, end: int) -> Seq<char> {
    if end >= start {
        dec_chars(end - start) + "s"@
    } else {
        "-"@ + dec_chars(start - end) + "s"@
    }
}

/// Writes the range literal for a custom window.
pub fn duration_literal(start: i64, end: i64) -> (r: String)
    ensures
        r@ == duration_literal_chars(start as int, end as int),
{
    let d: i128 = end as i128 - start as i128;
    if d >= 0 {
        let mut out = String::new();
        push_decimal(&mut out, d as u64);
        out.append("s");
        proof {
            assert(out@ =~= duration_literal_chars(start as int, end as int));
        }
        out
    } else {
        let mut out = String::from_str("-");
        push_decimal(&mut out, (-d) as u64);
        out.append("s");
        proof {
            assert(out@ =~= duration_literal_chars(start as int, end as int));
        }
        out
    }
}

/// Resolves a range selector into `(start, end, range literal)`.
///
/// A symbolic token ends at `now` and starts one table duration earlier;
/// `custom` takes both explicit bounds and writes their length as the
/// literal, and is the only selector that can fail: each missing bound has
/// its own error message.
pub fn resolve_time_range(
    time_range: &str,
    now: i64,
    custom_start: Option<i64>,
    custom_end: Option<i64>,
) -> (r: Result<(i64, i64, String), String>)
    requires
        now >= 0,
    ensures
        match r {
            Ok(t) => if time_range@ == "custom"@ {
                custom_start == Some(t.0) && custom_end == Some(t.1) && t.2@
                    == duration_literal_chars(t.0 as int, t.1 as int)
            } else {
                t.0 == now - time_range_to_seconds_spec(time_range@) && t.1 == now && t.2@
                    == time_range_to_promql_spec(time_range@)
            },
            Err(m) => time_range@ == "custom"@ && if custom_start is None {
                m@ == "Custom start time required"@
            } else {
                custom_end is None && m@ == "Custom end time required"@
            },
        },
{
    if str_eq(time_range, "custom") {
        let start = match custom_start {
            Some(s) => s,
            None => {
                return Err(String::from_str("Custom start time required"));
            },
        };
        let end = match custom_end {
            Some(e) => e,
            None => {
                return Err(String::from_str("Custom end time required"));
            },
        };
        let literal = duration_literal(start, end);
        Ok((start, end, literal))
    } else {
        let duration = time_range_to_seconds(time_range);
        let promql = time_range_to_promql(time_range);
        Ok((now - duration, now, String::from_str(promql)))
    }
}

/// The query step and rate window for a range selector, chosen to keep the
/// number of returned points within a readable chart budget. For `custom`
/// the staircase runs on the window's length in seconds.
pub open spec fn step_window_spec(range: Seq<char>, start: int, end: int) -> (Seq<char>, Seq<
    char,
>) {
    if range == "15m"@ || range == "1h"@ {
        ("1m"@, "5m"@)
    } else if range == "4h"@ {
        ("5m"@, "5m"@)
    } else if range == "1d"@ {
        ("1h"@, "1h"@)
    } else if range == "7d"@ {
        ("6h"@, "6h"@)
    } else if range == "30d"@ {
        ("1d"@, "1d"@)
    } else if range == "90d"@ {
        ("3d"@, "3d"@)
    } else if range == "custom"@ {
        let duration = end - start;
        if duration <= 3600 {
            ("1m"@, "5m"@)
        } else if duration <= 14400 {
            ("5m"@, "5m"@)
        } else if duration <= 86400 {
            ("1h"@, "1h"@)
        } else if duration <= 604800 {
            ("6h"@, "6h"@)
        } else if duration <= 2592000 {
            ("1d"@, "1d"@)
        } else {
            ("3d"@, "3d"@)
        }
    } else {
        ("1m"@, "5m"@)
    }
}

/// The query step and rate window for a range selector.
pub fn step_and_rate_window(range: &str, start: i64, end: i64) -> (r: (
    &'static str,
    &'static str,
))
    ensures
        r.0@ == step_window_spec(range@, start as int, end as int).0,
        r.1@ == step_window_spec(range@, start as int, end as int).1,
{
    if str_eq(range, "15m") || str_eq(range, "1h") {
        ("1m", "5m")
    } else if str_eq(range, "4h") {
        ("5m", "5m")
    } else if str_eq(range, "1d") {
        ("1h", "1h")
    } else if str_eq(range, "7d") {
        ("6h", "6h")
    } else if str_eq(range, "30d") {
        ("1d", "1d")
    } else if str_eq(range, "90d") {
        ("3d", "3d")
    } else if str_eq(range, "custom") {
        let duration: i128 = end as i128 - start as i128;
        if duration <= 3600 {
            ("1m", "5m")
        } else if duration <= 14400 {
            ("5m", "5m")
        } else if duration <= 86400 {
            ("1h", "1h")
        } else if duration <= 604800 {
            ("6h", "6h")
        } else if duration <= 2592000 {
            ("1d", "1d")
        } else {
            ("3d", "3d")
        }
    } else {
        ("1m", "5m")
    }
}

/// Writes the instant query summing a counter's increase over the resolved
/// range literal: the window the caller resolved is embedded verbatim.
pub fn instant_increase_query(metric: &str, range: &str) -> (r: String)
    ensures
        r@ == "sum(increase("@ + metric@ + "["@ + range@ + "]))"@,
{
    let mut out = String::from_str("sum(increase(");
    out.append(metric);
    out.append("[");
    out.append(range);
    out.append("]))");
    proof {
        assert(out@ =~= "sum(increase("@ + metric@ + "["@ + range@ + "]))"@);
    }
    out
}

/// Writes the instant query summing token increase for one type selector
/// over the resolved range literal.
pub fn typed_increase_query(type_selector: &str, range: &str) -> (r: String)
    ensures
        r@ == "sum(increase(claude_code_token_usage_tokens_total{type="@ + type_selector@
            + "}["@ + range@ + "]))"@,
{
    let mut out = String::from_str("sum(increase(claude_code_token_usage_tokens_total{type=");
    out.append(type_selector);
    out.append("}[");
    out.append(range);
    out.append("]))");
    proof {
        assert(out@ =~= "sum(increase(claude_code_token_usage_tokens_total{type="@
            + type_selector@ + "}["@ + range@ + "]))"@);
    }
    out
}

/// Writes the grouped instant query for per-model token totals over the
/// resolved range literal.
pub fn by_model_query(range: &str) -> (r: String)
    ensures
        r@ == "sum by (model) (increase(claude_code_token_usage_tokens_total["@ + range@
            + "]))"@,
{
    let mut out = String::from_str("sum by (model) (increase(claude_code_token_usage_tokens_total[");
    out.append(range);
    out.append("]))");
    proof {
        assert(out@ =~= "sum by (model) (increase(claude_code_token_usage_tokens_total["@
            + range@ + "]))"@);
    }
    out
}

/// Writes the ranged query summing a counter's per-second rate over the
/// resolved rate window.
pub fn rate_query(metric: &str, rate_window: &str) -> (r: String)
    ensures
        r@ == "sum(rate("@ + metric@ + "["@ + rate_window@ + "]))"@,
{
    let mut out = String::from_str("sum(rate(");
    out.append(metric);
    out.append("[");
    out.append(rate_window);
    out.append("]))");
    proof {
        assert(out@ =~= "sum(rate("@ + metric@ + "["@ + rate_window@ + "]))"@);
    }
    out
}

/// What one grouped row contributes to the per-model breakdown: its model
/// label and whole-token value, or nothing when the label is missing, the
/// sample is absent, or the value is unparsable.
pub open spec fn row_model_view(row: QueryResult) -> Option<(Seq<char>, u64)> {
    match label_get(row.metric@, "model"@) {
        Some(name) => match row.value {
            Some(s) => match parse_micros_spec(s.value@) {
                Some(v) => Some((name, v / 1_000_000u64)),
                None => None,
            },
            None => None,
        },
        None => None,
    }
}

/// The per-model breakdown of a grouped result set: rows without a model
/// label or with an unparsable value are dropped, the rest keep their
/// order.
pub open spec fn model_breakdown_views(rows: Seq<QueryResult>) -> Seq<(Seq<char>, u64)>
    decreases rows.len(),
{
    if rows.len() == 0 {
        Seq::<(Seq<char>, u64)>::empty()
    } else {
        match row_model_view(rows[0]) {
            Some(p) => seq![p] + model_breakdown_views(rows.drop_first()),
            None => model_breakdown_views(rows.drop_first()),
        }
    }
}

proof fn lemma_model_breakdown_push(rows: Seq<QueryResult>, x: QueryResult)
    ensures
        model_breakdown_views(rows.push(x)) == model_breakdown_views(rows) + (match row_model_view(
            x,
        ) {
            Some(p) => seq![p],
            None => Seq::<(Seq<char>, u64)>::empty(),
        }),
    decreases rows.len(),
{
    let tail = (match row_model_view(x) {
        Some(p) => seq![p],
        None => Seq::<(Seq<char>, u64)>::empty(),
    });
    if rows.len() == 0 {
        assert(rows.push(x)[0] == x);
        assert(rows.push(x).drop_first() =~= Seq::<QueryResult>::empty());
        match row_model_view(x) {
            Some(p) => {
                assert(model_breakdown_views(rows.push(x)) == seq![p] + model_breakdown_views(
                    rows.push(x).drop_first(),
                ));
                assert(model_breakdown_views(rows.push(x)) =~= model_breakdown_views(rows)
                    + tail);
            },
            None => {
                assert(model_breakdown_views(rows.push(x)) == model_breakdown_views(
                    rows.push(x).drop_first(),
                ));
                assert(model_breakdown_views(rows.push(x)) =~= model_breakdown_views(rows)
                    + tail);
            },
        }
    } else {
        lemma_model_breakdown_push(rows.drop_first(), x);
        assert(rows.push(x)[0] == rows[0]);
        assert(rows.push(x).drop_first() =~= rows.drop_first().push(x));
        match row_model_view(rows[0]) {
            Some(p) => {
                assert(model_breakdown_views(rows.push(x)) =~= model_breakdown_views(rows)
                    + tail);
            },
            None => {
                assert(model_breakdown_views(rows.push(x)) =~= model_breakdown_views(rows)
                    + tail);
            },
        }
    }
}

/// Builds the per-model token breakdown from a grouped result set, as
/// `model_breakdown_views` describes: rows missing the model label or with
/// an unparsable value are dropped, never an error.
pub fn model_breakdown(rows: &Vec<QueryResult>) -> (r: Vec<ModelTokens>)
    ensures
        r@.map_values(|mt: ModelTokens| model_tokens_view(mt)) == model_breakdown_views(rows@),
{
    let mut acc: Vec<ModelTokens> = Vec::new();
    let n = rows.len();
    proof {
        assert(acc@.map_values(|mt: ModelTokens| model_tokens_view(mt)) =~= model_breakdown_views(
            rows@.take(0),
        ));
    }
    for i in 0..n
        invariant
            n == rows@.len(),
            acc@.map_values(|mt: ModelTokens| model_tokens_view(mt)) == model_breakdown_views(
                rows@.take(i as int),
            ),
    {
        proof {
            assert(rows@.take(i + 1) =~= rows@.take(i as int).push(rows@[i as int]));
            lemma_model_breakdown_push(rows@.take(i as int), rows@[i as int]);
        }
        match rows[i].metric_get("model") {
            Some(name) => {
                match &rows[i].value {
                    Some(sample) => {
                        match crate::numbers::parse_micros(sample.value.as_str()) {
                            Some(v) => {
                                let mt = ModelTokens { model: name.clone(), tokens: v / 1_000_000 };
                                let ghost before = acc@;
                                acc.push(mt);
                                proof {
                                    assert(acc@.map_values(
                                        |m: ModelTokens| model_tokens_view(m),
                                    ) =~= before.map_values(|m: ModelTokens| model_tokens_view(m))
                                        + seq![(mt.model@, mt.tokens)]);
                                    assert(acc@.map_values(|m: ModelTokens| model_tokens_view(m))
                                        =~= model_breakdown_views(rows@.take(i + 1)));
                                }
                            },
                            None => {
                                proof {
                                    assert(acc@.map_values(|m: ModelTokens| model_tokens_view(m))
                                        =~= model_breakdown_views(rows@.take(i + 1)));
                                }
                            },
                        }
                    },
                    None => {
                        proof {
                            assert(acc@.map_values(|m: ModelTokens| model_tokens_view(m))
                                =~= model_breakdown_views(rows@.take(i + 1)));
                        }
                    },
                }
            },
            None => {
                proof {
                    assert(acc@.map_values(|m: ModelTokens| model_tokens_view(m))
                        =~= model_breakdown_views(rows@.take(i + 1)));
                }
            },
        }
    }
    proof {
        assert(rows@.take(n as int) =~= rows@);
    }
    acc
}

/// The sample sequence of a range query's first row; empty when there are
/// no rows or no samples.
pub open spec fn over_time_samples(rows: Seq<QueryResult>) -> Seq<Sample> {
    if rows.len() > 0 {
        match rows[0].values {
            Some(v) => v@,
            None => Seq::<Sample>::empty(),
        }
    } else {
        Seq::<Sample>::empty()
    }
}

/// The plain-value view of one sample as a chart point: its timestamp and
/// micro-unit value, zero when unparsable.
pub open spec fn sample_point_view(s: Sample) -> (i64, u64) {
    (s.timestamp, micros_or_zero(s.value@))
}

/// Turns the first row of a range query into chart points, one per sample
/// in order, each value parsed with the zero-on-failure policy.
pub fn over_time_points(rows: &Vec<QueryResult>) -> (r: Vec<TimeSeriesPoint>)
    ensures
        r@.map_values(|p: TimeSeriesPoint| point_view(p)) == over_time_samples(rows@).map_values(
            |s: Sample| sample_point_view(s),
        ),
{
    let mut acc: Vec<TimeSeriesPoint> = Vec::new();
    if rows.len() == 0 {
        proof {
            assert(acc@.map_values(|p: TimeSeriesPoint| point_view(p)) =~= over_time_samples(
                rows@,
            ).map_values(|s: Sample| sample_point_view(s)));
        }
        return acc;
    }
    match &rows[0].values {
        Some(vals) => {
            let n = vals.len();
            for i in 0..n
                invariant
                    n == vals@.len(),
                    acc@.map_values(|p: TimeSeriesPoint| point_view(p)) == vals@.take(
                        i as int,
                    ).map_values(|s: Sample| sample_point_view(s)),
            {
                let p = TimeSeriesPoint {
                    timestamp: vals[i].timestamp,
                    value_micros: crate::numbers::micros_or_default(vals[i].value.as_str()),
                };
                let ghost before = acc@;
                acc.push(p);
                proof {
                    assert(vals@.take(i + 1) =~= vals@.take(i as int).push(vals@[i as int]));
                    assert(acc@.map_values(|q: TimeSeriesPoint| point_view(q)) =~= before
                        .map_values(|q: TimeSeriesPoint| point_view(q)).push(point_view(p)));
                    assert(vals@.take(i + 1).map_values(|s: Sample| sample_point_view(s))
                        =~= vals@.take(i as int).map_values(|s: Sample| sample_point_view(s)).push(
                        sample_point_view(vals@[i as int]),
                    ));
                }
            }
            proof {
                assert(vals@.take(n as int) =~= vals@);
            }
            acc
        },
        None => {
            proof {
                assert(acc@.map_values(|p: TimeSeriesPoint| point_view(p)) =~= over_time_samples(
                    rows@,
                ).map_values(|s: Sample| sample_point_view(s)));
            }
            acc
        },
    }
}

/// The result rows of the dashboard's fixed battery of queries, one field
/// per query, handed in after each envelope passed the status check.
pub struct DashboardQueryRows {
    pub total_tokens: Vec<QueryResult>,
    pub input_tokens: Vec<QueryResult>,
    pub output_tokens: Vec<QueryResult>,
    pub cache_read_tokens: Vec<QueryResult>,
    pub cache_creation_tokens: Vec<QueryResult>,
    pub cost: Vec<QueryResult>,
    pub active_time: Vec<QueryResult>,
    pub sessions: Vec<QueryResult>,
    pub lines_added: Vec<QueryResult>,
    pub lines_removed: Vec<QueryResult>,
    pub commits: Vec<QueryResult>,
    pub pull_requests: Vec<QueryResult>,
    pub by_model: Vec<QueryResult>,
    pub over_time: Vec<QueryResult>,
}

/// Assembles the dashboard summary from the query results: each scalar is
/// the first value of its query with the zero-on-failure policy, token and
/// count fields are truncated to whole units, the per-model breakdown drops
/// incomplete rows, and the over-time series keeps the raw per-step rate
/// samples.
pub fn assemble_dashboard_metrics(rows: &DashboardQueryRows) -> (m: DashboardMetrics)
    ensures
        m.total_tokens == first_value_micros(rows.total_tokens@) / 1_000_000,
        m.input_tokens == first_value_micros(rows.input_tokens@) / 1_000_000,
        m.output_tokens == first_value_micros(rows.output_tokens@) / 1_000_000,
        m.cache_read_tokens == first_value_micros(rows.cache_read_tokens@) / 1_000_000,
        m.cache_creation_tokens == first_value_micros(rows.cache_creation_tokens@) / 1_000_000,
        m.total_cost_micro_usd == first_value_micros(rows.cost@),
        m.active_time_micro_seconds == first_value_micros(rows.active_time@),
        m.session_count == count_u32_from_micros(first_value_micros(rows.sessions@)),
        m.lines_added == first_value_micros(rows.lines_added@) / 1_000_000,
        m.lines_removed == first_value_micros(rows.lines_removed@) / 1_000_000,
        m.commit_count == count_u32_from_micros(first_value_micros(rows.commits@)),
        m.pull_request_count == count_u32_from_micros(first_value_micros(rows.pull_requests@)),
        m.tokens_by_model@.map_values(|mt: ModelTokens| model_tokens_view(mt))
            == model_breakdown_views(rows.by_model@),
        m.tokens_over_time@.map_values(|p: TimeSeriesPoint| point_view(p)) == over_time_samples(
            rows.over_time@,
        ).map_values(|s: Sample| sample_point_view(s)),
{
    DashboardMetrics {
        total_tokens: crate::prometheus::rows_first_value_micros(&rows.total_tokens) / 1_000_000,
        total_cost_micro_usd: crate::prometheus::rows_first_value_micros(&rows.cost),
        active_time_micro_seconds: crate::prometheus::rows_first_value_micros(&rows.active_time),
        session_count: to_count_u32(crate::prometheus::rows_first_value_micros(&rows.sessions)),
        lines_added: crate::prometheus::rows_first_value_micros(&rows.lines_added) / 1_000_000,
        lines_removed: crate::prometheus::rows_first_value_micros(&rows.lines_removed)
            / 1_000_000,
        commit_count: to_count_u32(crate::prometheus::rows_first_value_micros(&rows.commits)),
        pull_request_count: to_count_u32(
            crate::prometheus::rows_first_value_micros(&rows.pull_requests),
        ),
        tokens_by_model: model_breakdown(&rows.by_model),
        tokens_over_time: over_time_points(&rows.over_time),
        input_tokens: crate::prometheus::rows_first_value_micros(&rows.input_tokens) / 1_000_000,
        output_tokens: crate::prometheus::rows_first_value_micros(&rows.output_tokens)
            / 1_000_000,
        cache_read_tokens: crate::prometheus::rows_first_value_micros(&rows.cache_read_tokens)
            / 1_000_000,
        cache_creation_tokens: crate::prometheus::rows_first_value_micros(
            &rows.cache_creation_tokens,
        ) / 1_000_000,
    }
}

} // verus!
