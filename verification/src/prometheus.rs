//! The shape of answers from a Prometheus-compatible query endpoint, and the
//! envelope check that turns one into rows.
//!
//! The HTTP transport and the JSON decoding live outside the library; what
//! arrives here is the decoded envelope as plain values. A response is only
//! handed on as rows when its status field says `success`; anything else is
//! an invalid-response error carrying that status.

use vstd::prelude::*;

use crate::numbers::{micros_or_zero, str_eq};

verus! {

/// One sample of a series: an epoch-second timestamp and the value as the
/// numeric string the server sent.
#[derive(Clone, Debug)]
pub struct Sample {
    pub timestamp: i64,
    pub value: String,
}

/// One row of a query result: a label set and either a single sample
/// (instant query) or a sequence of samples (range query).
#[derive(Clone, Debug)]
pub struct QueryResult {
    pub metric: Vec<(String, String)>,
    pub value: Option<Sample>,
    pub values: Option<Vec<Sample>>,
}

/// The payload of a query response.
#[derive(Clone, Debug)]
pub struct QueryData {
    pub result_type: String,
    pub result: Vec<QueryResult>,
}

/// A decoded query response envelope.
#[derive(Clone, Debug)]
pub struct QueryResponse {
    pub status: String,
    pub data: QueryData,
}

/// What can go wrong talking to the metrics server.
#[derive(Clone, Debug)]
pub enum PrometheusError {
    /// The transport failed or the body was not a decodable envelope.
    Request(String),
    /// The envelope arrived but its status was not `success`.
    InvalidResponse(String),
}

impl PrometheusError {
    /// A human-readable description of the error.
    pub fn message(&self) -> (r: String)
        ensures
            match self {
                PrometheusError::Request(m) => r@ == "HTTP request failed: "@ + m@,
                PrometheusError::InvalidResponse(m) => r@ == "Invalid response: "@ + m@,
            },
    {
        match self {
            PrometheusError::Request(m) => {
                let mut out = String::from_str("HTTP request failed: ");
                out.append(m.as_str());
                out
            },
            PrometheusError::InvalidResponse(m) => {
                let mut out = String::from_str("Invalid response: ");
                out.append(m.as_str());
                out
            },
        }
    }
}

/// The value of the first label named `key`, if any.
pub open spec fn label_get(m: Seq<(String, String)>, key: Seq<char>) -> Option<Seq<char>>
    decreases m.len(),
{
    if m.len() == 0 {
        None
    } else if m[0].0@ == key {
        Some(m[0].1@)
    } else {
        label_get(m.drop_first(), key)
    }
}

impl QueryResult {
    /// Looks up a label by name in this row's label set.
    pub fn metric_get<'a>(&'a self, key: &str) -> (r: Option<&'a String>)
        ensures
            match r {
                Some(v) => label_get(self.metric@, key@) == Some(v@),
                None => label_get(self.metric@, key@) is None,
            },
    {
        let n = self.metric.len();
        proof {
            assert(self.metric@.skip(0) =~= self.metric@);
        }
        for i in 0..n
            invariant
                n == self.metric@.len(),
                label_get(self.metric@, key@) == label_get(self.metric@.skip(i as int), key@),
        {
            proof {
                assert(self.metric@.skip(i as int)[0] == self.metric@[i as int]);
                assert(self.metric@.skip(i as int).drop_first() =~= self.metric@.skip(i + 1));
            }
            if str_eq(self.metric[i].0.as_str(), key) {
                return Some(&self.metric[i].1);
            }
        }
        None
    }

    /// The micro-unit value of this row's instant sample, zero when the row
    /// has no sample or the value is unparsable.
    pub fn value_micros(&self) -> (r: u64)
        ensures
            r == row_value_micros(*self),
    {
        match &self.value {
            Some(sample) => crate::numbers::micros_or_default(sample.value.as_str()),
            None => 0,
        }
    }
}

/// The micro-unit value of a row's instant sample, zero when absent or
/// unparsable.
pub open spec fn row_value_micros(row: QueryResult) -> u64 {
    match row.value {
        Some(sample) => micros_or_zero(sample.value@),
        None => 0u64,
    }
}

/// The micro-unit value of the first row of a result set, zero when there
/// are no rows.
pub open spec fn first_value_micros(rows: Seq<QueryResult>) -> u64 {
    if rows.len() > 0 {
        row_value_micros(rows[0])
    } else {
        0u64
    }
}

/// The micro-unit value of the first row, zero when there are no rows.
pub fn rows_first_value_micros(rows: &Vec<QueryResult>) -> (r: u64)
    ensures
        r == first_value_micros(rows@),
{
    if rows.len() > 0 {
        rows[0].value_micros()
    } else {
        0
    }
}

impl QueryResponse {
    /// The envelope check every query answer passes through: rows come out
    /// exactly when the status is `success`; any other status is an
    /// invalid-response error carrying that status, never a partial row
    /// list.
    pub fn into_rows(self) -> (r: Result<Vec<QueryResult>, PrometheusError>)
        ensures
            match r {
                Ok(rows) => self.status@ == "success"@ && rows == self.data.result,
                Err(e) => self.status@ != "success"@ && (e matches
                    PrometheusError::InvalidResponse(m) && m@ == self.status@),
            },
    {
        if str_eq(self.status.as_str(), "success") {
            Ok(self.data.result)
        } else {
            Err(PrometheusError::InvalidResponse(self.status))
        }
    }
}

/// True when `s` starts with `prefix`.
pub open spec fn has_prefix(s: Seq<char>, prefix: Seq<char>) -> bool {
    s.len() >= prefix.len() && s.take(prefix.len() as int) == prefix
}

/// The metric-name prefix this crate's own usage metrics share.
pub open spec fn own_metric_prefix() -> Seq<char> {
    "claude_code_"@
}

/// The names carrying the crate's metric prefix, in order.
pub open spec fn own_metric_names(names: Seq<String>) -> Seq<Seq<char>>
    decreases names.len(),
{
    if names.len() == 0 {
        Seq::<Seq<char>>::empty()
    } else {
        let rest = own_metric_names(names.drop_last());
        if has_prefix(names.last()@, own_metric_prefix()) {
            rest.push(names.last()@)
        } else {
            rest
        }
    }
}

/// Keeps the names of the metric universe that carry the crate's own
/// prefix, in order.
pub fn filter_own_metrics(names: Vec<String>) -> (r: Vec<String>)
    ensures
        r@.map_values(|s: String| s@) == own_metric_names(names@),
{
    let mut out: Vec<String> = Vec::new();
    let n = names.len();
    proof {
        assert(out@.map_values(|s: String| s@) =~= own_metric_names(names@.take(0)));
    }
    for i in 0..n
        invariant
            n == names@.len(),
            out@.map_values(|s: String| s@) == own_metric_names(names@.take(i as int)),
    {
        proof {
            assert(names@.take(i + 1).drop_last() =~= names@.take(i as int));
            assert(names@.take(i + 1).last() == names@[i as int]);
        }
        let name = &names[i];
        let keep = if name.as_str().unicode_len() >= 12 {
            let head = name.as_str().substring_char(0, 12);
            crate::numbers::str_eq(head, "claude_code_")
        } else {
            false
        };
        proof {
            reveal_strlit("claude_code_");
            assert(own_metric_prefix().len() == 12);
            if keep {
                assert(name@.subrange(0, 12) =~= name@.take(12));
            }
        }
        if keep {
            let item = name.clone();
            let ghost before = out@;
            out.push(item);
            proof {
                assert(out@.map_values(|s: String| s@) =~= before.map_values(|s: String| s@).push(
                    item@,
                ));
            }
        }
    }
    proof {
        assert(names@.take(n as int) =~= names@);
    }
    out
}

} // verus!
