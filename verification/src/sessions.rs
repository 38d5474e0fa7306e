//! Sessions assembled from the local usage history and enriched with
//! per-session totals from the metrics server.
//!
//! Reading the history file happens outside the library; its lines arrive
//! here as strings. Each line is one event carrying a timestamp in epoch
//! milliseconds, a project path and a session id; events fold into one
//! record per session id, malformed lines are skipped. Costs are held in
//! micro-dollars and active time in micro-seconds.

use vstd::prelude::*;

use crate::insights::{dedup_first, lemma_dedup_contains, lemma_dedup_no_dup};
use crate::numbers::{sat32, sat64, str_eq};
use crate::prometheus::{label_get, row_value_micros, QueryResult};

verus! {

broadcast use vstd::seq_lib::group_to_multiset_ensures;

/// One event of the usage history log.
#[derive(Clone, Debug)]
pub struct HistoryEntry {
    pub timestamp: i64,
    pub project: String,
    pub session_id: String,
}

/// One session: identity, local message statistics, and the enrichment
/// totals filled in from the metrics server.
#[derive(Clone, Debug)]
pub struct SessionMetrics {
    pub session_id: String,
    pub project: Option<String>,
    pub project_path: Option<String>,
    pub timestamp: i64,
    pub message_count: u32,
    pub total_cost_micro_usd: u64,
    pub total_tokens: u64,
    pub input_tokens: u64,
    pub output_tokens: u64,
    pub cache_read_tokens: u64,
    pub cache_creation_tokens: u64,
    pub active_time_micro_seconds: u64,
    pub tokens_by_model: Vec<ModelTokenCount>,
}

/// Tokens attributed to one model within a session.
#[derive(Clone, Debug)]
pub struct ModelTokenCount {
    pub model: String,
    pub tokens: u64,
}

/// Totals rolled up over the sessions of one project.
#[derive(Clone, Debug)]
pub struct ProjectStats {
    pub project: String,
    pub project_path: Option<String>,
    pub session_count: u32,
    pub total_cost_micro_usd: u64,
    pub total_tokens: u64,
    pub active_time_micro_seconds: u64,
}

/// The sessions view: the sessions, their project rollup, and the count.
#[derive(Clone, Debug)]
pub struct SessionsData {
    pub sessions: Vec<SessionMetrics>,
    pub projects: Vec<ProjectStats>,
    pub total_count: usize,
}

/// How far back the sessions view looks, in milliseconds; unknown tokens
/// fall back to the shortest supported range, one hour.
pub open spec fn time_range_to_millis_spec(r: Seq<char>) -> i64 {
    if r == "1h"@ {
        3_600_000i64
    } else if r == "8h"@ {
        28_800_000i64
    } else if r == "24h"@ {
        86_400_000i64
    } else if r == "2d"@ {
        172_800_000i64
    } else if r == "7d"@ {
        604_800_000i64
    } else if r == "30d"@ {
        2_592_000_000i64
    } else {
        3_600_000i64
    }
}

/// How far back the sessions view looks, in milliseconds.
pub fn time_range_to_millis(range: &str) -> (r: i64)
    ensures
        r == time_range_to_millis_spec(range@),
        0 < r <= 2_592_000_000i64,
{
    if str_eq(range, "1h") {
        3_600_000
    } else if str_eq(range, "8h") {
        28_800_000
    } else if str_eq(range, "24h") {
        86_400_000
    } else if str_eq(range, "2d") {
        172_800_000
    } else if str_eq(range, "7d") {
        604_800_000
    } else if str_eq(range, "30d") {
        2_592_000_000
    } else {
        3_600_000
    }
}

/// The query-language range literal for a sessions range token; unknown
/// tokens fall back to the shortest supported range.
pub open spec fn time_range_to_promql_spec(r: Seq<char>) -> Seq<char> {
    if r == "1h"@ || r == "8h"@ || r == "24h"@ || r == "2d"@ || r == "7d"@ || r == "30d"@ {
        r
    } else {
        "1h"@
    }
}

/// The query-language range literal for a sessions range token.
pub fn time_range_to_promql(range: &str) -> (r: &'static str)
    ensures
        r@ == time_range_to_promql_spec(range@),
{
    if str_eq(range, "1h") {
        "1h"
    } else if str_eq(range, "8h") {
        "8h"
    } else if str_eq(range, "24h") {
        "24h"
    } else if str_eq(range, "2d") {
        "2d"
    } else if str_eq(range, "7d") {
        "7d"
    } else if str_eq(range, "30d") {
        "30d"
    } else {
        "1h"
    }
}

/// Writes the per-session grouped query summing a counter's increase over
/// the resolved range literal.
pub fn per_session_increase_query(metric: &str, range: &str) -> (r: String)
    ensures
        r@ == "sum by (session_id) (increase("@ + metric@ + "["@ + range@ + "]))"@,
{
    let mut out = String::from_str("sum by (session_id) (increase(");
    out.append(metric);
    out.append("[");
    out.append(range);
    out.append("]))");
    proof {
        assert(out@ =~= "sum by (session_id) (increase("@ + metric@ + "["@ + range@ + "]))"@);
    }
    out
}

/// Writes the per-session, per-type grouped token query over the resolved
/// range literal.
pub fn per_session_type_query(range: &str) -> (r: String)
    ensures
        r@ == "sum by (session_id, type) (increase(claude_code_token_usage_tokens_total["@
            + range@ + "]))"@,
{
    let mut out = String::from_str(
        "sum by (session_id, type) (increase(claude_code_token_usage_tokens_total[",
    );
    out.append(range);
    out.append("]))");
    proof {
        assert(out@
            =~= "sum by (session_id, type) (increase(claude_code_token_usage_tokens_total["@
            + range@ + "]))"@);
    }
    out
}

/// `s` with its trailing slashes removed.
pub open spec fn trim_trailing_slashes(s: Seq<char>) -> Seq<char>
    decreases s.len(),
{
    if s.len() > 0 && s.last() == '/' {
        trim_trailing_slashes(s.drop_last())
    } else {
        s
    }
}

/// The index of the last `'/'` in `s`, if any.
pub open spec fn last_slash(s: Seq<char>) -> Option<int>
    decreases s.len(),
{
    if s.len() == 0 {
        None
    } else if s.last() == '/' {
        Some(s.len() - 1)
    } else {
        last_slash(s.drop_last())
    }
}

/// The display name of a project path: its last segment, after trailing
/// slashes are dropped; a path with no segments names itself.
pub open spec fn project_name_spec(s: Seq<char>) -> Seq<char> {
    let t = trim_trailing_slashes(s);
    if t.len() == 0 {
        s
    } else {
        match last_slash(t) {
            None => t,
            Some(i) => t.skip(i + 1),
        }
    }
}

proof fn lemma_trim_char(s: Seq<char>, t: int)
    requires
        0 <= t <= s.len(),
        forall|j: int| t <= j < s.len() ==> s[j] == '/',
        t > 0 ==> s[t - 1] != '/',
    ensures
        trim_trailing_slashes(s) == s.take(t),
    decreases s.len(),
{
    if s.len() == t {
        assert(s.take(t) =~= s);
    } else {
        assert(s.last() == '/');
        assert(s.drop_last() =~= s.take(s.len() - 1));
        lemma_trim_char(s.drop_last(), t);
        assert(s.drop_last().take(t) =~= s.take(t));
    }
}

proof fn lemma_last_slash_some(s: Seq<char>, i: int)
    requires
        0 <= i < s.len(),
        s[i] == '/',
        forall|j: int| i < j < s.len() ==> s[j] != '/',
    ensures
        last_slash(s) == Some(i),
    decreases s.len(),
{
    if i == s.len() - 1 {
    } else {
        assert(s.last() != '/');
        assert(s.drop_last() =~= s.take(s.len() - 1));
        lemma_last_slash_some(s.drop_last(), i);
    }
}

proof fn lemma_last_slash_none(s: Seq<char>)
    requires
        forall|j: int| 0 <= j < s.len() ==> s[j] != '/',
    ensures
        last_slash(s) is None,
    decreases s.len(),
{
    if s.len() > 0 {
        lemma_last_slash_none(s.drop_last());
    }
}

/// The display name of a project path, as `project_name_spec` describes.
pub fn extract_project_name(path: &str) -> (r: String)
    ensures
        r@ == project_name_spec(path@),
{
    let n = path.unicode_len();
    let mut t: usize = n;
    while t > 0 && path.get_char(t - 1) == '/'
        invariant
            t <= n,
            n == path@.len(),
            forall|j: int| t <= j < n ==> path@[j] == '/',
        decreases t,
    {
        t = t - 1;
    }
    proof {
        lemma_trim_char(path@, t as int);
    }
    if t == 0 {
        return String::from_str(path);
    }
    let mut i: usize = t;
    while i > 0 && path.get_char(i - 1) != '/'
        invariant
            i <= t <= n,
            n == path@.len(),
            forall|j: int| i <= j < t ==> path@[j] != '/',
        decreases i,
    {
        i = i - 1;
    }
    let ghost tr = path@.take(t as int);
    proof {
        if i > 0 {
            assert(tr[i - 1] == path@[i - 1]);
            assert forall|j: int| i - 1 < j < tr.len() implies tr[j] != '/' by {
                assert(tr[j] == path@[j]);
            }
            lemma_last_slash_some(tr, i - 1);
        } else {
            assert forall|j: int| 0 <= j < tr.len() implies tr[j] != '/' by {
                assert(tr[j] == path@[j]);
            }
            lemma_last_slash_none(tr);
        }
    }
    let seg = path.substring_char(i, t);
    proof {
        assert(path@.subrange(i as int, t as int) =~= tr.skip(i as int));
        if i == 0 {
            assert(tr.skip(0) =~= tr);
        }
    }
    String::from_str(seg)
}

/// What the fields of a decoded history line are; `None` when the line is
/// not a JSON object with the three fields.
pub uninterp spec fn history_entry_of(line: Seq<char>) -> Option<(i64, Seq<char>, Seq<char>)>;

/// Relies on serde_json's `from_str` and the `Value` accessors `get`,
/// `as_i64` and `as_str`: decodes one history log line as a JSON object
/// and reads its `timestamp`, `project` and `sessionId` fields. The
/// result depends on the line's characters alone.
#[verifier::external_body]
fn parse_history_line(line: &str) -> (r: Option<HistoryEntry>)
    ensures
        match r {
            Some(e) => history_entry_of(line@) == Some((e.timestamp, e.project@, e.session_id@)),
            None => history_entry_of(line@) is None,
        },
{
    let v: serde_json::Value = match serde_json::from_str(line) {
        Ok(v) => v,
        Err(_) => return None,
    };
    let timestamp = v.get("timestamp")?.as_i64()?;
    let project = v.get("project")?.as_str()?.to_string();
    let session_id = v.get("sessionId")?.as_str()?.to_string();
    Some(HistoryEntry { timestamp, project, session_id })
}

/// The events kept from the history lines: each decodable line whose
/// timestamp is at or past the cutoff, in line order, as
/// `(timestamp, project, session id)`.
pub open spec fn kept_entries(lines: Seq<String>, cutoff: i64) -> Seq<(i64, Seq<char>, Seq<char>)>
    decreases lines.len(),
{
    if lines.len() == 0 {
        Seq::<(i64, Seq<char>, Seq<char>)>::empty()
    } else {
        let rest = kept_entries(lines.drop_last(), cutoff);
        match history_entry_of(lines.last()@) {
            Some(e) => if e.0 >= cutoff {
                rest.push(e)
            } else {
                rest
            },
            None => rest,
        }
    }
}

/// The session ids of a list of events.
pub open spec fn sid_views(entries: Seq<(i64, Seq<char>, Seq<char>)>) -> Seq<Seq<char>> {
    entries.map_values(|e: (i64, Seq<char>, Seq<char>)| e.2)
}

/// How many events carry this session id.
pub open spec fn count_for(entries: Seq<(i64, Seq<char>, Seq<char>)>, sid: Seq<char>) -> int
    decreases entries.len(),
{
    if entries.len() == 0 {
        0
    } else {
        count_for(entries.drop_last(), sid) + (if entries.last().2 == sid {
            1int
        } else {
            0int
        })
    }
}

/// The largest timestamp among this session id's events.
pub open spec fn max_ts_for(entries: Seq<(i64, Seq<char>, Seq<char>)>, sid: Seq<char>) -> int
    decreases entries.len(),
{
    if entries.len() == 0 {
        i64::MIN as int
    } else {
        let m = max_ts_for(entries.drop_last(), sid);
        if entries.last().2 == sid && entries.last().0 > m {
            entries.last().0 as int
        } else {
            m
        }
    }
}

/// The project path of this session id's first event.
pub open spec fn first_project_for(entries: Seq<(i64, Seq<char>, Seq<char>)>, sid: Seq<char>)
    -> Seq<char>
    decreases entries.len(),
{
    if entries.len() == 0 {
        Seq::<char>::empty()
    } else {
        if count_for(entries.drop_last(), sid) > 0 {
            first_project_for(entries.drop_last(), sid)
        } else if entries.last().2 == sid {
            entries.last().1
        } else {
            first_project_for(entries.drop_last(), sid)
        }
    }
}

pub(crate) proof fn lemma_count_for_nonneg(entries: Seq<(i64, Seq<char>, Seq<char>)>, sid: Seq<
    char,
>)
    ensures
        count_for(entries, sid) >= 0,
    decreases entries.len(),
{
    if entries.len() > 0 {
        lemma_count_for_nonneg(entries.drop_last(), sid);
    }
}

pub(crate) proof fn lemma_count_for_absent(entries: Seq<(i64, Seq<char>, Seq<char>)>, sid: Seq<
    char,
>)
    requires
        !sid_views(entries).contains(sid),
    ensures
        count_for(entries, sid) == 0,
    decreases entries.len(),
{
    if entries.len() > 0 {
        assert(sid_views(entries)[entries.len() - 1] == entries.last().2);
        assert(entries.last().2 != sid);
        assert forall|i: int|
            0 <= i < sid_views(entries.drop_last()).len() implies sid_views(entries.drop_last())[i]
            != sid by {
            assert(sid_views(entries.drop_last())[i] == entries.drop_last()[i].2);
            assert(sid_views(entries)[i] == entries[i].2);
        }
        lemma_count_for_absent(entries.drop_last(), sid);
    }
}

pub(crate) proof fn lemma_count_for_present(entries: Seq<(i64, Seq<char>, Seq<char>)>, sid: Seq<
    char,
>)
    requires
        sid_views(entries).contains(sid),
    ensures
        count_for(entries, sid) > 0,
    decreases entries.len(),
{
    if entries.len() > 0 {
        lemma_count_for_nonneg(entries.drop_last(), sid);
        if entries.last().2 != sid {
            let i = choose|i: int|
                0 <= i < sid_views(entries).len() && sid_views(entries)[i] == sid;
            assert(sid_views(entries)[i] == entries[i].2);
            assert(i < entries.len() - 1);
            assert(sid_views(entries.drop_last())[i] == entries.drop_last()[i].2);
            assert(sid_views(entries.drop_last()).contains(sid));
            lemma_count_for_present(entries.drop_last(), sid);
        }
    }
}

pub(crate) proof fn lemma_max_ts_absent(entries: Seq<(i64, Seq<char>, Seq<char>)>, sid: Seq<char>)
    requires
        !sid_views(entries).contains(sid),
    ensures
        max_ts_for(entries, sid) == i64::MIN as int,
    decreases entries.len(),
{
    if entries.len() > 0 {
        assert(sid_views(entries)[entries.len() - 1] == entries.last().2);
        assert(entries.last().2 != sid);
        assert forall|i: int|
            0 <= i < sid_views(entries.drop_last()).len() implies sid_views(entries.drop_last())[i]
            != sid by {
            assert(sid_views(entries.drop_last())[i] == entries.drop_last()[i].2);
            assert(sid_views(entries)[i] == entries[i].2);
        }
        lemma_max_ts_absent(entries.drop_last(), sid);
    }
}

/// The session ids of a session list.
pub open spec fn sids_of(out: Seq<SessionMetrics>) -> Seq<Seq<char>> {
    out.map_values(|s: SessionMetrics| s.session_id@)
}

/// What folding leaves in one session record: the count, latest timestamp
/// and first project of its id's events, with every enrichment total still
/// zero.
pub open spec fn folded_session_ok(s: SessionMetrics, entries: Seq<(i64, Seq<char>, Seq<char>)>)
    -> bool {
    s.message_count == sat32(count_for(entries, s.session_id@)) && s.timestamp == max_ts_for(
        entries,
        s.session_id@,
    ) && (match s.project {
        Some(p) => p@ == project_name_spec(first_project_for(entries, s.session_id@)),
        None => false,
    }) && (match s.project_path {
        Some(p) => p@ == first_project_for(entries, s.session_id@),
        None => false,
    }) && s.total_cost_micro_usd == 0 && s.total_tokens == 0 && s.input_tokens == 0
        && s.output_tokens == 0 && s.cache_read_tokens == 0 && s.cache_creation_tokens == 0
        && s.active_time_micro_seconds == 0 && s.tokens_by_model@ == Seq::<ModelTokenCount>::empty()
}

/// The fold invariant: one record per distinct session id, in
/// first-occurrence order, each as `folded_session_ok` describes.
pub open spec fn session_fold_ok(out: Seq<SessionMetrics>, entries: Seq<(i64, Seq<char>, Seq<
    char,
>)>) -> bool {
    sids_of(out) == dedup_first(sid_views(entries)) && forall|j: int|
        0 <= j < out.len() ==> folded_session_ok(#[trigger] out[j], entries)
}

/// Folds one kept event into the running session records.
fn fold_entry_into(
    out: &mut Vec<SessionMetrics>,
    entry: HistoryEntry,
    Ghost(prefix): Ghost<Seq<(i64, Seq<char>, Seq<char>)>>,
)
    requires
        session_fold_ok(old(out)@, prefix),
    ensures
        session_fold_ok(
            final(out)@,
            prefix.push((entry.timestamp, entry.project@, entry.session_id@)),
        ),
{
    let ghost e = (entry.timestamp, entry.project@, entry.session_id@);
    let ghost newentries = prefix.push(e);
    let n = out.len();
    for j in 0..n
        invariant
            n == out@.len(),
            session_fold_ok(out@, prefix),
            newentries == prefix.push(e),
            e == (entry.timestamp, entry.project@, entry.session_id@),
            forall|jj: int| 0 <= jj < j ==> (#[trigger] out@[jj]).session_id@ != entry.session_id@,
    {
        if str_eq(out[j].session_id.as_str(), entry.session_id.as_str()) {
            let mc = out[j].message_count;
            let ghost old_out = out@;
            out[j].message_count = mc.saturating_add(1);
            if entry.timestamp > out[j].timestamp {
                out[j].timestamp = entry.timestamp;
            }
            proof {
                assert(newentries.drop_last() =~= prefix);
                assert(sid_views(newentries) =~= sid_views(prefix).push(e.2));
                assert(sid_views(newentries).drop_last() =~= sid_views(prefix));
                lemma_dedup_no_dup(sid_views(prefix));
                assert(sids_of(out@) =~= sids_of(old_out));
                assert(sids_of(old_out)[j as int] == e.2);
                assert(dedup_first(sid_views(prefix)).contains(e.2));
                assert(dedup_first(sid_views(newentries)) == dedup_first(sid_views(prefix)));
                lemma_dedup_contains(sid_views(prefix), e.2);
                lemma_count_for_present(prefix, e.2);
                assert forall|jj: int| 0 <= jj < out@.len() implies folded_session_ok(
                    #[trigger] out@[jj],
                    newentries,
                ) by {
                    lemma_count_for_nonneg(prefix, out@[jj].session_id@);
                    if jj == j {
                        assert(count_for(newentries, e.2) == count_for(prefix, e.2) + 1);
                        assert(first_project_for(newentries, e.2) == first_project_for(
                            prefix,
                            e.2,
                        ));
                    } else {
                        assert(sids_of(old_out)[jj] == out@[jj].session_id@);
                        assert(out@[jj].session_id@ != e.2) by {
                            assert(dedup_first(sid_views(prefix))[jj] == out@[jj].session_id@);
                            assert(dedup_first(sid_views(prefix))[j as int] == e.2);
                        }
                        assert(count_for(newentries, out@[jj].session_id@) == count_for(
                            prefix,
                            out@[jj].session_id@,
                        ));
                        assert(max_ts_for(newentries, out@[jj].session_id@) == max_ts_for(
                            prefix,
                            out@[jj].session_id@,
                        ));
                        assert(first_project_for(newentries, out@[jj].session_id@)
                            == first_project_for(prefix, out@[jj].session_id@));
                    }
                }
            }
            return;
        }
    }
    let name = extract_project_name(entry.project.as_str());
    let record = SessionMetrics {
        session_id: entry.session_id,
        project: Some(name),
        project_path: Some(entry.project),
        timestamp: entry.timestamp,
        message_count: 1,
        total_cost_micro_usd: 0,
        total_tokens: 0,
        input_tokens: 0,
        output_tokens: 0,
        cache_read_tokens: 0,
        cache_creation_tokens: 0,
        active_time_micro_seconds: 0,
        tokens_by_model: Vec::new(),
    };
    let ghost old_out = out@;
    out.push(record);
    proof {
        assert(newentries.drop_last() =~= prefix);
        assert(sid_views(newentries) =~= sid_views(prefix).push(e.2));
        assert(sid_views(newentries).drop_last() =~= sid_views(prefix));
        assert forall|i: int| 0 <= i < dedup_first(sid_views(prefix)).len() implies dedup_first(
            sid_views(prefix),
        )[i] != e.2 by {
            assert(sids_of(old_out)[i] == old_out[i].session_id@);
        }
        assert(!dedup_first(sid_views(prefix)).contains(e.2));
        lemma_dedup_contains(sid_views(prefix), e.2);
        lemma_count_for_absent(prefix, e.2);
        lemma_max_ts_absent(prefix, e.2);
        assert(dedup_first(sid_views(newentries)) == dedup_first(sid_views(prefix)).push(e.2));
        assert(sids_of(out@) =~= sids_of(old_out).push(e.2));
        assert forall|jj: int| 0 <= jj < out@.len() implies folded_session_ok(
            #[trigger] out@[jj],
            newentries,
        ) by {
            lemma_count_for_nonneg(prefix, out@[jj].session_id@);
            if jj == out@.len() - 1 {
                assert(out@[jj].session_id@ == e.2);
                assert(count_for(newentries, e.2) == count_for(prefix, e.2) + 1);
                assert(max_ts_for(newentries, e.2) == e.0);
                assert(first_project_for(newentries, e.2) == e.1);
                assert(out@[jj].tokens_by_model@ =~= Seq::<ModelTokenCount>::empty());
            } else {
                assert(sids_of(old_out)[jj] == out@[jj].session_id@);
                assert(out@[jj].session_id@ != e.2) by {
                    assert(dedup_first(sid_views(prefix))[jj] == out@[jj].session_id@);
                }
                assert(count_for(newentries, out@[jj].session_id@) == count_for(
                    prefix,
                    out@[jj].session_id@,
                ));
                assert(max_ts_for(newentries, out@[jj].session_id@) == max_ts_for(
                    prefix,
                    out@[jj].session_id@,
                ));
                assert(first_project_for(newentries, out@[jj].session_id@) == first_project_for(
                    prefix,
                    out@[jj].session_id@,
                ));
            }
        }
    }
}

/// Folds the history lines into one record per session id, keeping the
/// lines that decode and lie within the lookback window ending at
/// `now_millis`, as `session_fold_ok` describes.
pub fn sessions_from_lines(lines: &Vec<String>, now_millis: i64, time_range: &str) -> (r: Vec<
    SessionMetrics,
>)
    requires
        now_millis >= 0,
    ensures
        session_fold_ok(
            r@,
            kept_entries(
                lines@,
                (now_millis - time_range_to_millis_spec(time_range@)) as i64,
            ),
        ),
{
    let cutoff: i64 = now_millis - time_range_to_millis(time_range);
    let mut out: Vec<SessionMetrics> = Vec::new();
    let n = lines.len();
    proof {
        assert(sids_of(out@) =~= dedup_first(sid_views(kept_entries(lines@.take(0), cutoff))));
    }
    for i in 0..n
        invariant
            n == lines@.len(),
            session_fold_ok(out@, kept_entries(lines@.take(i as int), cutoff)),
    {
        proof {
            assert(lines@.take(i + 1).drop_last() =~= lines@.take(i as int));
            assert(lines@.take(i + 1).last() == lines@[i as int]);
        }
        match parse_history_line(lines[i].as_str()) {
            Some(entry) => {
                if entry.timestamp >= cutoff {
                    let ghost prefix = kept_entries(lines@.take(i as int), cutoff);
                    fold_entry_into(&mut out, entry, Ghost(prefix));
                }
            },
            None => {},
        }
    }
    proof {
        assert(lines@.take(n as int) =~= lines@);
    }
    out
}


/// The value of the last row whose `session_id` label equals `sid`.
pub open spec fn last_value_for(rows: Seq<QueryResult>, sid: Seq<char>) -> Option<u64>
    decreases rows.len(),
{
    if rows.len() == 0 {
        None
    } else if label_get(rows.last().metric@, "session_id"@) == Some(sid) {
        Some(row_value_micros(rows.last()))
    } else {
        last_value_for(rows.drop_last(), sid)
    }
}

/// The value of the last row whose `session_id` and `type` labels equal
/// `sid` and `ty`.
pub open spec fn last_type_value_for(rows: Seq<QueryResult>, sid: Seq<char>, ty: Seq<char>)
    -> Option<u64>
    decreases rows.len(),
{
    if rows.len() == 0 {
        None
    } else if label_get(rows.last().metric@, "session_id"@) == Some(sid) && label_get(
        rows.last().metric@,
        "type"@,
    ) == Some(ty) {
        Some(row_value_micros(rows.last()))
    } else {
        last_type_value_for(rows.drop_last(), sid, ty)
    }
}

/// All fields of the two records agree but the cost total.
pub open spec fn same_but_cost(a: SessionMetrics, b: SessionMetrics) -> bool {
    a.session_id == b.session_id && a.project == b.project && a.project_path == b.project_path
        && a.timestamp == b.timestamp && a.message_count == b.message_count && a.total_tokens
        == b.total_tokens && a.input_tokens == b.input_tokens && a.output_tokens == b.output_tokens
        && a.cache_read_tokens == b.cache_read_tokens && a.cache_creation_tokens
        == b.cache_creation_tokens && a.active_time_micro_seconds == b.active_time_micro_seconds
        && a.tokens_by_model == b.tokens_by_model
}

/// All fields of the two records agree but the total-token count.
pub open spec fn same_but_tokens(a: SessionMetrics, b: SessionMetrics) -> bool {
    a.session_id == b.session_id && a.project == b.project && a.project_path == b.project_path
        && a.timestamp == b.timestamp && a.message_count == b.message_count
        && a.total_cost_micro_usd == b.total_cost_micro_usd && a.input_tokens == b.input_tokens
        && a.output_tokens == b.output_tokens && a.cache_read_tokens == b.cache_read_tokens
        && a.cache_creation_tokens == b.cache_creation_tokens && a.active_time_micro_seconds
        == b.active_time_micro_seconds && a.tokens_by_model == b.tokens_by_model
}

/// All fields of the two records agree but the four per-type token counts.
pub open spec fn same_but_token_types(a: SessionMetrics, b: SessionMetrics) -> bool {
    a.session_id == b.session_id && a.project == b.project && a.project_path == b.project_path
        && a.timestamp == b.timestamp && a.message_count == b.message_count
        && a.total_cost_micro_usd == b.total_cost_micro_usd && a.total_tokens == b.total_tokens
        && a.active_time_micro_seconds == b.active_time_micro_seconds && a.tokens_by_model
        == b.tokens_by_model
}

/// All fields of the two records agree but the active time.
pub open spec fn same_but_time(a: SessionMetrics, b: SessionMetrics) -> bool {
    a.session_id == b.session_id && a.project == b.project && a.project_path == b.project_path
        && a.timestamp == b.timestamp && a.message_count == b.message_count
        && a.total_cost_micro_usd == b.total_cost_micro_usd && a.total_tokens == b.total_tokens
        && a.input_tokens == b.input_tokens && a.output_tokens == b.output_tokens
        && a.cache_read_tokens == b.cache_read_tokens && a.cache_creation_tokens
        == b.cache_creation_tokens && a.tokens_by_model == b.tokens_by_model
}

/// No two records carry the same session id.
pub open spec fn unique_sids(s: Seq<SessionMetrics>) -> bool {
    forall|i: int, j: int|
        0 <= i < j < s.len() ==> (#[trigger] s[i]).session_id@ != (#[trigger] s[j]).session_id@
}

/// Writes each row's cost in micro-dollars onto the session its `session_id` label names;
/// later rows overwrite earlier ones, rows naming no session change
/// nothing.
pub fn apply_cost_rows(sessions: &mut Vec<SessionMetrics>, rows: &Vec<QueryResult>)
    requires
        unique_sids(old(sessions)@),
    ensures
        final(sessions)@.len() == old(sessions)@.len(),
        unique_sids(final(sessions)@),
        forall|j: int|
            0 <= j < old(sessions)@.len() ==> same_but_cost(
                #[trigger] old(sessions)@[j],
                final(sessions)@[j],
            ) && final(sessions)@[j].total_cost_micro_usd == (match last_value_for(
                rows@,
                old(sessions)@[j].session_id@,
            ) {
                Some(v) => v,
                None => old(sessions)@[j].total_cost_micro_usd,
            }),
{
    let nr = rows.len();
    let ghost orig = old(sessions)@;
    for i in 0..nr
        invariant
            nr == rows@.len(),
            unique_sids(orig),
            sessions@.len() == orig.len(),
            forall|j: int|
                0 <= j < orig.len() ==> same_but_cost(#[trigger] orig[j], sessions@[j])
                    && sessions@[j].total_cost_micro_usd == (match last_value_for(
                    rows@.take(i as int),
                    orig[j].session_id@,
                ) {
                    Some(v) => v,
                    None => orig[j].total_cost_micro_usd,
                }),
    {
        proof {
            assert(rows@.take(i + 1).drop_last() =~= rows@.take(i as int));
            assert(rows@.take(i + 1).last() == rows@[i as int]);
        }
        match rows[i].metric_get("session_id") {
            Some(rsid) => {
                let value = rows[i].value_micros();
                let ns = sessions.len();
                let mut k: usize = 0;
                while k < ns && !str_eq(sessions[k].session_id.as_str(), rsid.as_str())
                    invariant
                        ns == sessions@.len(),
                        k <= ns,
                        unique_sids(orig),
                        label_get(rows@[i as int].metric@, "session_id"@) == Some(rsid@),
                        value == row_value_micros(rows@[i as int]),
                        forall|kk: int|
                            0 <= kk < k ==> (#[trigger] sessions@[kk]).session_id@ != rsid@,
                        sessions@.len() == orig.len(),
                        forall|j: int|
                            0 <= j < orig.len() ==> same_but_cost(
                                #[trigger] orig[j],
                                sessions@[j],
                            ) && sessions@[j].total_cost_micro_usd == (match last_value_for(
                                rows@.take(i as int),
                                orig[j].session_id@,
                            ) {
                                Some(v) => v,
                                None => orig[j].total_cost_micro_usd,
                            }),
                    decreases ns - k,
                {
                    k = k + 1;
                }
                if k < ns {
                    let ghost before = sessions@;
                    sessions[k].total_cost_micro_usd = value;
                    proof {
                        assert(rows@.take(i + 1).drop_last() =~= rows@.take(i as int));
                        assert(rows@.take(i + 1).last() == rows@[i as int]);
                        assert forall|j: int|
                            0 <= j < orig.len() implies same_but_cost(
                            #[trigger] orig[j],
                            sessions@[j],
                        ) && sessions@[j].total_cost_micro_usd == (match last_value_for(
                            rows@.take(i + 1),
                            orig[j].session_id@,
                        ) {
                            Some(v) => v,
                            None => orig[j].total_cost_micro_usd,
                        }) by {
                            if j == k {
                                assert(sessions@[j].session_id@ == rsid@);
                            } else {
                                assert(sessions@[j] == before[j]);
                                assert(orig[j].session_id@ == before[j].session_id@);
                                assert(orig[k as int].session_id@ == before[k as int].session_id@);
                                assert(before[k as int].session_id@ == rsid@);
                                if orig[j].session_id@ == rsid@ {
                                    assert(orig[j].session_id@ == orig[k as int].session_id@);
                                    assert(false);
                                }
                            }
                        }
                    }
                } else {
                    proof {
                        assert forall|j: int|
                            0 <= j < orig.len() implies sessions@[j].total_cost_micro_usd == (
                        match last_value_for(rows@.take(i + 1), orig[j].session_id@) {
                            Some(v) => v,
                            None => orig[j].total_cost_micro_usd,
                        }) by {
                            assert((#[trigger] sessions@[j]).session_id@ != rsid@);
                            assert(orig[j].session_id@ != rsid@);
                        }
                    }
                }
            },
            None => {
                proof {
                    assert forall|j: int|
                        0 <= j < orig.len() implies sessions@[j].total_cost_micro_usd == (
                    match last_value_for(rows@.take(i + 1), orig[j].session_id@) {
                        Some(v) => v,
                        None => orig[j].total_cost_micro_usd,
                    }) by {
                        assert(label_get(rows@[i as int].metric@, "session_id"@) is None);
                    }
                }
            },
        }
    }
    proof {
        assert(rows@.take(nr as int) =~= rows@);
        assert forall|a: int, b: int|
            0 <= a < b < sessions@.len() implies (#[trigger] sessions@[a]).session_id@ != (
        #[trigger] sessions@[b]).session_id@ by {
            assert(orig[a].session_id@ == sessions@[a].session_id@);
            assert(orig[b].session_id@ == sessions@[b].session_id@);
        }
    }
}

/// Writes each row's whole-token total onto the session its `session_id` label names;
/// later rows overwrite earlier ones, rows naming no session change
/// nothing.
pub fn apply_token_rows(sessions: &mut Vec<SessionMetrics>, rows: &Vec<QueryResult>)
    requires
        unique_sids(old(sessions)@),
    ensures
        final(sessions)@.len() == old(sessions)@.len(),
        unique_sids(final(sessions)@),
        forall|j: int|
            0 <= j < old(sessions)@.len() ==> same_but_tokens(
                #[trigger] old(sessions)@[j],
                final(sessions)@[j],
            ) && final(sessions)@[j].total_tokens == (match last_value_for(
                rows@,
                old(sessions)@[j].session_id@,
            ) {
                Some(v) => v / 1_000_000u64,
                None => old(sessions)@[j].total_tokens,
            }),
{
    let nr = rows.len();
    let ghost orig = old(sessions)@;
    for i in 0..nr
        invariant
            nr == rows@.len(),
            unique_sids(orig),
            sessions@.len() == orig.len(),
            forall|j: int|
                0 <= j < orig.len() ==> same_but_tokens(#[trigger] orig[j], sessions@[j])
                    && sessions@[j].total_tokens == (match last_value_for(
                    rows@.take(i as int),
                    orig[j].session_id@,
                ) {
                    Some(v) => v / 1_000_000u64,
                    None => orig[j].total_tokens,
                }),
    {
        proof {
            assert(rows@.take(i + 1).drop_last() =~= rows@.take(i as int));
            assert(rows@.take(i + 1).last() == rows@[i as int]);
        }
        match rows[i].metric_get("session_id") {
            Some(rsid) => {
                let value = rows[i].value_micros();
                let ns = sessions.len();
                let mut k: usize = 0;
                while k < ns && !str_eq(sessions[k].session_id.as_str(), rsid.as_str())
                    invariant
                        ns == sessions@.len(),
                        k <= ns,
                        unique_sids(orig),
                        label_get(rows@[i as int].metric@, "session_id"@) == Some(rsid@),
                        value == row_value_micros(rows@[i as int]),
                        forall|kk: int|
                            0 <= kk < k ==> (#[trigger] sessions@[kk]).session_id@ != rsid@,
                        sessions@.len() == orig.len(),
                        forall|j: int|
                            0 <= j < orig.len() ==> same_but_tokens(
                                #[trigger] orig[j],
                                sessions@[j],
                            ) && sessions@[j].total_tokens == (match last_value_for(
                                rows@.take(i as int),
                                orig[j].session_id@,
                            ) {
                                Some(v) => v / 1_000_000u64,
                                None => orig[j].total_tokens,
                            }),
                    decreases ns - k,
                {
                    k = k + 1;
                }
                if k < ns {
                    let ghost before = sessions@;
                    sessions[k].total_tokens = value / 1_000_000;
                    proof {
                        assert(rows@.take(i + 1).drop_last() =~= rows@.take(i as int));
                        assert(rows@.take(i + 1).last() == rows@[i as int]);
                        assert forall|j: int|
                            0 <= j < orig.len() implies same_but_tokens(
                            #[trigger] orig[j],
                            sessions@[j],
                        ) && sessions@[j].total_tokens == (match last_value_for(
                            rows@.take(i + 1),
                            orig[j].session_id@,
                        ) {
                            Some(v) => v / 1_000_000u64,
                            None => orig[j].total_tokens,
                        }) by {
                            if j == k {
                                assert(sessions@[j].session_id@ == rsid@);
                            } else {
                                assert(sessions@[j] == before[j]);
                                assert(orig[j].session_id@ == before[j].session_id@);
                                assert(orig[k as int].session_id@ == before[k as int].session_id@);
                                assert(before[k as int].session_id@ == rsid@);
                                if orig[j].session_id@ == rsid@ {
                                    assert(orig[j].session_id@ == orig[k as int].session_id@);
                                    assert(false);
                                }
                            }
                        }
                    }
                } else {
                    proof {
                        assert forall|j: int|
                            0 <= j < orig.len() implies sessions@[j].total_tokens == (
                        match last_value_for(rows@.take(i + 1), orig[j].session_id@) {
                            Some(v) => v / 1_000_000u64,
                            None => orig[j].total_tokens,
                        }) by {
                            assert((#[trigger] sessions@[j]).session_id@ != rsid@);
                            assert(orig[j].session_id@ != rsid@);
                        }
                    }
                }
            },
            None => {
                proof {
                    assert forall|j: int|
                        0 <= j < orig.len() implies sessions@[j].total_tokens == (
                    match last_value_for(rows@.take(i + 1), orig[j].session_id@) {
                        Some(v) => v / 1_000_000u64,
                        None => orig[j].total_tokens,
                    }) by {
                        assert(label_get(rows@[i as int].metric@, "session_id"@) is None);
                    }
                }
            },
        }
    }
    proof {
        assert(rows@.take(nr as int) =~= rows@);
        assert forall|a: int, b: int|
            0 <= a < b < sessions@.len() implies (#[trigger] sessions@[a]).session_id@ != (
        #[trigger] sessions@[b]).session_id@ by {
            assert(orig[a].session_id@ == sessions@[a].session_id@);
            assert(orig[b].session_id@ == sessions@[b].session_id@);
        }
    }
}

/// Writes each row's active time in micro-seconds onto the session its `session_id` label names;
/// later rows overwrite earlier ones, rows naming no session change
/// nothing.
pub fn apply_time_rows(sessions: &mut Vec<SessionMetrics>, rows: &Vec<QueryResult>)
    requires
        unique_sids(old(sessions)@),
    ensures
        final(sessions)@.len() == old(sessions)@.len(),
        unique_sids(final(sessions)@),
        forall|j: int|
            0 <= j < old(sessions)@.len() ==> same_but_time(
                #[trigger] old(sessions)@[j],
                final(sessions)@[j],
            ) && final(sessions)@[j].active_time_micro_seconds == (match last_value_for(
                rows@,
                old(sessions)@[j].session_id@,
            ) {
                Some(v) => v,
                None => old(sessions)@[j].active_time_micro_seconds,
            }),
{
    let nr = rows.len();
    let ghost orig = old(sessions)@;
    for i in 0..nr
        invariant
            nr == rows@.len(),
            unique_sids(orig),
            sessions@.len() == orig.len(),
            forall|j: int|
                0 <= j < orig.len() ==> same_but_time(#[trigger] orig[j], sessions@[j])
                    && sessions@[j].active_time_micro_seconds == (match last_value_for(
                    rows@.take(i as int),
                    orig[j].session_id@,
                ) {
                    Some(v) => v,
                    None => orig[j].active_time_micro_seconds,
                }),
    {
        proof {
            assert(rows@.take(i + 1).drop_last() =~= rows@.take(i as int));
            assert(rows@.take(i + 1).last() == rows@[i as int]);
        }
        match rows[i].metric_get("session_id") {
            Some(rsid) => {
                let value = rows[i].value_micros();
                let ns = sessions.len();
                let mut k: usize = 0;
                while k < ns && !str_eq(sessions[k].session_id.as_str(), rsid.as_str())
                    invariant
                        ns == sessions@.len(),
                        k <= ns,
                        unique_sids(orig),
                        label_get(rows@[i as int].metric@, "session_id"@) == Some(rsid@),
                        value == row_value_micros(rows@[i as int]),
                        forall|kk: int|
                            0 <= kk < k ==> (#[trigger] sessions@[kk]).session_id@ != rsid@,
                        sessions@.len() == orig.len(),
                        forall|j: int|
                            0 <= j < orig.len() ==> same_but_time(
                                #[trigger] orig[j],
                                sessions@[j],
                            ) && sessions@[j].active_time_micro_seconds == (match last_value_for(
                                rows@.take(i as int),
                                orig[j].session_id@,
                            ) {
                                Some(v) => v,
                                None => orig[j].active_time_micro_seconds,
                            }),
                    decreases ns - k,
                {
                    k = k + 1;
                }
                if k < ns {
                    let ghost before = sessions@;
                    sessions[k].active_time_micro_seconds = value;
                    proof {
                        assert(rows@.take(i + 1).drop_last() =~= rows@.take(i as int));
                        assert(rows@.take(i + 1).last() == rows@[i as int]);
                        assert forall|j: int|
                            0 <= j < orig.len() implies same_but_time(
                            #[trigger] orig[j],
                            sessions@[j],
                        ) && sessions@[j].active_time_micro_seconds == (match last_value_for(
                            rows@.take(i + 1),
                            orig[j].session_id@,
                        ) {
                            Some(v) => v,
                            None => orig[j].active_time_micro_seconds,
                        }) by {
                            if j == k {
                                assert(sessions@[j].session_id@ == rsid@);
                            } else {
                                assert(sessions@[j] == before[j]);
                                assert(orig[j].session_id@ == before[j].session_id@);
                                assert(orig[k as int].session_id@ == before[k as int].session_id@);
                                assert(before[k as int].session_id@ == rsid@);
                                if orig[j].session_id@ == rsid@ {
                                    assert(orig[j].session_id@ == orig[k as int].session_id@);
                                    assert(false);
                                }
                            }
                        }
                    }
                } else {
                    proof {
                        assert forall|j: int|
                            0 <= j < orig.len() implies sessions@[j].active_time_micro_seconds == (
                        match last_value_for(rows@.take(i + 1), orig[j].session_id@) {
                            Some(v) => v,
                            None => orig[j].active_time_micro_seconds,
                        }) by {
                            assert((#[trigger] sessions@[j]).session_id@ != rsid@);
                            assert(orig[j].session_id@ != rsid@);
                        }
                    }
                }
            },
            None => {
                proof {
                    assert forall|j: int|
                        0 <= j < orig.len() implies sessions@[j].active_time_micro_seconds == (
                    match last_value_for(rows@.take(i + 1), orig[j].session_id@) {
                        Some(v) => v,
                        None => orig[j].active_time_micro_seconds,
                    }) by {
                        assert(label_get(rows@[i as int].metric@, "session_id"@) is None);
                    }
                }
            },
        }
    }
    proof {
        assert(rows@.take(nr as int) =~= rows@);
        assert forall|a: int, b: int|
            0 <= a < b < sessions@.len() implies (#[trigger] sessions@[a]).session_id@ != (
        #[trigger] sessions@[b]).session_id@ by {
            assert(orig[a].session_id@ == sessions@[a].session_id@);
            assert(orig[b].session_id@ == sessions@[b].session_id@);
        }
    }
}

/// A per-type token value after enrichment: the last matching row's
/// whole-token value, or the default when no row matches.
pub open spec fn type_tokens_or(
    rows: Seq<QueryResult>,
    sid: Seq<char>,
    ty: Seq<char>,
    dflt: u64,
) -> u64 {
    match last_type_value_for(rows, sid, ty) {
        Some(v) => v / 1_000_000u64,
        None => dflt,
    }
}

/// Writes each row's whole-token value onto the per-type counter of the
/// session its `session_id` label names, choosing the counter by the
/// row's `type` label; rows with other types, or naming no session,
/// change nothing, and later rows overwrite earlier ones.
pub fn apply_type_rows(sessions: &mut Vec<SessionMetrics>, rows: &Vec<QueryResult>)
    requires
        unique_sids(old(sessions)@),
    ensures
        final(sessions)@.len() == old(sessions)@.len(),
        unique_sids(final(sessions)@),
        forall|j: int|
            0 <= j < old(sessions)@.len() ==> same_but_token_types(
                #[trigger] old(sessions)@[j],
                final(sessions)@[j],
            ) && final(sessions)@[j].input_tokens == type_tokens_or(
                rows@,
                old(sessions)@[j].session_id@,
                "input"@,
                old(sessions)@[j].input_tokens,
            ) && final(sessions)@[j].output_tokens == type_tokens_or(
                rows@,
                old(sessions)@[j].session_id@,
                "output"@,
                old(sessions)@[j].output_tokens,
            ) && final(sessions)@[j].cache_read_tokens == type_tokens_or(
                rows@,
                old(sessions)@[j].session_id@,
                "cache_read"@,
                old(sessions)@[j].cache_read_tokens,
            ) && final(sessions)@[j].cache_creation_tokens == type_tokens_or(
                rows@,
                old(sessions)@[j].session_id@,
                "cache_creation"@,
                old(sessions)@[j].cache_creation_tokens,
            ),
{
    let nr = rows.len();
    let ghost orig = old(sessions)@;
    proof {
        reveal_strlit("input");
        reveal_strlit("output");
        reveal_strlit("cache_read");
        reveal_strlit("cache_creation");
    }
    for i in 0..nr
        invariant
            nr == rows@.len(),
            unique_sids(orig),
            sessions@.len() == orig.len(),
            forall|j: int|
                0 <= j < orig.len() ==> same_but_token_types(#[trigger] orig[j], sessions@[j])
                    && sessions@[j].input_tokens == type_tokens_or(
                    rows@.take(i as int),
                    orig[j].session_id@,
                    "input"@,
                    orig[j].input_tokens,
                ) && sessions@[j].output_tokens == type_tokens_or(
                    rows@.take(i as int),
                    orig[j].session_id@,
                    "output"@,
                    orig[j].output_tokens,
                ) && sessions@[j].cache_read_tokens == type_tokens_or(
                    rows@.take(i as int),
                    orig[j].session_id@,
                    "cache_read"@,
                    orig[j].cache_read_tokens,
                ) && sessions@[j].cache_creation_tokens == type_tokens_or(
                    rows@.take(i as int),
                    orig[j].session_id@,
                    "cache_creation"@,
                    orig[j].cache_creation_tokens,
                ),
    {
        proof {
            reveal_strlit("input");
            reveal_strlit("output");
            reveal_strlit("cache_read");
            reveal_strlit("cache_creation");
            assert(rows@.take(i + 1).drop_last() =~= rows@.take(i as int));
            assert(rows@.take(i + 1).last() == rows@[i as int]);
        }
        let sid_label = rows[i].metric_get("session_id");
        match sid_label {
            Some(rsid) => {
                match rows[i].metric_get("type") {
                    Some(rty) => {
                        let tokens = rows[i].value_micros() / 1_000_000;
                        let ns = sessions.len();
                        let mut k: usize = 0;
                        while k < ns && !str_eq(sessions[k].session_id.as_str(), rsid.as_str())
                            invariant
                                ns == sessions@.len(),
                                k <= ns,
                                unique_sids(orig),
                                label_get(rows@[i as int].metric@, "session_id"@) == Some(rsid@),
                                label_get(rows@[i as int].metric@, "type"@) == Some(rty@),
                                tokens == row_value_micros(rows@[i as int]) / 1_000_000u64,
                                forall|kk: int|
                                    0 <= kk < k ==> (#[trigger] sessions@[kk]).session_id@
                                        != rsid@,
                                sessions@.len() == orig.len(),
                                forall|j: int|
                                    0 <= j < orig.len() ==> same_but_token_types(
                                        #[trigger] orig[j],
                                        sessions@[j],
                                    ) && sessions@[j].input_tokens == type_tokens_or(
                                        rows@.take(i as int),
                                        orig[j].session_id@,
                                        "input"@,
                                        orig[j].input_tokens,
                                    ) && sessions@[j].output_tokens == type_tokens_or(
                                        rows@.take(i as int),
                                        orig[j].session_id@,
                                        "output"@,
                                        orig[j].output_tokens,
                                    ) && sessions@[j].cache_read_tokens == type_tokens_or(
                                        rows@.take(i as int),
                                        orig[j].session_id@,
                                        "cache_read"@,
                                        orig[j].cache_read_tokens,
                                    ) && sessions@[j].cache_creation_tokens == type_tokens_or(
                                        rows@.take(i as int),
                                        orig[j].session_id@,
                                        "cache_creation"@,
                                        orig[j].cache_creation_tokens,
                                    ),
                            decreases ns - k,
                        {
                            k = k + 1;
                        }
                        if k < ns {
                            let ghost before = sessions@;
                            let mut known_type = true;
                            if str_eq(rty.as_str(), "input") {
                                sessions[k].input_tokens = tokens;
                            } else if str_eq(rty.as_str(), "output") {
                                sessions[k].output_tokens = tokens;
                            } else if str_eq(rty.as_str(), "cache_read") {
                                sessions[k].cache_read_tokens = tokens;
                            } else if str_eq(rty.as_str(), "cache_creation") {
                                sessions[k].cache_creation_tokens = tokens;
                            } else {
                                known_type = false;
                            }
                            proof {
                                reveal_strlit("input");
                                reveal_strlit("output");
                                reveal_strlit("cache_read");
                                reveal_strlit("cache_creation");
                                assert("input"@.len() == 5);
                                assert("output"@.len() == 6);
                                assert("cache_read"@.len() == 10);
                                assert("cache_creation"@.len() == 14);
                                assert(rows@.take(i + 1).drop_last() =~= rows@.take(i as int));
                                assert(rows@.take(i + 1).last() == rows@[i as int]);
                                assert forall|j: int|
                                    0 <= j < orig.len() implies same_but_token_types(
                                    #[trigger] orig[j],
                                    sessions@[j],
                                ) && sessions@[j].input_tokens == type_tokens_or(
                                    rows@.take(i + 1),
                                    orig[j].session_id@,
                                    "input"@,
                                    orig[j].input_tokens,
                                ) && sessions@[j].output_tokens == type_tokens_or(
                                    rows@.take(i + 1),
                                    orig[j].session_id@,
                                    "output"@,
                                    orig[j].output_tokens,
                                ) && sessions@[j].cache_read_tokens == type_tokens_or(
                                    rows@.take(i + 1),
                                    orig[j].session_id@,
                                    "cache_read"@,
                                    orig[j].cache_read_tokens,
                                ) && sessions@[j].cache_creation_tokens == type_tokens_or(
                                    rows@.take(i + 1),
                                    orig[j].session_id@,
                                    "cache_creation"@,
                                    orig[j].cache_creation_tokens,
                                ) by {
                                    if j == k {
                                        assert(before[j].session_id@ == rsid@);
                                        assert(sessions@[j].session_id@ == rsid@);
                                    } else {
                                        assert(sessions@[j] == before[j]);
                                        assert(orig[j].session_id@ == before[j].session_id@);
                                        assert(orig[k as int].session_id@ == before[
                                            k as int].session_id@);
                                        assert(before[k as int].session_id@ == rsid@);
                                        if orig[j].session_id@ == rsid@ {
                                            assert(orig[j].session_id@ == orig[
                                                k as int].session_id@);
                                            assert(false);
                                        }
                                    }
                                }
                            }
                        } else {
                            proof {
                                assert forall|j: int|
                                    0 <= j < orig.len() implies sessions@[j].input_tokens
                                    == type_tokens_or(
                                    rows@.take(i + 1),
                                    orig[j].session_id@,
                                    "input"@,
                                    orig[j].input_tokens,
                                ) && sessions@[j].output_tokens == type_tokens_or(
                                    rows@.take(i + 1),
                                    orig[j].session_id@,
                                    "output"@,
                                    orig[j].output_tokens,
                                ) && sessions@[j].cache_read_tokens == type_tokens_or(
                                    rows@.take(i + 1),
                                    orig[j].session_id@,
                                    "cache_read"@,
                                    orig[j].cache_read_tokens,
                                ) && sessions@[j].cache_creation_tokens == type_tokens_or(
                                    rows@.take(i + 1),
                                    orig[j].session_id@,
                                    "cache_creation"@,
                                    orig[j].cache_creation_tokens,
                                ) by {
                                    assert((#[trigger] sessions@[j]).session_id@ != rsid@);
                                    assert(orig[j].session_id@ != rsid@);
                                }
                            }
                        }
                    },
                    None => {
                        proof {
                            assert forall|j: int|
                                0 <= j < orig.len() implies sessions@[j].input_tokens
                                == type_tokens_or(
                                rows@.take(i + 1),
                                orig[j].session_id@,
                                "input"@,
                                orig[j].input_tokens,
                            ) && sessions@[j].output_tokens == type_tokens_or(
                                rows@.take(i + 1),
                                orig[j].session_id@,
                                "output"@,
                                orig[j].output_tokens,
                            ) && sessions@[j].cache_read_tokens == type_tokens_or(
                                rows@.take(i + 1),
                                orig[j].session_id@,
                                "cache_read"@,
                                orig[j].cache_read_tokens,
                            ) && sessions@[j].cache_creation_tokens == type_tokens_or(
                                rows@.take(i + 1),
                                orig[j].session_id@,
                                "cache_creation"@,
                                orig[j].cache_creation_tokens,
                            ) by {
                                assert(label_get(rows@[i as int].metric@, "type"@) is None);
                            }
                        }
                    },
                }
            },
            None => {
                proof {
                    assert forall|j: int|
                        0 <= j < orig.len() implies sessions@[j].input_tokens == type_tokens_or(
                        rows@.take(i + 1),
                        orig[j].session_id@,
                        "input"@,
                        orig[j].input_tokens,
                    ) && sessions@[j].output_tokens == type_tokens_or(
                        rows@.take(i + 1),
                        orig[j].session_id@,
                        "output"@,
                        orig[j].output_tokens,
                    ) && sessions@[j].cache_read_tokens == type_tokens_or(
                        rows@.take(i + 1),
                        orig[j].session_id@,
                        "cache_read"@,
                        orig[j].cache_read_tokens,
                    ) && sessions@[j].cache_creation_tokens == type_tokens_or(
                        rows@.take(i + 1),
                        orig[j].session_id@,
                        "cache_creation"@,
                        orig[j].cache_creation_tokens,
                    ) by {
                        assert(label_get(rows@[i as int].metric@, "session_id"@) is None);
                    }
                }
            },
        }
    }
    proof {
        assert(rows@.take(nr as int) =~= rows@);
        assert forall|a: int, b: int|
            0 <= a < b < sessions@.len() implies (#[trigger] sessions@[a]).session_id@ != (
        #[trigger] sessions@[b]).session_id@ by {
            assert(orig[a].session_id@ == sessions@[a].session_id@);
            assert(orig[b].session_id@ == sessions@[b].session_id@);
        }
    }
}

/// Session display order: higher cost first, then the more recent.
pub open spec fn session_order(a: SessionMetrics, b: SessionMetrics) -> bool {
    a.total_cost_micro_usd > b.total_cost_micro_usd || (a.total_cost_micro_usd
        == b.total_cost_micro_usd && a.timestamp >= b.timestamp)
}

fn session_before(a: &SessionMetrics, b: &SessionMetrics) -> (r: bool)
    ensures
        r == session_order(*a, *b),
{
    a.total_cost_micro_usd > b.total_cost_micro_usd || (a.total_cost_micro_usd
        == b.total_cost_micro_usd && a.timestamp >= b.timestamp)
}

/// Sorts sessions by cost, largest first, ties broken by the more recent
/// timestamp, keeping exactly the same records.
pub fn sort_sessions(v: Vec<SessionMetrics>) -> (r: Vec<SessionMetrics>)
    ensures
        vstd::relations::sorted_by(
            r@,
            |a: SessionMetrics, b: SessionMetrics| session_order(a, b),
        ),
        r@.to_multiset() == v@.to_multiset(),
{
    let mut rest = v;
    let mut out: Vec<SessionMetrics> = Vec::new();
    let ghost orig = rest@;
    while rest.len() > 0
        invariant
            vstd::relations::sorted_by(
                out@,
                |a: SessionMetrics, b: SessionMetrics| session_order(a, b),
            ),
            out@.to_multiset().add(rest@.to_multiset()) == orig.to_multiset(),
        decreases rest.len(),
    {
        let ghost rest_pre = rest@;
        let item = rest.remove(0);
        proof {
            assert(rest_pre.remove(0).to_multiset() =~= rest_pre.to_multiset().remove(
                rest_pre[0],
            ));
            assert(rest@.to_multiset() =~= rest_pre.to_multiset().remove(item));
            assert(rest_pre.to_multiset().count(item) > 0) by {
                assert(rest_pre.contains(item));
            }
            assert(out@.to_multiset().insert(item).add(rest@.to_multiset()) =~= orig.to_multiset());
        }
        let mut pos: usize = 0;
        while pos < out.len() && session_before(&out[pos], &item)
            invariant
                pos <= out@.len(),
                forall|k: int| 0 <= k < pos ==> session_order(#[trigger] out@[k], item),
                vstd::relations::sorted_by(
                    out@,
                    |a: SessionMetrics, b: SessionMetrics| session_order(a, b),
                ),
                out@.to_multiset().insert(item).add(rest@.to_multiset()) == orig.to_multiset(),
            decreases out@.len() - pos,
        {
            pos = pos + 1;
        }
        let ghost out_before = out@;
        out.insert(pos, item);
        proof {
            assert(out@ =~= out_before.take(pos as int).push(item) + out_before.skip(
                pos as int,
            ));
            assert forall|i: int, j: int|
                0 <= i < j < out@.len() implies (|a: SessionMetrics, b: SessionMetrics|
            session_order(a, b))(out@[i], out@[j]) by {
                if j < pos {
                    assert(out@[i] == out_before[i]);
                    assert(out@[j] == out_before[j]);
                } else if i < pos && j == pos {
                    assert(out@[i] == out_before[i]);
                    assert(out@[j] == item);
                } else if i < pos && j > pos {
                    assert(out@[i] == out_before[i]);
                    assert(out@[j] == out_before[j - 1]);
                    assert((|a: SessionMetrics, b: SessionMetrics| session_order(a, b))(
                        out_before[i],
                        out_before[j - 1],
                    ));
                } else if i == pos && j > pos {
                    assert(out@[i] == item);
                    assert(out@[j] == out_before[j - 1]);
                    assert(pos < out_before.len());
                    assert(!session_order(out_before[pos as int], item));
                    if j - 1 > pos {
                        assert((|a: SessionMetrics, b: SessionMetrics| session_order(a, b))(
                            out_before[pos as int],
                            out_before[j - 1],
                        ));
                    }
                } else {
                    assert(i > pos);
                    assert(out@[i] == out_before[i - 1]);
                    assert(out@[j] == out_before[j - 1]);
                    assert((|a: SessionMetrics, b: SessionMetrics| session_order(a, b))(
                        out_before[i - 1],
                        out_before[j - 1],
                    ));
                }
            }
            assert(out@.to_multiset() =~= out_before.to_multiset().insert(item)) by {
                let left = out_before.take(pos as int);
                let right = out_before.skip(pos as int);
                assert(out_before =~= left + right);
                vstd::seq_lib::lemma_multiset_commutative(left, right);
                vstd::seq_lib::lemma_multiset_commutative(left.push(item), right);
                assert(out@ =~= left.push(item) + right);
                assert(left.push(item).to_multiset() =~= left.to_multiset().insert(item));
            }
            assert(out@.to_multiset().add(rest@.to_multiset()) =~= orig.to_multiset());
        }
    }
    out
}

/// Project display order: higher cost first.
pub open spec fn project_order(a: ProjectStats, b: ProjectStats) -> bool {
    a.total_cost_micro_usd >= b.total_cost_micro_usd
}

/// Sorts project rollups by cost, largest first, keeping exactly the same
/// entries.
pub fn sort_projects(v: Vec<ProjectStats>) -> (r: Vec<ProjectStats>)
    ensures
        vstd::relations::sorted_by(r@, |a: ProjectStats, b: ProjectStats| project_order(a, b)),
        r@.to_multiset() == v@.to_multiset(),
{
    let mut rest = v;
    let mut out: Vec<ProjectStats> = Vec::new();
    let ghost orig = rest@;
    while rest.len() > 0
        invariant
            vstd::relations::sorted_by(
                out@,
                |a: ProjectStats, b: ProjectStats| project_order(a, b),
            ),
            out@.to_multiset().add(rest@.to_multiset()) == orig.to_multiset(),
        decreases rest.len(),
    {
        let ghost rest_pre = rest@;
        let item = rest.remove(0);
        proof {
            assert(rest_pre.remove(0).to_multiset() =~= rest_pre.to_multiset().remove(
                rest_pre[0],
            ));
            assert(rest@.to_multiset() =~= rest_pre.to_multiset().remove(item));
            assert(rest_pre.to_multiset().count(item) > 0) by {
                assert(rest_pre.contains(item));
            }
            assert(out@.to_multiset().insert(item).add(rest@.to_multiset()) =~= orig.to_multiset());
        }
        let mut pos: usize = 0;
        while pos < out.len() && out[pos].total_cost_micro_usd >= item.total_cost_micro_usd
            invariant
                pos <= out@.len(),
                forall|k: int|
                    0 <= k < pos ==> (#[trigger] out@[k]).total_cost_micro_usd
                        >= item.total_cost_micro_usd,
                vstd::relations::sorted_by(
                    out@,
                    |a: ProjectStats, b: ProjectStats| project_order(a, b),
                ),
                out@.to_multiset().insert(item).add(rest@.to_multiset()) == orig.to_multiset(),
            decreases out@.len() - pos,
        {
            pos = pos + 1;
        }
        let ghost out_before = out@;
        out.insert(pos, item);
        proof {
            assert(out@ =~= out_before.take(pos as int).push(item) + out_before.skip(
                pos as int,
            ));
            assert forall|i: int, j: int|
                0 <= i < j < out@.len() implies (|a: ProjectStats, b: ProjectStats|
            project_order(a, b))(out@[i], out@[j]) by {
                if j < pos {
                    assert(out@[i] == out_before[i]);
                    assert(out@[j] == out_before[j]);
                } else if i < pos && j == pos {
                    assert(out@[i] == out_before[i]);
                    assert(out@[j] == item);
                } else if i < pos && j > pos {
                    assert(out@[i] == out_before[i]);
                    assert(out@[j] == out_before[j - 1]);
                    assert((|a: ProjectStats, b: ProjectStats| project_order(a, b))(
                        out_before[i],
                        out_before[j - 1],
                    ));
                } else if i == pos && j > pos {
                    assert(out@[i] == item);
                    assert(out@[j] == out_before[j - 1]);
                    assert(pos < out_before.len());
                    assert(out_before[pos as int].total_cost_micro_usd
                        < item.total_cost_micro_usd);
                    if j - 1 > pos {
                        assert((|a: ProjectStats, b: ProjectStats| project_order(a, b))(
                            out_before[pos as int],
                            out_before[j - 1],
                        ));
                    }
                } else {
                    assert(i > pos);
                    assert(out@[i] == out_before[i - 1]);
                    assert(out@[j] == out_before[j - 1]);
                    assert((|a: ProjectStats, b: ProjectStats| project_order(a, b))(
                        out_before[i - 1],
                        out_before[j - 1],
                    ));
                }
            }
            assert(out@.to_multiset() =~= out_before.to_multiset().insert(item)) by {
                let left = out_before.take(pos as int);
                let right = out_before.skip(pos as int);
                assert(out_before =~= left + right);
                vstd::seq_lib::lemma_multiset_commutative(left, right);
                vstd::seq_lib::lemma_multiset_commutative(left.push(item), right);
                assert(out@ =~= left.push(item) + right);
                assert(left.push(item).to_multiset() =~= left.to_multiset().insert(item));
            }
            assert(out@.to_multiset().add(rest@.to_multiset()) =~= orig.to_multiset());
        }
    }
    out
}

/// The character view of an optional string.
pub open spec fn opt_str_view(o: Option<String>) -> Option<Seq<char>> {
    match o {
        Some(s) => Some(s@),
        None => None,
    }
}

/// The rollup key of a session: its project display name, or `Unknown`.
pub open spec fn session_project_key(s: SessionMetrics) -> Seq<char> {
    match s.project {
        Some(p) => p@,
        None => "Unknown"@,
    }
}

/// The rollup keys of a session list.
pub open spec fn project_keys(sessions: Seq<SessionMetrics>) -> Seq<Seq<char>> {
    sessions.map_values(|s: SessionMetrics| session_project_key(s))
}

/// How many sessions carry this rollup key.
pub open spec fn project_count_for(sessions: Seq<SessionMetrics>, key: Seq<char>) -> int
    decreases sessions.len(),
{
    if sessions.len() == 0 {
        0
    } else {
        project_count_for(sessions.drop_last(), key) + (if session_project_key(sessions.last())
            == key {
            1int
        } else {
            0int
        })
    }
}

/// Total cost of this rollup key's sessions.
pub open spec fn project_cost_for(sessions: Seq<SessionMetrics>, key: Seq<char>) -> int
    decreases sessions.len(),
{
    if sessions.len() == 0 {
        0
    } else {
        project_cost_for(sessions.drop_last(), key) + (if session_project_key(sessions.last())
            == key {
            sessions.last().total_cost_micro_usd as int
        } else {
            0
        })
    }
}

/// Total tokens of this rollup key's sessions.
pub open spec fn project_tokens_for(sessions: Seq<SessionMetrics>, key: Seq<char>) -> int
    decreases sessions.len(),
{
    if sessions.len() == 0 {
        0
    } else {
        project_tokens_for(sessions.drop_last(), key) + (if session_project_key(sessions.last())
            == key {
            sessions.last().total_tokens as int
        } else {
            0
        })
    }
}

/// Total active time of this rollup key's sessions.
pub open spec fn project_time_for(sessions: Seq<SessionMetrics>, key: Seq<char>) -> int
    decreases sessions.len(),
{
    if sessions.len() == 0 {
        0
    } else {
        project_time_for(sessions.drop_last(), key) + (if session_project_key(sessions.last())
            == key {
            sessions.last().active_time_micro_seconds as int
        } else {
            0
        })
    }
}

/// The project path of this rollup key's first session.
pub open spec fn project_first_path_for(sessions: Seq<SessionMetrics>, key: Seq<char>) -> Option<
    Seq<char>,
>
    decreases sessions.len(),
{
    if sessions.len() == 0 {
        None
    } else {
        if project_count_for(sessions.drop_last(), key) > 0 {
            project_first_path_for(sessions.drop_last(), key)
        } else if session_project_key(sessions.last()) == key {
            opt_str_view(sessions.last().project_path)
        } else {
            project_first_path_for(sessions.drop_last(), key)
        }
    }
}

proof fn lemma_project_totals_nonneg(sessions: Seq<SessionMetrics>, key: Seq<char>)
    ensures
        project_count_for(sessions, key) >= 0,
        project_cost_for(sessions, key) >= 0,
        project_tokens_for(sessions, key) >= 0,
        project_time_for(sessions, key) >= 0,
    decreases sessions.len(),
{
    if sessions.len() > 0 {
        lemma_project_totals_nonneg(sessions.drop_last(), key);
    }
}

proof fn lemma_project_totals_absent(sessions: Seq<SessionMetrics>, key: Seq<char>)
    requires
        !project_keys(sessions).contains(key),
    ensures
        project_count_for(sessions, key) == 0,
        project_cost_for(sessions, key) == 0,
        project_tokens_for(sessions, key) == 0,
        project_time_for(sessions, key) == 0,
    decreases sessions.len(),
{
    if sessions.len() > 0 {
        assert(project_keys(sessions)[sessions.len() - 1] == session_project_key(
            sessions.last(),
        ));
        assert(session_project_key(sessions.last()) != key);
        assert forall|i: int|
            0 <= i < project_keys(sessions.drop_last()).len() implies project_keys(
            sessions.drop_last(),
        )[i] != key by {
            assert(project_keys(sessions.drop_last())[i] == session_project_key(
                sessions.drop_last()[i],
            ));
            assert(project_keys(sessions)[i] == session_project_key(sessions[i]));
        }
        lemma_project_totals_absent(sessions.drop_last(), key);
    }
}

/// The rollup names of a project list.
pub open spec fn names_of(out: Seq<ProjectStats>) -> Seq<Seq<char>> {
    out.map_values(|p: ProjectStats| p.project@)
}

/// What the rollup leaves in one project entry: the session count and the
/// saturating cost, token and time totals of its key, and the first
/// session's project path.
pub open spec fn project_entry_ok(p: ProjectStats, sessions: Seq<SessionMetrics>) -> bool {
    p.session_count == sat32(project_count_for(sessions, p.project@)) && p.total_cost_micro_usd
        == sat64(project_cost_for(sessions, p.project@)) && p.total_tokens == sat64(
        project_tokens_for(sessions, p.project@),
    ) && p.active_time_micro_seconds == sat64(project_time_for(sessions, p.project@))
        && opt_str_view(p.project_path) == project_first_path_for(sessions, p.project@)
}

/// The rollup invariant: one entry per distinct key, in first-occurrence
/// order, each as `project_entry_ok` describes.
pub open spec fn project_totals_ok(out: Seq<ProjectStats>, sessions: Seq<SessionMetrics>) -> bool {
    names_of(out) == dedup_first(project_keys(sessions)) && forall|j: int|
        0 <= j < out.len() ==> project_entry_ok(#[trigger] out[j], sessions)
}

/// Folds one session into the running project rollup.
fn fold_project_into(
    out: &mut Vec<ProjectStats>,
    session: &SessionMetrics,
    Ghost(prefix): Ghost<Seq<SessionMetrics>>,
)
    requires
        project_totals_ok(old(out)@, prefix),
    ensures
        project_totals_ok(final(out)@, prefix.push(*session)),
{
    let ghost newsessions = prefix.push(*session);
    let key: String = match &session.project {
        Some(p) => p.clone(),
        None => String::from_str("Unknown"),
    };
    proof {
        assert(key@ == session_project_key(*session));
    }
    let n = out.len();
    for j in 0..n
        invariant
            n == out@.len(),
            project_totals_ok(out@, prefix),
            newsessions == prefix.push(*session),
            key@ == session_project_key(*session),
            forall|jj: int| 0 <= jj < j ==> (#[trigger] out@[jj]).project@ != key@,
    {
        if str_eq(out[j].project.as_str(), key.as_str()) {
            let sc = out[j].session_count;
            let cost = out[j].total_cost_micro_usd;
            let tokens = out[j].total_tokens;
            let time = out[j].active_time_micro_seconds;
            let ghost old_out = out@;
            out[j].session_count = sc.saturating_add(1);
            out[j].total_cost_micro_usd = cost.saturating_add(session.total_cost_micro_usd);
            out[j].total_tokens = tokens.saturating_add(session.total_tokens);
            out[j].active_time_micro_seconds = time.saturating_add(
                session.active_time_micro_seconds,
            );
            proof {
                assert(newsessions.drop_last() =~= prefix);
                assert(project_keys(newsessions) =~= project_keys(prefix).push(key@));
                assert(project_keys(newsessions).drop_last() =~= project_keys(prefix));
                lemma_dedup_no_dup(project_keys(prefix));
                assert(names_of(out@) =~= names_of(old_out));
                assert(names_of(old_out)[j as int] == key@);
                assert(dedup_first(project_keys(prefix)).contains(key@));
                assert(dedup_first(project_keys(newsessions)) == dedup_first(
                    project_keys(prefix),
                ));
                lemma_dedup_contains(project_keys(prefix), key@);
                assert(project_keys(prefix).contains(key@));
                assert(project_count_for(prefix, key@) > 0) by {
                    lemma_project_count_present(prefix, key@);
                }
                assert forall|jj: int| 0 <= jj < out@.len() implies project_entry_ok(
                    #[trigger] out@[jj],
                    newsessions,
                ) by {
                    lemma_project_totals_nonneg(prefix, out@[jj].project@);
                    if jj == j {
                        assert(project_count_for(newsessions, key@) == project_count_for(
                            prefix,
                            key@,
                        ) + 1);
                        assert(project_first_path_for(newsessions, key@)
                            == project_first_path_for(prefix, key@));
                    } else {
                        assert(names_of(old_out)[jj] == out@[jj].project@);
                        assert(out@[jj].project@ != key@) by {
                            assert(dedup_first(project_keys(prefix))[jj] == out@[jj].project@);
                            assert(dedup_first(project_keys(prefix))[j as int] == key@);
                        }
                        assert(project_count_for(newsessions, out@[jj].project@)
                            == project_count_for(prefix, out@[jj].project@));
                        assert(project_first_path_for(newsessions, out@[jj].project@)
                            == project_first_path_for(prefix, out@[jj].project@));
                    }
                }
            }
            return;
        }
    }
    let path = match &session.project_path {
        Some(p) => Some(p.clone()),
        None => None,
    };
    let entry = ProjectStats {
        project: key,
        project_path: path,
        session_count: 1,
        total_cost_micro_usd: session.total_cost_micro_usd,
        total_tokens: session.total_tokens,
        active_time_micro_seconds: session.active_time_micro_seconds,
    };
    let ghost old_out = out@;
    out.push(entry);
    proof {
        let key_view = session_project_key(*session);
        assert(newsessions.drop_last() =~= prefix);
        assert(project_keys(newsessions) =~= project_keys(prefix).push(key_view));
        assert(project_keys(newsessions).drop_last() =~= project_keys(prefix));
        assert forall|i: int| 0 <= i < dedup_first(project_keys(prefix)).len() implies dedup_first(
            project_keys(prefix),
        )[i] != key_view by {
            assert(names_of(old_out)[i] == old_out[i].project@);
        }
        assert(!dedup_first(project_keys(prefix)).contains(key_view));
        lemma_dedup_contains(project_keys(prefix), key_view);
        lemma_project_totals_absent(prefix, key_view);
        assert(dedup_first(project_keys(newsessions)) == dedup_first(project_keys(prefix)).push(
            key_view,
        ));
        assert(names_of(out@) =~= names_of(old_out).push(key_view));
        assert forall|jj: int| 0 <= jj < out@.len() implies project_entry_ok(
            #[trigger] out@[jj],
            newsessions,
        ) by {
            lemma_project_totals_nonneg(prefix, out@[jj].project@);
            if jj == out@.len() - 1 {
                assert(out@[jj].project@ == key_view);
                assert(project_count_for(newsessions, key_view) == 1);
                assert(project_first_path_for(newsessions, key_view) == opt_str_view(
                    session.project_path,
                ));
            } else {
                assert(names_of(old_out)[jj] == out@[jj].project@);
                assert(out@[jj].project@ != key_view) by {
                    assert(dedup_first(project_keys(prefix))[jj] == out@[jj].project@);
                }
                assert(project_count_for(newsessions, out@[jj].project@) == project_count_for(
                    prefix,
                    out@[jj].project@,
                ));
                assert(project_first_path_for(newsessions, out@[jj].project@)
                    == project_first_path_for(prefix, out@[jj].project@));
            }
        }
    }
}

proof fn lemma_project_count_present(sessions: Seq<SessionMetrics>, key: Seq<char>)
    requires
        project_keys(sessions).contains(key),
    ensures
        project_count_for(sessions, key) > 0,
    decreases sessions.len(),
{
    if sessions.len() > 0 {
        lemma_project_totals_nonneg(sessions.drop_last(), key);
        if session_project_key(sessions.last()) != key {
            let i = choose|i: int|
                0 <= i < project_keys(sessions).len() && project_keys(sessions)[i] == key;
            assert(project_keys(sessions)[i] == session_project_key(sessions[i]));
            assert(i < sessions.len() - 1);
            assert(project_keys(sessions.drop_last())[i] == session_project_key(
                sessions.drop_last()[i],
            ));
            assert(project_keys(sessions.drop_last()).contains(key));
            lemma_project_count_present(sessions.drop_last(), key);
        }
    }
}

/// Rolls sessions up by project display name, totals as
/// `project_entry_ok` describes, entries sorted by cost, largest first.
pub fn aggregate_by_project(sessions: &Vec<SessionMetrics>) -> (r: Vec<ProjectStats>)
    ensures
        vstd::relations::sorted_by(r@, |a: ProjectStats, b: ProjectStats| project_order(a, b)),
        forall|j: int| 0 <= j < r@.len() ==> project_entry_ok(#[trigger] r@[j], sessions@),
        forall|i: int, j: int| 0 <= i < j < r@.len() ==> r@[i].project@ != r@[j].project@,
        forall|k: Seq<char>|
            names_of(r@).contains(k) <==> #[trigger] project_keys(sessions@).contains(k),
{
    let mut folded: Vec<ProjectStats> = Vec::new();
    let n = sessions.len();
    proof {
        assert(names_of(folded@) =~= dedup_first(project_keys(sessions@.take(0))));
    }
    for i in 0..n
        invariant
            n == sessions@.len(),
            project_totals_ok(folded@, sessions@.take(i as int)),
    {
        proof {
            assert(sessions@.take(i + 1) =~= sessions@.take(i as int).push(sessions@[i as int]));
        }
        fold_project_into(&mut folded, &sessions[i], Ghost(sessions@.take(i as int)));
    }
    proof {
        assert(sessions@.take(n as int) =~= sessions@);
    }
    let ghost folded_view = folded@;
    let sorted = sort_projects(folded);
    proof {
        lemma_dedup_no_dup(project_keys(sessions@));
        assert forall|i: int, j: int|
            0 <= i < j < folded_view.len() implies (|p: ProjectStats| p.project@)(folded_view[i])
            != (|p: ProjectStats| p.project@)(folded_view[j]) by {
            assert(names_of(folded_view)[i] == folded_view[i].project@);
            assert(names_of(folded_view)[j] == folded_view[j].project@);
            assert(dedup_first(project_keys(sessions@))[i] != dedup_first(
                project_keys(sessions@),
            )[j]);
        }
        crate::seq_util::lemma_key_unique_transfer(
            sorted@,
            folded_view,
            |p: ProjectStats| p.project@,
        );
        assert forall|i: int, j: int|
            0 <= i < j < sorted@.len() implies sorted@[i].project@ != sorted@[j].project@ by {
            assert((|p: ProjectStats| p.project@)(sorted@[i]) != (|p: ProjectStats| p.project@)(
                sorted@[j],
            ));
        }
        assert forall|j: int| 0 <= j < sorted@.len() implies project_entry_ok(
            #[trigger] sorted@[j],
            sessions@,
        ) by {
            assert(sorted@.contains(sorted@[j]));
            assert(sorted@.to_multiset().count(sorted@[j]) > 0);
            assert(folded_view.to_multiset().count(sorted@[j]) > 0);
            assert(folded_view.contains(sorted@[j]));
            let k = choose|k: int| 0 <= k < folded_view.len() && folded_view[k] == sorted@[j];
            assert(project_entry_ok(folded_view[k], sessions@));
        }
        crate::seq_util::lemma_map_values_multiset(
            sorted@,
            folded_view,
            |p: ProjectStats| p.project@,
        );
        assert forall|k: Seq<char>| true implies (names_of(sorted@).contains(k) <==> #[trigger]
        project_keys(sessions@).contains(k)) by {
            lemma_dedup_contains(project_keys(sessions@), k);
            assert(names_of(sorted@) == sorted@.map_values(|p: ProjectStats| p.project@));
            assert(names_of(folded_view) == folded_view.map_values(
                |p: ProjectStats| p.project@,
            ));
            if names_of(sorted@).contains(k) {
                assert(names_of(sorted@).to_multiset().count(k) > 0);
                assert(names_of(folded_view).to_multiset().count(k) > 0);
                assert(names_of(folded_view).contains(k));
            }
            if names_of(folded_view).contains(k) {
                assert(names_of(folded_view).to_multiset().count(k) > 0);
                assert(names_of(sorted@).to_multiset().count(k) > 0);
                assert(names_of(sorted@).contains(k));
            }
        }
    }
    sorted
}

/// The rows of a best-effort query battery member; a failed query
/// contributes no rows.
pub open spec fn opt_rows_view(o: Option<Vec<QueryResult>>) -> Seq<QueryResult> {
    match o {
        Some(r) => r@,
        None => Seq::<QueryResult>::empty(),
    }
}

/// What one session record of the finished view holds: the local fold of
/// its id's events, and each enrichment total from the last matching row
/// of its query, zero where no row matches.
pub open spec fn enriched_session_ok(
    s: SessionMetrics,
    entries: Seq<(i64, Seq<char>, Seq<char>)>,
    cost_rows: Seq<QueryResult>,
    tokens_rows: Seq<QueryResult>,
    type_rows: Seq<QueryResult>,
    time_rows: Seq<QueryResult>,
) -> bool {
    s.message_count == sat32(count_for(entries, s.session_id@)) && s.timestamp == max_ts_for(
        entries,
        s.session_id@,
    ) && (match s.project {
        Some(p) => p@ == project_name_spec(first_project_for(entries, s.session_id@)),
        None => false,
    }) && (match s.project_path {
        Some(p) => p@ == first_project_for(entries, s.session_id@),
        None => false,
    }) && s.total_cost_micro_usd == (match last_value_for(cost_rows, s.session_id@) {
        Some(v) => v,
        None => 0u64,
    }) && s.total_tokens == (match last_value_for(tokens_rows, s.session_id@) {
        Some(v) => v / 1_000_000u64,
        None => 0u64,
    }) && s.input_tokens == type_tokens_or(type_rows, s.session_id@, "input"@, 0u64)
        && s.output_tokens == type_tokens_or(type_rows, s.session_id@, "output"@, 0u64)
        && s.cache_read_tokens == type_tokens_or(type_rows, s.session_id@, "cache_read"@, 0u64)
        && s.cache_creation_tokens == type_tokens_or(
        type_rows,
        s.session_id@,
        "cache_creation"@,
        0u64,
    ) && s.active_time_micro_seconds == (match last_value_for(time_rows, s.session_id@) {
        Some(v) => v,
        None => 0u64,
    }) && s.tokens_by_model@ == Seq::<ModelTokenCount>::empty()
}

/// Builds the sessions view: folds the history lines into sessions,
/// enriches them from the four best-effort query batteries, sorts them by
/// cost then recency, and rolls them up by project.
pub fn get_sessions_data(
    lines: &Vec<String>,
    now_millis: i64,
    time_range: &str,
    cost_rows: &Option<Vec<QueryResult>>,
    tokens_rows: &Option<Vec<QueryResult>>,
    type_rows: &Option<Vec<QueryResult>>,
    time_rows: &Option<Vec<QueryResult>>,
) -> (r: SessionsData)
    requires
        now_millis >= 0,
    ensures
        ({
            let entries = kept_entries(
                lines@,
                (now_millis - time_range_to_millis_spec(time_range@)) as i64,
            );
            r.total_count == r.sessions@.len() && vstd::relations::sorted_by(
                r.sessions@,
                |a: SessionMetrics, b: SessionMetrics| session_order(a, b),
            ) && unique_sids(r.sessions@) && (forall|j: int|
                0 <= j < r.sessions@.len() ==> enriched_session_ok(
                    #[trigger] r.sessions@[j],
                    entries,
                    opt_rows_view(*cost_rows),
                    opt_rows_view(*tokens_rows),
                    opt_rows_view(*type_rows),
                    opt_rows_view(*time_rows),
                )) && (forall|k: Seq<char>|
                sids_of(r.sessions@).contains(k) <==> #[trigger] sid_views(entries).contains(k))
                && vstd::relations::sorted_by(
                r.projects@,
                |a: ProjectStats, b: ProjectStats| project_order(a, b),
            ) && (forall|j: int|
                0 <= j < r.projects@.len() ==> project_entry_ok(
                    #[trigger] r.projects@[j],
                    r.sessions@,
                )) && (forall|i: int, j: int|
                0 <= i < j < r.projects@.len() ==> r.projects@[i].project@
                    != r.projects@[j].project@) && (forall|k: Seq<char>|
                names_of(r.projects@).contains(k) <==> #[trigger] project_keys(
                    r.sessions@,
                ).contains(k))
        }),
{
    let ghost entries = kept_entries(
        lines@,
        (now_millis - time_range_to_millis_spec(time_range@)) as i64,
    );
    let mut sessions = sessions_from_lines(lines, now_millis, time_range);
    let ghost s0 = sessions@;
    proof {
        lemma_dedup_no_dup(sid_views(entries));
        assert forall|i: int, j: int|
            0 <= i < j < s0.len() implies (#[trigger] s0[i]).session_id@ != (
        #[trigger] s0[j]).session_id@ by {
            assert(sids_of(s0)[i] == s0[i].session_id@);
            assert(sids_of(s0)[j] == s0[j].session_id@);
            assert(dedup_first(sid_views(entries))[i] != dedup_first(sid_views(entries))[j]);
        }
    }
    match cost_rows {
        Some(rows) => apply_cost_rows(&mut sessions, rows),
        None => {},
    }
    let ghost s1 = sessions@;
    proof {
        assert(s1.len() == s0.len() && unique_sids(s1) && forall|j: int|
            0 <= j < s0.len() ==> same_but_cost(#[trigger] s0[j], s1[j])
                && s1[j].total_cost_micro_usd == (match last_value_for(
                opt_rows_view(*cost_rows),
                s0[j].session_id@,
            ) {
                Some(v) => v,
                None => 0u64,
            })) by {
            match *cost_rows {
                Some(rows) => {
                    assert forall|j: int| 0 <= j < s0.len() implies same_but_cost(
                        #[trigger] s0[j],
                        s1[j],
                    ) && s1[j].total_cost_micro_usd == (match last_value_for(
                        opt_rows_view(*cost_rows),
                        s0[j].session_id@,
                    ) {
                        Some(v) => v,
                        None => 0u64,
                    }) by {
                        assert(folded_session_ok(s0[j], entries));
                        assert(s0[j].total_cost_micro_usd == 0);
                    }
                },
                None => {
                    assert forall|j: int| 0 <= j < s0.len() implies same_but_cost(
                        #[trigger] s0[j],
                        s1[j],
                    ) && s1[j].total_cost_micro_usd == (match last_value_for(
                        opt_rows_view(*cost_rows),
                        s0[j].session_id@,
                    ) {
                        Some(v) => v,
                        None => 0u64,
                    }) by {
                        assert(s1[j] == s0[j]);
                        assert(folded_session_ok(s0[j], entries));
                    }
                },
            }
        }
    }
    match tokens_rows {
        Some(rows) => apply_token_rows(&mut sessions, rows),
        None => {},
    }
    let ghost s2 = sessions@;
    proof {
        assert(s2.len() == s1.len() && unique_sids(s2) && forall|j: int|
            0 <= j < s1.len() ==> same_but_tokens(#[trigger] s1[j], s2[j]) && s2[j].total_tokens
                == (match last_value_for(opt_rows_view(*tokens_rows), s1[j].session_id@) {
                Some(v) => v / 1_000_000u64,
                None => 0u64,
            })) by {
            match *tokens_rows {
                Some(rows) => {
                    assert forall|j: int| 0 <= j < s1.len() implies same_but_tokens(
                        #[trigger] s1[j],
                        s2[j],
                    ) && s2[j].total_tokens == (match last_value_for(
                        opt_rows_view(*tokens_rows),
                        s1[j].session_id@,
                    ) {
                        Some(v) => v / 1_000_000u64,
                        None => 0u64,
                    }) by {
                        assert(same_but_cost(s0[j], s1[j]));
                        assert(folded_session_ok(s0[j], entries));
                        assert(s1[j].total_tokens == 0);
                    }
                },
                None => {
                    assert forall|j: int| 0 <= j < s1.len() implies same_but_tokens(
                        #[trigger] s1[j],
                        s2[j],
                    ) && s2[j].total_tokens == (match last_value_for(
                        opt_rows_view(*tokens_rows),
                        s1[j].session_id@,
                    ) {
                        Some(v) => v / 1_000_000u64,
                        None => 0u64,
                    }) by {
                        assert(s2[j] == s1[j]);
                        assert(same_but_cost(s0[j], s1[j]));
                        assert(folded_session_ok(s0[j], entries));
                    }
                },
            }
        }
    }
    match type_rows {
        Some(rows) => apply_type_rows(&mut sessions, rows),
        None => {},
    }
    let ghost s3 = sessions@;
    proof {
        assert(s3.len() == s2.len() && unique_sids(s3) && forall|j: int|
            0 <= j < s2.len() ==> same_but_token_types(#[trigger] s2[j], s3[j])
                && s3[j].input_tokens == type_tokens_or(
                opt_rows_view(*type_rows),
                s2[j].session_id@,
                "input"@,
                0u64,
            ) && s3[j].output_tokens == type_tokens_or(
                opt_rows_view(*type_rows),
                s2[j].session_id@,
                "output"@,
                0u64,
            ) && s3[j].cache_read_tokens == type_tokens_or(
                opt_rows_view(*type_rows),
                s2[j].session_id@,
                "cache_read"@,
                0u64,
            ) && s3[j].cache_creation_tokens == type_tokens_or(
                opt_rows_view(*type_rows),
                s2[j].session_id@,
                "cache_creation"@,
                0u64,
            )) by {
            match *type_rows {
                Some(rows) => {
                    assert forall|j: int| 0 <= j < s2.len() implies same_but_token_types(
                        #[trigger] s2[j],
                        s3[j],
                    ) && s3[j].input_tokens == type_tokens_or(
                        opt_rows_view(*type_rows),
                        s2[j].session_id@,
                        "input"@,
                        0u64,
                    ) && s3[j].output_tokens == type_tokens_or(
                        opt_rows_view(*type_rows),
                        s2[j].session_id@,
                        "output"@,
                        0u64,
                    ) && s3[j].cache_read_tokens == type_tokens_or(
                        opt_rows_view(*type_rows),
                        s2[j].session_id@,
                        "cache_read"@,
                        0u64,
                    ) && s3[j].cache_creation_tokens == type_tokens_or(
                        opt_rows_view(*type_rows),
                        s2[j].session_id@,
                        "cache_creation"@,
                        0u64,
                    ) by {
                        assert(same_but_cost(s0[j], s1[j]));
                        assert(same_but_tokens(s1[j], s2[j]));
                        assert(folded_session_ok(s0[j], entries));
                        assert(s2[j].input_tokens == 0);
                        assert(s2[j].output_tokens == 0);
                        assert(s2[j].cache_read_tokens == 0);
                        assert(s2[j].cache_creation_tokens == 0);
                    }
                },
                None => {
                    assert forall|j: int| 0 <= j < s2.len() implies same_but_token_types(
                        #[trigger] s2[j],
                        s3[j],
                    ) && s3[j].input_tokens == type_tokens_or(
                        opt_rows_view(*type_rows),
                        s2[j].session_id@,
                        "input"@,
                        0u64,
                    ) && s3[j].output_tokens == type_tokens_or(
                        opt_rows_view(*type_rows),
                        s2[j].session_id@,
                        "output"@,
                        0u64,
                    ) && s3[j].cache_read_tokens == type_tokens_or(
                        opt_rows_view(*type_rows),
                        s2[j].session_id@,
                        "cache_read"@,
                        0u64,
                    ) && s3[j].cache_creation_tokens == type_tokens_or(
                        opt_rows_view(*type_rows),
                        s2[j].session_id@,
                        "cache_creation"@,
                        0u64,
                    ) by {
                        assert(s3[j] == s2[j]);
                        assert(same_but_cost(s0[j], s1[j]));
                        assert(same_but_tokens(s1[j], s2[j]));
                        assert(folded_session_ok(s0[j], entries));
                    }
                },
            }
        }
    }
    match time_rows {
        Some(rows) => apply_time_rows(&mut sessions, rows),
        None => {},
    }
    let ghost s4 = sessions@;
    proof {
        assert(s4.len() == s3.len() && unique_sids(s4) && forall|j: int|
            0 <= j < s3.len() ==> same_but_time(#[trigger] s3[j], s4[j])
                && s4[j].active_time_micro_seconds == (match last_value_for(
                opt_rows_view(*time_rows),
                s3[j].session_id@,
            ) {
                Some(v) => v,
                None => 0u64,
            })) by {
            match *time_rows {
                Some(rows) => {
                    assert forall|j: int| 0 <= j < s3.len() implies same_but_time(
                        #[trigger] s3[j],
                        s4[j],
                    ) && s4[j].active_time_micro_seconds == (match last_value_for(
                        opt_rows_view(*time_rows),
                        s3[j].session_id@,
                    ) {
                        Some(v) => v,
                        None => 0u64,
                    }) by {
                        assert(same_but_cost(s0[j], s1[j]));
                        assert(same_but_tokens(s1[j], s2[j]));
                        assert(same_but_token_types(s2[j], s3[j]));
                        assert(folded_session_ok(s0[j], entries));
                        assert(s3[j].active_time_micro_seconds == 0);
                    }
                },
                None => {
                    assert forall|j: int| 0 <= j < s3.len() implies same_but_time(
                        #[trigger] s3[j],
                        s4[j],
                    ) && s4[j].active_time_micro_seconds == (match last_value_for(
                        opt_rows_view(*time_rows),
                        s3[j].session_id@,
                    ) {
                        Some(v) => v,
                        None => 0u64,
                    }) by {
                        assert(s4[j] == s3[j]);
                        assert(same_but_cost(s0[j], s1[j]));
                        assert(same_but_tokens(s1[j], s2[j]));
                        assert(same_but_token_types(s2[j], s3[j]));
                        assert(folded_session_ok(s0[j], entries));
                    }
                },
            }
        }
    }
    proof {
        assert forall|j: int| 0 <= j < s4.len() implies enriched_session_ok(
            #[trigger] s4[j],
            entries,
            opt_rows_view(*cost_rows),
            opt_rows_view(*tokens_rows),
            opt_rows_view(*type_rows),
            opt_rows_view(*time_rows),
        ) by {
            assert(same_but_cost(s0[j], s1[j]));
            assert(same_but_tokens(s1[j], s2[j]));
            assert(same_but_token_types(s2[j], s3[j]));
            assert(same_but_time(s3[j], s4[j]));
            assert(folded_session_ok(s0[j], entries));
            assert(s4[j].session_id@ == s0[j].session_id@);
        }
        assert(sids_of(s4) =~= sids_of(s0)) by {
            assert forall|j: int| 0 <= j < s4.len() implies sids_of(s4)[j] == sids_of(s0)[j] by {
                assert(same_but_cost(s0[j], s1[j]));
                assert(same_but_tokens(s1[j], s2[j]));
                assert(same_but_token_types(s2[j], s3[j]));
                assert(same_but_time(s3[j], s4[j]));
            }
        }
    }
    let sorted = sort_sessions(sessions);
    proof {
        assert forall|j: int| 0 <= j < sorted@.len() implies enriched_session_ok(
            #[trigger] sorted@[j],
            entries,
            opt_rows_view(*cost_rows),
            opt_rows_view(*tokens_rows),
            opt_rows_view(*type_rows),
            opt_rows_view(*time_rows),
        ) by {
            assert(sorted@.contains(sorted@[j]));
            assert(sorted@.to_multiset().count(sorted@[j]) > 0);
            assert(s4.to_multiset().count(sorted@[j]) > 0);
            assert(s4.contains(sorted@[j]));
            let k = choose|k: int| 0 <= k < s4.len() && s4[k] == sorted@[j];
            assert(enriched_session_ok(
                s4[k],
                entries,
                opt_rows_view(*cost_rows),
                opt_rows_view(*tokens_rows),
                opt_rows_view(*type_rows),
                opt_rows_view(*time_rows),
            ));
        }
        assert forall|i: int, j: int|
            0 <= i < j < s4.len() implies (|s: SessionMetrics| s.session_id@)(s4[i]) != (|
            s: SessionMetrics,
        | s.session_id@)(s4[j]) by {
            assert(s4[i].session_id@ != s4[j].session_id@);
        }
        crate::seq_util::lemma_key_unique_transfer(
            sorted@,
            s4,
            |s: SessionMetrics| s.session_id@,
        );
        assert forall|i: int, j: int|
            0 <= i < j < sorted@.len() implies (#[trigger] sorted@[i]).session_id@ != (
        #[trigger] sorted@[j]).session_id@ by {
            assert((|s: SessionMetrics| s.session_id@)(sorted@[i]) != (|s: SessionMetrics|
            s.session_id@)(sorted@[j]));
        }
        crate::seq_util::lemma_map_values_multiset(
            sorted@,
            s4,
            |s: SessionMetrics| s.session_id@,
        );
        assert forall|k: Seq<char>| true implies (sids_of(sorted@).contains(k) <==> #[trigger]
        sid_views(entries).contains(k)) by {
            lemma_dedup_contains(sid_views(entries), k);
            assert(sids_of(sorted@) == sorted@.map_values(|s: SessionMetrics| s.session_id@));
            assert(sids_of(s4) == s4.map_values(|s: SessionMetrics| s.session_id@));
            if sids_of(sorted@).contains(k) {
                assert(sids_of(sorted@).to_multiset().count(k) > 0);
                assert(sids_of(s4).to_multiset().count(k) > 0);
                assert(sids_of(s4).contains(k));
            }
            if sids_of(s4).contains(k) {
                assert(sids_of(s4).to_multiset().count(k) > 0);
                assert(sids_of(sorted@).to_multiset().count(k) > 0);
                assert(sids_of(sorted@).contains(k));
            }
            if sids_of(s4).contains(k) || dedup_first(sid_views(entries)).contains(k) {
                assert(sids_of(s4) == dedup_first(sid_views(entries)));
            }
        }
    }
    let projects = aggregate_by_project(&sorted);
    let total_count = sorted.len();
    SessionsData { sessions: sorted, projects, total_count }
}

} // verus!
