//! Aggregation of the local usage-history cache: period-over-period
//! comparisons, activity charts, streaks and peak-activity facts.
//!
//! The cache is recorded by an external process; reading and decoding its
//! file happens outside the library, which receives the decoded record as
//! plain values. Percent changes are held in hundredths of a percent, and
//! estimated costs in micro-dollars.

use vstd::prelude::*;

use crate::dates::{date_le, date_parse_spec, prev_day_spec, sub_days_spec, Date};
use crate::numbers::{parse_u32_spec, sat32, sat64, str_eq};

verus! {

broadcast use vstd::seq_lib::group_to_multiset_ensures;

/// The raw stats cache, one record per day plus whole-history totals.
#[derive(Clone, Debug)]
pub struct StatsCache {
    pub daily_activity: Vec<DailyActivity>,
    pub daily_model_tokens: Option<Vec<DailyModelTokens>>,
    pub model_usage: Vec<(String, ModelUsage)>,
    pub total_sessions: u32,
    pub total_messages: u32,
    pub longest_session: Option<LongestSession>,
    pub first_session_date: Option<String>,
    pub hour_counts: Option<Vec<(String, u32)>>,
}

/// One day of recorded activity, the date written `YYYY-MM-DD`.
#[derive(Clone, Debug)]
pub struct DailyActivity {
    pub date: String,
    pub message_count: u32,
    pub session_count: u32,
    pub tool_call_count: u32,
}

/// One day's token totals keyed by model name.
#[derive(Clone, Debug)]
pub struct DailyModelTokens {
    pub date: String,
    pub tokens_by_model: Vec<(String, u64)>,
}

/// Whole-history token totals for one model.
#[derive(Clone, Copy, Debug, PartialEq, Eq, Structural)]
pub struct ModelUsage {
    pub input_tokens: u64,
    pub output_tokens: u64,
    pub cache_read_input_tokens: u64,
    pub cache_creation_input_tokens: u64,
}

/// The longest recorded session, its duration in milliseconds.
#[derive(Clone, Copy, Debug, PartialEq, Eq, Structural)]
pub struct LongestSession {
    pub duration: u64,
    pub message_count: u32,
}

/// A current value against the preceding period's, with the relative
/// change in hundredths of a percent.
#[derive(Clone, Copy, Debug, PartialEq, Eq, Structural)]
pub struct MetricComparison {
    pub current: u64,
    pub previous: u64,
    pub percent_change: Option<i128>,
}

/// The four period-over-period comparisons of the insights view.
#[derive(Clone, Copy, Debug, PartialEq, Eq, Structural)]
pub struct PeriodComparison {
    pub messages: MetricComparison,
    pub sessions: MetricComparison,
    pub tokens: MetricComparison,
    pub estimated_cost: MetricComparison,
}

/// One chart point: a `YYYY-MM-DD` date and its count.
#[derive(Clone, Debug)]
pub struct DailyActivityPoint {
    pub date: String,
    pub value: u64,
}

/// Peak-activity facts: the busiest hour, the longest session in minutes,
/// the current daily streak and the first recorded session date.
#[derive(Clone, Debug)]
pub struct PeakActivity {
    pub most_active_hour: Option<u32>,
    pub longest_session_minutes: Option<u32>,
    pub current_streak: u32,
    pub member_since: Option<String>,
}

/// The insights view: the period name, its comparisons, two chart series
/// and the peak-activity facts.
#[derive(Clone, Debug)]
pub struct InsightsData {
    pub period: String,
    pub comparison: PeriodComparison,
    pub daily_activity: Vec<DailyActivityPoint>,
    pub sessions_per_day: Vec<DailyActivityPoint>,
    pub peak_activity: PeakActivity,
}

/// The relative change from `p` to `c` in hundredths of a percent:
/// `None` when both are zero, a full hundred percent when only the
/// previous value is zero, else the standard relative change truncated
/// toward zero.
pub open spec fn percent_change_spec(c: u64, p: u64) -> Option<i128> {
    if p > 0 {
        if c >= p {
            Some((((c - p) * 10000) / (p as int)) as i128)
        } else {
            Some((-(((p - c) * 10000) / (p as int))) as i128)
        }
    } else if c > 0 {
        Some(10000i128)
    } else {
        None
    }
}

impl MetricComparison {
    /// Builds a comparison, as `percent_change_spec` describes.
    pub fn new(current: u64, previous: u64) -> (r: MetricComparison)
        ensures
            r.current == current,
            r.previous == previous,
            r.percent_change == percent_change_spec(current, previous),
    {
        let percent_change: Option<i128> = if previous > 0 {
            if current >= previous {
                let diff = (current - previous) as u128;
                let v = diff * 10000 / (previous as u128);
                Some(v as i128)
            } else {
                let diff = (previous - current) as u128;
                let v = diff * 10000 / (previous as u128);
                Some(-(v as i128))
            }
        } else if current > 0 {
            Some(10000)
        } else {
            None
        };
        MetricComparison { current, previous, percent_change }
    }
}

/// The flat per-million-token rate in micro-dollars for a pricing
/// provider: one provider carries a ten percent premium, all others share
/// the base rate.
pub open spec fn cost_rate_spec(provider: Seq<char>) -> int {
    if provider == "google-vertex"@ {
        16_500_000int
    } else {
        15_000_000int
    }
}

/// The estimated cost of a token count in micro-dollars: the flat rate
/// applied proportionally, truncated, saturating at the top of `u64`.
pub open spec fn calculate_cost_spec(tokens: u64, provider: Seq<char>) -> u64 {
    sat64(tokens * cost_rate_spec(provider) / 1_000_000)
}

/// Estimates the cost of a token count in micro-dollars, as
/// `calculate_cost_spec` describes.
pub fn calculate_cost(tokens: u64, pricing_provider: &str) -> (r: u64)
    ensures
        r == calculate_cost_spec(tokens, pricing_provider@),
{
    let rate: u128 = if str_eq(pricing_provider, "google-vertex") {
        16_500_000
    } else {
        15_000_000
    };
    let c = (tokens as u128) * rate / 1_000_000;
    if c > 0xffff_ffff_ffff_ffff {
        0xffff_ffff_ffff_ffff
    } else {
        c as u64
    }
}

/// The current and preceding comparison windows of a named period:
/// `this_week` runs from Monday to today, `this_month` from the first to
/// today, and anything else is the trailing seven days. The preceding
/// window always ends the day before the current one starts and spans the
/// same number of days.
pub open spec fn period_dates_spec(period: Seq<char>, today: Date, days_from_monday: u8) -> (
    Date,
    Date,
    Date,
    Date,
) {
    if period == "this_week"@ {
        let week_start = sub_days_spec(today, days_from_monday as nat);
        let prev_end = sub_days_spec(week_start, 1);
        (week_start, today, sub_days_spec(prev_end, days_from_monday as nat), prev_end)
    } else if period == "this_month"@ {
        let month_start = Date { year: today.year, month: today.month, day: 1u8 };
        let prev_end = prev_day_spec(month_start);
        (month_start, today, sub_days_spec(prev_end, (today.day - 1) as nat), prev_end)
    } else {
        let start = sub_days_spec(today, 6);
        let prev_end = sub_days_spec(start, 1);
        (start, today, sub_days_spec(prev_end, 6), prev_end)
    }
}

/// Resolves a named period into `(current start, current end, previous
/// start, previous end)`.
pub fn get_period_dates(period: &str, today: Date, days_from_monday: u8) -> (r: (
    Date,
    Date,
    Date,
    Date,
))
    requires
        today.valid(),
        days_from_monday < 7,
    ensures
        r == period_dates_spec(period@, today, days_from_monday),
        r.0.valid() && r.1.valid() && r.2.valid() && r.3.valid(),
{
    if str_eq(period, "this_week") {
        let week_start = today.sub_days(days_from_monday as usize);
        let prev_end = week_start.sub_days(1);
        (week_start, today, prev_end.sub_days(days_from_monday as usize), prev_end)
    } else if str_eq(period, "this_month") {
        let month_start = Date { year: today.year, month: today.month, day: 1 };
        let prev_end = month_start.prev_day();
        (month_start, today, prev_end.sub_days((today.day - 1) as usize), prev_end)
    } else {
        let start = today.sub_days(6);
        let prev_end = start.sub_days(1);
        (start, today, prev_end.sub_days(6), prev_end)
    }
}

/// True when a day record's date parses and lies in the window.
pub open spec fn activity_in_range(a: DailyActivity, start: Date, end: Date) -> bool {
    match date_parse_spec(a.date@) {
        Some(d) => date_le(start, d) && date_le(d, end),
        None => false,
    }
}

/// Total messages recorded in the window.
pub open spec fn sum_messages_spec(acts: Seq<DailyActivity>, start: Date, end: Date) -> int
    decreases acts.len(),
{
    if acts.len() == 0 {
        0
    } else {
        sum_messages_spec(acts.drop_last(), start, end) + (if activity_in_range(
            acts.last(),
            start,
            end,
        ) {
            acts.last().message_count as int
        } else {
            0
        })
    }
}

/// Total sessions recorded in the window.
pub open spec fn sum_sessions_spec(acts: Seq<DailyActivity>, start: Date, end: Date) -> int
    decreases acts.len(),
{
    if acts.len() == 0 {
        0
    } else {
        sum_sessions_spec(acts.drop_last(), start, end) + (if activity_in_range(
            acts.last(),
            start,
            end,
        ) {
            acts.last().session_count as int
        } else {
            0
        })
    }
}

/// Sums message and session counts over the day records whose date lies in
/// the window, each total saturating at the top of `u32`; records with
/// unparsable dates are skipped.
pub fn sum_activity_in_range(acts: &Vec<DailyActivity>, start: Date, end: Date) -> (r: (u32, u32))
    ensures
        r.0 == sat32(sum_messages_spec(acts@, start, end)),
        r.1 == sat32(sum_sessions_spec(acts@, start, end)),
{
    let mut messages: u32 = 0;
    let mut sessions: u32 = 0;
    let n = acts.len();
    for i in 0..n
        invariant
            n == acts@.len(),
            messages == sat32(sum_messages_spec(acts@.take(i as int), start, end)),
            sessions == sat32(sum_sessions_spec(acts@.take(i as int), start, end)),
    {
        proof {
            assert(acts@.take(i + 1).drop_last() =~= acts@.take(i as int));
            assert(acts@.take(i + 1).last() == acts@[i as int]);
            lemma_sum_messages_nonneg(acts@.take(i as int), start, end);
            lemma_sum_sessions_nonneg(acts@.take(i as int), start, end);
        }
        let in_range = match Date::parse(acts[i].date.as_str()) {
            Some(d) => start.on_or_before(&d) && d.on_or_before(&end),
            None => false,
        };
        if in_range {
            messages = messages.saturating_add(acts[i].message_count);
            sessions = sessions.saturating_add(acts[i].session_count);
        }
    }
    proof {
        assert(acts@.take(n as int) =~= acts@);
    }
    (messages, sessions)
}

proof fn lemma_sum_messages_nonneg(acts: Seq<DailyActivity>, start: Date, end: Date)
    ensures
        sum_messages_spec(acts, start, end) >= 0,
    decreases acts.len(),
{
    if acts.len() > 0 {
        lemma_sum_messages_nonneg(acts.drop_last(), start, end);
    }
}

proof fn lemma_sum_sessions_nonneg(acts: Seq<DailyActivity>, start: Date, end: Date)
    ensures
        sum_sessions_spec(acts, start, end) >= 0,
    decreases acts.len(),
{
    if acts.len() > 0 {
        lemma_sum_sessions_nonneg(acts.drop_last(), start, end);
    }
}

/// Total of the values of a key-value pair list.
pub open spec fn pair_values_total(pairs: Seq<(String, u64)>) -> int
    decreases pairs.len(),
{
    if pairs.len() == 0 {
        0
    } else {
        pair_values_total(pairs.drop_last()) + pairs.last().1
    }
}

pub(crate) proof fn lemma_pair_values_total_nonneg(pairs: Seq<(String, u64)>)
    ensures
        pair_values_total(pairs) >= 0,
    decreases pairs.len(),
{
    if pairs.len() > 0 {
        lemma_pair_values_total_nonneg(pairs.drop_last());
    }
}

/// True when a day's token record lies in the window.
pub open spec fn tokens_in_range(d: DailyModelTokens, start: Date, end: Date) -> bool {
    match date_parse_spec(d.date@) {
        Some(day) => date_le(start, day) && date_le(day, end),
        None => false,
    }
}

/// Total tokens over all models on the days inside the window.
pub open spec fn sum_tokens_spec(days: Seq<DailyModelTokens>, start: Date, end: Date) -> int
    decreases days.len(),
{
    if days.len() == 0 {
        0
    } else {
        sum_tokens_spec(days.drop_last(), start, end) + (if tokens_in_range(
            days.last(),
            start,
            end,
        ) {
            pair_values_total(days.last().tokens_by_model@)
        } else {
            0
        })
    }
}

/// The window token total of an optional token record list; an absent
/// list counts as zero.
pub open spec fn sum_tokens_opt_spec(days: Option<Vec<DailyModelTokens>>, start: Date, end: Date)
    -> int {
    match days {
        Some(d) => sum_tokens_spec(d@, start, end),
        None => 0,
    }
}

proof fn lemma_sum_tokens_nonneg(days: Seq<DailyModelTokens>, start: Date, end: Date)
    ensures
        sum_tokens_spec(days, start, end) >= 0,
    decreases days.len(),
{
    if days.len() > 0 {
        lemma_sum_tokens_nonneg(days.drop_last(), start, end);
        lemma_pair_values_total_nonneg(days.last().tokens_by_model@);
    }
}

/// Sums one day's token totals over all models, saturating at the top of
/// `u64`.
fn day_tokens_total(pairs: &Vec<(String, u64)>) -> (r: u64)
    ensures
        r == sat64(pair_values_total(pairs@)),
{
    let mut total: u64 = 0;
    let n = pairs.len();
    for i in 0..n
        invariant
            n == pairs@.len(),
            total == sat64(pair_values_total(pairs@.take(i as int))),
    {
        proof {
            assert(pairs@.take(i + 1).drop_last() =~= pairs@.take(i as int));
            assert(pairs@.take(i + 1).last() == pairs@[i as int]);
            lemma_pair_values_total_nonneg(pairs@.take(i as int));
        }
        total = total.saturating_add(pairs[i].1);
    }
    proof {
        assert(pairs@.take(n as int) =~= pairs@);
    }
    total
}

/// Sums tokens over all models on the days inside the window, saturating
/// at the top of `u64`; days with unparsable dates are skipped and an
/// absent record list counts as zero.
pub fn sum_tokens_in_range(days: &Option<Vec<DailyModelTokens>>, start: Date, end: Date) -> (r:
    u64)
    ensures
        r == sat64(sum_tokens_opt_spec(*days, start, end)),
{
    let day_list = match days {
        Some(d) => d,
        None => {
            return 0;
        },
    };
    let mut total: u64 = 0;
    let n = day_list.len();
    for i in 0..n
        invariant
            n == day_list@.len(),
            total == sat64(sum_tokens_spec(day_list@.take(i as int), start, end)),
    {
        proof {
            assert(day_list@.take(i + 1).drop_last() =~= day_list@.take(i as int));
            assert(day_list@.take(i + 1).last() == day_list@[i as int]);
            lemma_sum_tokens_nonneg(day_list@.take(i as int), start, end);
            lemma_pair_values_total_nonneg(day_list@[i as int].tokens_by_model@);
        }
        let in_range = match Date::parse(day_list[i].date.as_str()) {
            Some(d) => start.on_or_before(&d) && d.on_or_before(&end),
            None => false,
        };
        if in_range {
            let day_total = day_tokens_total(&day_list[i].tokens_by_model);
            total = total.saturating_add(day_total);
        }
    }
    proof {
        assert(day_list@.take(n as int) =~= day_list@);
    }
    total
}

/// True when some day record with messages parses to exactly this date.
pub open spec fn is_active_date(acts: Seq<DailyActivity>, d: Date) -> bool {
    exists|i: int|
        0 <= i < acts.len() && (#[trigger] acts[i]).message_count > 0 && date_parse_spec(
            acts[i].date@,
        ) == Some(d)
}

/// The number of consecutive active days walking backwards from `d`,
/// stopping at the first inactive day or when the fuel runs out.
pub open spec fn run_length_spec(acts: Seq<DailyActivity>, d: Date, fuel: nat) -> nat
    decreases fuel,
{
    if fuel == 0 {
        0
    } else if is_active_date(acts, d) {
        1 + run_length_spec(acts, prev_day_spec(d), (fuel - 1) as nat)
    } else {
        0
    }
}

/// The current streak: one for today when it is active, plus the
/// consecutive active days walking back from yesterday. A streak is
/// anchored at today or yesterday; older activity alone leaves it at
/// zero.
pub open spec fn streak_spec(acts: Seq<DailyActivity>, today: Date) -> int {
    (if is_active_date(acts, today) {
        1int
    } else {
        0int
    }) + run_length_spec(acts, prev_day_spec(today), acts.len() as nat)
}

/// Scans for a day record with messages on exactly this date.
fn has_active_date(acts: &Vec<DailyActivity>, d: &Date) -> (r: bool)
    ensures
        r == is_active_date(acts@, *d),
{
    let n = acts.len();
    for i in 0..n
        invariant
            n == acts@.len(),
            forall|j: int|
                0 <= j < i ==> !((#[trigger] acts@[j]).message_count > 0 && date_parse_spec(
                    acts@[j].date@,
                ) == Some(*d)),
    {
        if acts[i].message_count > 0 {
            match Date::parse(acts[i].date.as_str()) {
                Some(parsed) => {
                    if parsed == *d {
                        proof {
                            assert(is_active_date(acts@, *d));
                        }
                        return true;
                    }
                },
                None => {},
            }
        }
    }
    false
}

/// Computes the current streak, as `streak_spec` describes, saturating at
/// the top of `u32`.
pub fn compute_streak(acts: &Vec<DailyActivity>, today: Date) -> (r: u32)
    requires
        today.valid(),
    ensures
        r == sat32(streak_spec(acts@, today)),
{
    let anchor: usize = if has_active_date(acts, &today) {
        1
    } else {
        0
    };
    let mut count: usize = 0;
    let mut d = today.prev_day();
    let mut fuel = acts.len();
    let mut done = false;
    let ghost start = prev_day_spec(today);
    while fuel > 0 && !done
        invariant
            d.valid(),
            acts@.len() <= usize::MAX,
            count + fuel == acts@.len(),
            run_length_spec(acts@, start, acts@.len() as nat) == count + (if done {
                0int
            } else {
                run_length_spec(acts@, d, fuel as nat) as int
            }),
        decreases fuel + (if done {
            0int
        } else {
            1int
        }),
    {
        if has_active_date(acts, &d) {
            count = count + 1;
            d = d.prev_day();
            fuel = fuel - 1;
        } else {
            proof {
                assert(run_length_spec(acts@, d, fuel as nat) == 0);
            }
            done = true;
        }
    }
    let total = anchor.saturating_add(count);
    if total > 0xffff_ffff {
        0xffff_ffff
    } else {
        total as u32
    }
}

/// The first entry holding the largest count: every entry is at most it,
/// every earlier entry is strictly below it.
pub open spec fn is_first_max(counts: Seq<(String, u32)>, k: int) -> bool {
    0 <= k < counts.len() && (forall|j: int|
        0 <= j < counts.len() ==> (#[trigger] counts[j]).1 <= counts[k].1) && (forall|j: int|
        0 <= j < k ==> (#[trigger] counts[j]).1 < counts[k].1)
}

/// The most active hour of day: the hour key of the first entry holding
/// the largest count, `None` when the table is absent, empty, or that key
/// is not a number.
pub fn find_peak_hour(hour_counts: &Option<Vec<(String, u32)>>) -> (r: Option<u32>)
    ensures
        match hour_counts {
            None => r is None,
            Some(counts) => if counts@.len() == 0 {
                r is None
            } else {
                exists|k: int|
                    #[trigger] is_first_max(counts@, k) && r == parse_u32_spec(counts@[k].0@)
            },
        },
{
    let counts = match hour_counts {
        Some(c) => c,
        None => {
            return None;
        },
    };
    let n = counts.len();
    if n == 0 {
        return None;
    }
    let mut best: usize = 0;
    for i in 1..n
        invariant
            n == counts@.len(),
            0 <= best < i <= n,
            forall|j: int| 0 <= j < i ==> (#[trigger] counts@[j]).1 <= counts@[best as int].1,
            forall|j: int| 0 <= j < best ==> (#[trigger] counts@[j]).1 < counts@[best as int].1,
    {
        if counts[i].1 > counts[best].1 {
            best = i;
        }
    }
    proof {
        assert(is_first_max(counts@, best as int));
    }
    crate::numbers::parse_u32(counts[best].0.as_str())
}

/// The plain-value view of a chart point.
pub open spec fn activity_point_view(p: DailyActivityPoint) -> (Seq<char>, u64) {
    (p.date@, p.value)
}

/// The chart points of the day records inside the window, in order: the
/// date string and either the message count or the session count.
pub open spec fn activity_points_views(
    acts: Seq<DailyActivity>,
    start: Date,
    end: Date,
    sessions: bool,
) -> Seq<(Seq<char>, u64)>
    decreases acts.len(),
{
    if acts.len() == 0 {
        Seq::<(Seq<char>, u64)>::empty()
    } else {
        let rest = activity_points_views(acts.drop_last(), start, end, sessions);
        if activity_in_range(acts.last(), start, end) {
            rest.push(
                (
                    acts.last().date@,
                    if sessions {
                        acts.last().session_count as u64
                    } else {
                        acts.last().message_count as u64
                    },
                ),
            )
        } else {
            rest
        }
    }
}

/// Collects the chart points of the day records inside the window, as
/// `activity_points_views` describes.
fn activity_points(acts: &Vec<DailyActivity>, start: Date, end: Date, sessions: bool) -> (r: Vec<
    DailyActivityPoint,
>)
    ensures
        r@.map_values(|p: DailyActivityPoint| activity_point_view(p)) == activity_points_views(
            acts@,
            start,
            end,
            sessions,
        ),
{
    let mut out: Vec<DailyActivityPoint> = Vec::new();
    let n = acts.len();
    proof {
        assert(out@.map_values(|p: DailyActivityPoint| activity_point_view(p))
            =~= activity_points_views(acts@.take(0), start, end, sessions));
    }
    for i in 0..n
        invariant
            n == acts@.len(),
            out@.map_values(|p: DailyActivityPoint| activity_point_view(p))
                == activity_points_views(acts@.take(i as int), start, end, sessions),
    {
        proof {
            assert(acts@.take(i + 1).drop_last() =~= acts@.take(i as int));
            assert(acts@.take(i + 1).last() == acts@[i as int]);
        }
        let in_range = match Date::parse(acts[i].date.as_str()) {
            Some(d) => start.on_or_before(&d) && d.on_or_before(&end),
            None => false,
        };
        if in_range {
            let value: u64 = if sessions {
                acts[i].session_count as u64
            } else {
                acts[i].message_count as u64
            };
            let p = DailyActivityPoint { date: acts[i].date.clone(), value };
            let ghost before = out@;
            out.push(p);
            proof {
                assert(out@.map_values(|q: DailyActivityPoint| activity_point_view(q)) =~= before
                    .map_values(|q: DailyActivityPoint| activity_point_view(q)).push(
                    activity_point_view(p),
                ));
            }
        }
    }
    proof {
        assert(acts@.take(n as int) =~= acts@);
    }
    out
}

/// The minutes of the longest session: its millisecond duration divided
/// down, read as the original record keeps it.
pub open spec fn longest_session_minutes_spec(ls: Option<LongestSession>) -> Option<u32> {
    match ls {
        Some(s) => Some((((s.duration / 60000) % 0x1_0000_0000) as u32)),
        None => None,
    }
}

/// Assembles the insights view for a named period from the decoded stats
/// cache and the current date: the four comparisons against the preceding
/// window, the two chart series over the current window, and the
/// peak-activity facts.
pub fn compute_insights(
    cache: &StatsCache,
    today: Date,
    days_from_monday: u8,
    period: &str,
    pricing_provider: &str,
) -> (r: InsightsData)
    requires
        today.valid(),
        days_from_monday < 7,
    ensures
        ({
            let windows = period_dates_spec(period@, today, days_from_monday);
            let curr_tokens = sat64(
                sum_tokens_opt_spec(cache.daily_model_tokens, windows.0, windows.1),
            );
            let prev_tokens = sat64(
                sum_tokens_opt_spec(cache.daily_model_tokens, windows.2, windows.3),
            );
            r.period@ == period@ && r.comparison.messages == MetricComparison {
                current: sat32(sum_messages_spec(cache.daily_activity@, windows.0, windows.1))
                    as u64,
                previous: sat32(sum_messages_spec(cache.daily_activity@, windows.2, windows.3))
                    as u64,
                percent_change: percent_change_spec(
                    sat32(sum_messages_spec(cache.daily_activity@, windows.0, windows.1)) as u64,
                    sat32(sum_messages_spec(cache.daily_activity@, windows.2, windows.3)) as u64,
                ),
            } && r.comparison.sessions == MetricComparison {
                current: sat32(sum_sessions_spec(cache.daily_activity@, windows.0, windows.1))
                    as u64,
                previous: sat32(sum_sessions_spec(cache.daily_activity@, windows.2, windows.3))
                    as u64,
                percent_change: percent_change_spec(
                    sat32(sum_sessions_spec(cache.daily_activity@, windows.0, windows.1)) as u64,
                    sat32(sum_sessions_spec(cache.daily_activity@, windows.2, windows.3)) as u64,
                ),
            } && r.comparison.tokens == MetricComparison {
                current: curr_tokens,
                previous: prev_tokens,
                percent_change: percent_change_spec(curr_tokens, prev_tokens),
            } && r.comparison.estimated_cost == MetricComparison {
                current: calculate_cost_spec(curr_tokens, pricing_provider@),
                previous: calculate_cost_spec(prev_tokens, pricing_provider@),
                percent_change: percent_change_spec(
                    calculate_cost_spec(curr_tokens, pricing_provider@),
                    calculate_cost_spec(prev_tokens, pricing_provider@),
                ),
            } && r.daily_activity@.map_values(|p: DailyActivityPoint| activity_point_view(p))
                == activity_points_views(cache.daily_activity@, windows.0, windows.1, false)
                && r.sessions_per_day@.map_values(|p: DailyActivityPoint| activity_point_view(p))
                == activity_points_views(cache.daily_activity@, windows.0, windows.1, true)
                && r.peak_activity.current_streak == sat32(
                streak_spec(cache.daily_activity@, today),
            ) && r.peak_activity.longest_session_minutes == longest_session_minutes_spec(
                cache.longest_session,
            ) && (match (r.peak_activity.member_since, cache.first_session_date) {
                (Some(a), Some(b)) => a@ == b@,
                (None, None) => true,
                _ => false,
            }) && (match cache.hour_counts {
                None => r.peak_activity.most_active_hour is None,
                Some(counts) => if counts@.len() == 0 {
                    r.peak_activity.most_active_hour is None
                } else {
                    exists|k: int|
                        #[trigger] is_first_max(counts@, k)
                            && r.peak_activity.most_active_hour == parse_u32_spec(counts@[k].0@)
                },
            })
        }),
{
    let (curr_start, curr_end, prev_start, prev_end) = get_period_dates(
        period,
        today,
        days_from_monday,
    );
    let (curr_msgs, curr_sess) = sum_activity_in_range(&cache.daily_activity, curr_start, curr_end);
    let (prev_msgs, prev_sess) = sum_activity_in_range(&cache.daily_activity, prev_start, prev_end);
    let curr_tokens = sum_tokens_in_range(&cache.daily_model_tokens, curr_start, curr_end);
    let prev_tokens = sum_tokens_in_range(&cache.daily_model_tokens, prev_start, prev_end);
    let curr_cost = calculate_cost(curr_tokens, pricing_provider);
    let prev_cost = calculate_cost(prev_tokens, pricing_provider);
    let comparison = PeriodComparison {
        messages: MetricComparison::new(curr_msgs as u64, prev_msgs as u64),
        sessions: MetricComparison::new(curr_sess as u64, prev_sess as u64),
        tokens: MetricComparison::new(curr_tokens, prev_tokens),
        estimated_cost: MetricComparison::new(curr_cost, prev_cost),
    };
    let streak = compute_streak(&cache.daily_activity, today);
    let longest_session_minutes = match &cache.longest_session {
        Some(s) => Some(((s.duration / 60000) % 0x1_0000_0000) as u32),
        None => None,
    };
    let member_since = match &cache.first_session_date {
        Some(d) => Some(d.clone()),
        None => None,
    };
    let peak_activity = PeakActivity {
        most_active_hour: find_peak_hour(&cache.hour_counts),
        longest_session_minutes,
        current_streak: streak,
        member_since,
    };
    let daily_activity = activity_points(&cache.daily_activity, curr_start, curr_end, false);
    let sessions_per_day = activity_points(&cache.daily_activity, curr_start, curr_end, true);
    InsightsData {
        period: String::from_str(period),
        comparison,
        daily_activity,
        sessions_per_day,
        peak_activity,
    }
}

/// The key views of a key-value pair list.
pub open spec fn key_views(vpairs: Seq<(Seq<char>, u64)>) -> Seq<Seq<char>> {
    vpairs.map_values(|p: (Seq<char>, u64)| p.0)
}

/// The distinct keys of a list, each at its first occurrence.
pub open spec fn dedup_first(keys: Seq<Seq<char>>) -> Seq<Seq<char>>
    decreases keys.len(),
{
    if keys.len() == 0 {
        Seq::<Seq<char>>::empty()
    } else {
        let d = dedup_first(keys.drop_last());
        if d.contains(keys.last()) {
            d
        } else {
            d.push(keys.last())
        }
    }
}

/// Total of the values carried by one key.
pub open spec fn key_total(vpairs: Seq<(Seq<char>, u64)>, key: Seq<char>) -> int
    decreases vpairs.len(),
{
    if vpairs.len() == 0 {
        0
    } else {
        key_total(vpairs.drop_last(), key) + (if vpairs.last().0 == key {
            vpairs.last().1 as int
        } else {
            0
        })
    }
}

pub(crate) proof fn lemma_dedup_contains(keys: Seq<Seq<char>>, k: Seq<char>)
    ensures
        dedup_first(keys).contains(k) <==> keys.contains(k),
    decreases keys.len(),
{
    if keys.len() > 0 {
        lemma_dedup_contains(keys.drop_last(), k);
        let d = dedup_first(keys.drop_last());
        let x = keys.last();
        if keys.contains(k) {
            let i = choose|i: int| 0 <= i < keys.len() && keys[i] == k;
            if i < keys.len() - 1 {
                assert(keys.drop_last()[i] == k);
                assert(keys.drop_last().contains(k));
                if !d.contains(x) {
                    let di = choose|di: int| 0 <= di < d.len() && d[di] == k;
                    assert(dedup_first(keys)[di] == k);
                }
            } else {
                if !d.contains(x) {
                    assert(dedup_first(keys)[d.len() as int] == k);
                }
            }
            assert(dedup_first(keys).contains(k));
        }
        if dedup_first(keys).contains(k) {
            let di = choose|di: int|
                0 <= di < dedup_first(keys).len() && dedup_first(keys)[di] == k;
            if di < d.len() {
                assert(d[di] == k);
                assert(d.contains(k));
                assert(keys.drop_last().contains(k));
                let i = choose|i: int|
                    0 <= i < keys.drop_last().len() && keys.drop_last()[i] == k;
                assert(keys[i] == k);
            } else {
                assert(k == x);
                assert(keys[keys.len() - 1] == k);
            }
            assert(keys.contains(k));
        }
    }
}

pub(crate) proof fn lemma_dedup_no_dup(keys: Seq<Seq<char>>)
    ensures
        forall|i: int, j: int|
            0 <= i < j < dedup_first(keys).len() ==> dedup_first(keys)[i] != dedup_first(keys)[j],
    decreases keys.len(),
{
    if keys.len() > 0 {
        lemma_dedup_no_dup(keys.drop_last());
        let d = dedup_first(keys.drop_last());
        let x = keys.last();
        if !d.contains(x) {
            assert forall|i: int, j: int|
                0 <= i < j < dedup_first(keys).len() implies dedup_first(keys)[i] != dedup_first(
                keys,
            )[j] by {
                if j == d.len() {
                    assert(dedup_first(keys)[j] == x);
                    assert(dedup_first(keys)[i] == d[i]);
                    if d[i] == x {
                        assert(d.contains(x));
                    }
                }
            }
        }
    }
}

pub(crate) proof fn lemma_key_total_nonneg(vpairs: Seq<(Seq<char>, u64)>, key: Seq<char>)
    ensures
        key_total(vpairs, key) >= 0,
    decreases vpairs.len(),
{
    if vpairs.len() > 0 {
        lemma_key_total_nonneg(vpairs.drop_last(), key);
    }
}

pub(crate) proof fn lemma_key_total_absent(vpairs: Seq<(Seq<char>, u64)>, key: Seq<char>)
    requires
        !key_views(vpairs).contains(key),
    ensures
        key_total(vpairs, key) == 0,
    decreases vpairs.len(),
{
    if vpairs.len() > 0 {
        assert(key_views(vpairs)[vpairs.len() - 1] == vpairs.last().0);
        assert(vpairs.last().0 != key);
        assert forall|i: int|
            0 <= i < key_views(vpairs.drop_last()).len() implies key_views(vpairs.drop_last())[i]
            != key by {
            assert(key_views(vpairs.drop_last())[i] == vpairs.drop_last()[i].0);
            assert(key_views(vpairs)[i] == vpairs[i].0);
        }
        lemma_key_total_absent(vpairs.drop_last(), key);
    }
}

/// Total tokens attributed to one model in the local stats view.
#[derive(Clone, Debug)]
pub struct ModelTokens {
    pub model: String,
    pub tokens: u64,
}

/// The plain-value view of a local per-model total.
pub open spec fn local_model_tokens_view(mt: ModelTokens) -> (Seq<char>, u64) {
    (mt.model@, mt.tokens)
}

/// The model names of a per-model total list.
pub open spec fn models_of(out: Seq<ModelTokens>) -> Seq<Seq<char>> {
    out.map_values(|mt: ModelTokens| mt.model@)
}

/// The fold invariant: the output holds exactly the distinct keys of the
/// processed pairs, in first-occurrence order, each with the saturating
/// total of its values.
pub open spec fn model_totals_ok(out: Seq<ModelTokens>, vpairs: Seq<(Seq<char>, u64)>) -> bool {
    models_of(out) == dedup_first(key_views(vpairs)) && forall|j: int|
        0 <= j < out.len() ==> (#[trigger] out[j]).tokens == sat64(
            key_total(vpairs, out[j].model@),
        )
}

/// Folds one key-value pair into the running per-model totals.
fn fold_pair_into(
    out: &mut Vec<ModelTokens>,
    key: &String,
    v: u64,
    Ghost(prefix): Ghost<Seq<(Seq<char>, u64)>>,
)
    requires
        model_totals_ok(old(out)@, prefix),
    ensures
        model_totals_ok(final(out)@, prefix.push((key@, v))),
{
    let ghost newpairs = prefix.push((key@, v));
    let n = out.len();
    for j in 0..n
        invariant
            n == out@.len(),
            model_totals_ok(out@, prefix),
            newpairs == prefix.push((key@, v)),
            forall|jj: int| 0 <= jj < j ==> (#[trigger] out@[jj]).model@ != key@,
    {
        if str_eq(out[j].model.as_str(), key.as_str()) {
            let t = out[j].tokens;
            let ghost old_out = out@;
            out[j].tokens = t.saturating_add(v);
            proof {
                assert(newpairs.drop_last() =~= prefix);
                assert(key_views(newpairs) =~= key_views(prefix).push(key@));
                assert(key_views(newpairs).drop_last() =~= key_views(prefix));
                lemma_dedup_no_dup(key_views(prefix));
                assert(models_of(out@) =~= models_of(old_out));
                assert(models_of(old_out)[j as int] == key@);
                assert(dedup_first(key_views(prefix)).contains(key@));
                assert(dedup_first(key_views(newpairs)) == dedup_first(key_views(prefix)));
                assert forall|jj: int| 0 <= jj < out@.len() implies (#[trigger] out@[jj]).tokens
                    == sat64(key_total(newpairs, out@[jj].model@)) by {
                    lemma_key_total_nonneg(prefix, out@[jj].model@);
                    if jj == j {
                        assert(key_total(newpairs, key@) == key_total(prefix, key@) + v);
                    } else {
                        assert(models_of(old_out)[jj] == out@[jj].model@);
                        assert(out@[jj].model@ != key@) by {
                            assert(dedup_first(key_views(prefix))[jj] == out@[jj].model@);
                            assert(dedup_first(key_views(prefix))[j as int] == key@);
                        }
                        assert(key_total(newpairs, out@[jj].model@) == key_total(
                            prefix,
                            out@[jj].model@,
                        ));
                    }
                }
            }
            return;
        }
    }
    let mt = ModelTokens { model: key.clone(), tokens: v };
    let ghost old_out = out@;
    out.push(mt);
    proof {
        assert(newpairs.drop_last() =~= prefix);
        assert(key_views(newpairs) =~= key_views(prefix).push(key@));
        assert(key_views(newpairs).drop_last() =~= key_views(prefix));
        assert forall|i: int| 0 <= i < dedup_first(key_views(prefix)).len() implies dedup_first(
            key_views(prefix),
        )[i] != key@ by {
            assert(models_of(old_out)[i] == old_out[i].model@);
        }
        assert(!dedup_first(key_views(prefix)).contains(key@));
        lemma_dedup_contains(key_views(prefix), key@);
        lemma_key_total_absent(prefix, key@);
        assert(dedup_first(key_views(newpairs)) == dedup_first(key_views(prefix)).push(key@));
        assert(models_of(out@) =~= models_of(old_out).push(key@));
        assert forall|jj: int| 0 <= jj < out@.len() implies (#[trigger] out@[jj]).tokens == sat64(
            key_total(newpairs, out@[jj].model@),
        ) by {
            lemma_key_total_nonneg(prefix, out@[jj].model@);
            if jj == out@.len() - 1 {
                assert(out@[jj].model@ == key@);
                assert(key_total(newpairs, key@) == key_total(prefix, key@) + v);
            } else {
                assert(models_of(old_out)[jj] == out@[jj].model@);
                assert(out@[jj].model@ != key@) by {
                    assert(dedup_first(key_views(prefix))[jj] == out@[jj].model@);
                }
                assert(key_total(newpairs, out@[jj].model@) == key_total(
                    prefix,
                    out@[jj].model@,
                ));
            }
        }
    }
}

/// The plain-value view of one model-token pair.
pub open spec fn pair_view(p: (String, u64)) -> (Seq<char>, u64) {
    (p.0@, p.1)
}

/// The pair views of all days' token records, in day order then pair
/// order.
pub open spec fn all_pairs_views(days: Seq<DailyModelTokens>) -> Seq<(Seq<char>, u64)>
    decreases days.len(),
{
    if days.len() == 0 {
        Seq::<(Seq<char>, u64)>::empty()
    } else {
        all_pairs_views(days.drop_last()) + days.last().tokens_by_model@.map_values(
            |p: (String, u64)| pair_view(p),
        )
    }
}

/// Folds every day's per-model tokens into one total per model, in
/// first-occurrence order, as `model_totals_ok` describes.
pub fn fold_model_tokens(days: &Vec<DailyModelTokens>) -> (r: Vec<ModelTokens>)
    ensures
        model_totals_ok(r@, all_pairs_views(days@)),
{
    let mut out: Vec<ModelTokens> = Vec::new();
    let nd = days.len();
    proof {
        assert(models_of(out@) =~= dedup_first(key_views(all_pairs_views(days@.take(0)))));
    }
    for di in 0..nd
        invariant
            nd == days@.len(),
            model_totals_ok(out@, all_pairs_views(days@.take(di as int))),
    {
        let pairs = &days[di].tokens_by_model;
        let np = pairs.len();
        let ghost day_prefix = all_pairs_views(days@.take(di as int));
        proof {
            assert(pairs@.take(0).map_values(|p: (String, u64)| pair_view(p)) =~= Seq::<
                (Seq<char>, u64),
            >::empty());
            assert(day_prefix + pairs@.take(0).map_values(|p: (String, u64)| pair_view(p))
                =~= day_prefix);
        }
        for pi in 0..np
            invariant
                nd == days@.len(),
                di < nd,
                np == pairs@.len(),
                pairs == &days@[di as int].tokens_by_model,
                day_prefix == all_pairs_views(days@.take(di as int)),
                model_totals_ok(
                    out@,
                    day_prefix + pairs@.take(pi as int).map_values(
                        |p: (String, u64)| pair_view(p),
                    ),
                ),
        {
            let ghost cur = day_prefix + pairs@.take(pi as int).map_values(
                |p: (String, u64)| pair_view(p),
            );
            proof {
                assert(pairs@.take(pi + 1).map_values(|p: (String, u64)| pair_view(p))
                    =~= pairs@.take(pi as int).map_values(|p: (String, u64)| pair_view(p)).push(
                    pair_view(pairs@[pi as int]),
                ));
                assert(day_prefix + pairs@.take(pi + 1).map_values(
                    |p: (String, u64)| pair_view(p),
                ) =~= cur.push((pairs@[pi as int].0@, pairs@[pi as int].1)));
            }
            fold_pair_into(&mut out, &pairs[pi].0, pairs[pi].1, Ghost(cur));
        }
        proof {
            assert(days@.take(di + 1).drop_last() =~= days@.take(di as int));
            assert(days@.take(di + 1).last() == days@[di as int]);
            assert(day_prefix + pairs@.take(np as int).map_values(
                |p: (String, u64)| pair_view(p),
            ) =~= all_pairs_views(days@.take(di + 1)));
            assert(pairs@.take(np as int) =~= pairs@);
        }
    }
    proof {
        assert(days@.take(nd as int) =~= days@);
    }
    out
}

/// Descending order by token total.
pub open spec fn tokens_desc(a: ModelTokens, b: ModelTokens) -> bool {
    a.tokens >= b.tokens
}

/// Sorts per-model totals by tokens, largest first, keeping exactly the
/// same entries.
pub fn sort_model_tokens_desc(v: Vec<ModelTokens>) -> (r: Vec<ModelTokens>)
    ensures
        vstd::relations::sorted_by(r@, |a: ModelTokens, b: ModelTokens| tokens_desc(a, b)),
        r@.to_multiset() == v@.to_multiset(),
{
    let mut rest = v;
    let mut out: Vec<ModelTokens> = Vec::new();
    let ghost orig = rest@;
    while rest.len() > 0
        invariant
            vstd::relations::sorted_by(
                out@,
                |a: ModelTokens, b: ModelTokens| tokens_desc(a, b),
            ),
            out@.to_multiset().add(rest@.to_multiset()) == orig.to_multiset(),
        decreases rest.len(),
    {
        let ghost rest_pre = rest@;
        let item = rest.remove(0);
        proof {
            assert(rest_pre.remove(0).to_multiset() =~= rest_pre.to_multiset().remove(
                rest_pre[0],
            ));
            assert(rest@.to_multiset() =~= rest_pre.to_multiset().remove(item));
            assert(rest_pre.to_multiset().count(item) > 0) by {
                assert(rest_pre.contains(item));
            }
            assert(out@.to_multiset().insert(item).add(rest@.to_multiset()) =~= orig.to_multiset());
        }
        let mut pos: usize = 0;
        while pos < out.len() && out[pos].tokens >= item.tokens
            invariant
                pos <= out@.len(),
                forall|k: int| 0 <= k < pos ==> (#[trigger] out@[k]).tokens >= item.tokens,
                vstd::relations::sorted_by(
                    out@,
                    |a: ModelTokens, b: ModelTokens| tokens_desc(a, b),
                ),
                out@.to_multiset().insert(item).add(rest@.to_multiset()) == orig.to_multiset(),
            decreases out@.len() - pos,
        {
            pos = pos + 1;
        }
        let ghost out_before = out@;
        out.insert(pos, item);
        proof {
            assert(out@ =~= out_before.take(pos as int).push(item) + out_before.skip(
                pos as int,
            ));
            assert forall|i: int, j: int|
                0 <= i < j < out@.len() implies (|a: ModelTokens, b: ModelTokens|
                tokens_desc(a, b))(out@[i], out@[j]) by {
                if j < pos {
                    assert(out@[i] == out_before[i]);
                    assert(out@[j] == out_before[j]);
                } else if i < pos && j == pos {
                    assert(out@[i] == out_before[i]);
                    assert(out@[j] == item);
                } else if i < pos && j > pos {
                    assert(out@[i] == out_before[i]);
                    assert(out@[j] == out_before[j - 1]);
                } else if i == pos && j > pos {
                    assert(out@[i] == item);
                    assert(out@[j] == out_before[j - 1]);
                    assert(pos < out_before.len());
                    assert(out_before[pos as int].tokens < item.tokens);
                    if j - 1 > pos {
                        assert((|a: ModelTokens, b: ModelTokens| tokens_desc(a, b))(
                            out_before[pos as int],
                            out_before[j - 1],
                        ));
                    }
                } else {
                    assert(i > pos);
                    assert(out@[i] == out_before[i - 1]);
                    assert(out@[j] == out_before[j - 1]);
                }
            }
            assert(out@.to_multiset() =~= out_before.to_multiset().insert(item)) by {
                let left = out_before.take(pos as int);
                let right = out_before.skip(pos as int);
                assert(out_before =~= left + right);
                vstd::seq_lib::lemma_multiset_commutative(left, right);
                vstd::seq_lib::lemma_multiset_commutative(left.push(item), right);
                assert(out@ =~= left.push(item) + right);
                assert(left.push(item).to_multiset() =~= left.to_multiset().insert(item));
            }
            assert(out@.to_multiset().add(rest@.to_multiset()) =~= orig.to_multiset());
        }
    }
    out
}



/// One row of the hour-of-day activity table.
#[derive(Clone, Copy, Debug, PartialEq, Eq, Structural)]
pub struct HourActivity {
    pub hour: u32,
    pub count: u32,
}

/// The plain-value view of an hour-table row.
pub open spec fn hour_view(h: HourActivity) -> (u32, u32) {
    (h.hour, h.count)
}

/// What one hour-count entry contributes: its hour key as a number, or
/// nothing when the key is not one.
pub open spec fn hour_entry_view(p: (String, u32)) -> Option<(u32, u32)> {
    match parse_u32_spec(p.0@) {
        Some(h) => Some((h, p.1)),
        None => None,
    }
}

/// The hour rows of an hour-count table, in entry order, entries with
/// non-numeric keys dropped.
pub open spec fn hour_views(counts: Seq<(String, u32)>) -> Seq<(u32, u32)>
    decreases counts.len(),
{
    if counts.len() == 0 {
        Seq::<(u32, u32)>::empty()
    } else {
        let rest = hour_views(counts.drop_last());
        match hour_entry_view(counts.last()) {
            Some(e) => rest.push(e),
            None => rest,
        }
    }
}

/// Turns an hour-count table into hour rows, as `hour_views` describes.
fn hour_table(counts: &Vec<(String, u32)>) -> (r: Vec<HourActivity>)
    ensures
        r@.map_values(|h: HourActivity| hour_view(h)) == hour_views(counts@),
{
    let mut out: Vec<HourActivity> = Vec::new();
    let n = counts.len();
    proof {
        assert(out@.map_values(|h: HourActivity| hour_view(h)) =~= hour_views(counts@.take(0)));
    }
    for i in 0..n
        invariant
            n == counts@.len(),
            out@.map_values(|h: HourActivity| hour_view(h)) == hour_views(counts@.take(i as int)),
    {
        proof {
            assert(counts@.take(i + 1).drop_last() =~= counts@.take(i as int));
            assert(counts@.take(i + 1).last() == counts@[i as int]);
        }
        match crate::numbers::parse_u32(counts[i].0.as_str()) {
            Some(h) => {
                let row = HourActivity { hour: h, count: counts[i].1 };
                let ghost before = out@;
                out.push(row);
                proof {
                    assert(out@.map_values(|q: HourActivity| hour_view(q)) =~= before.map_values(
                        |q: HourActivity| hour_view(q),
                    ).push(hour_view(row)));
                }
            },
            None => {},
        }
    }
    proof {
        assert(counts@.take(n as int) =~= counts@);
    }
    out
}

/// Ascending order by hour.
pub open spec fn hour_asc(a: HourActivity, b: HourActivity) -> bool {
    a.hour <= b.hour
}

/// Sorts hour rows by hour, earliest first, keeping exactly the same rows.
pub fn sort_hours_asc(v: Vec<HourActivity>) -> (r: Vec<HourActivity>)
    ensures
        vstd::relations::sorted_by(r@, |a: HourActivity, b: HourActivity| hour_asc(a, b)),
        r@.to_multiset() == v@.to_multiset(),
{
    let mut rest = v;
    let mut out: Vec<HourActivity> = Vec::new();
    let ghost orig = rest@;
    while rest.len() > 0
        invariant
            vstd::relations::sorted_by(out@, |a: HourActivity, b: HourActivity| hour_asc(a, b)),
            out@.to_multiset().add(rest@.to_multiset()) == orig.to_multiset(),
        decreases rest.len(),
    {
        let ghost rest_pre = rest@;
        let item = rest.remove(0);
        proof {
            assert(rest_pre.remove(0).to_multiset() =~= rest_pre.to_multiset().remove(
                rest_pre[0],
            ));
            assert(rest@.to_multiset() =~= rest_pre.to_multiset().remove(item));
            assert(rest_pre.to_multiset().count(item) > 0) by {
                assert(rest_pre.contains(item));
            }
            assert(out@.to_multiset().insert(item).add(rest@.to_multiset()) =~= orig.to_multiset());
        }
        let mut pos: usize = 0;
        while pos < out.len() && out[pos].hour <= item.hour
            invariant
                pos <= out@.len(),
                forall|k: int| 0 <= k < pos ==> (#[trigger] out@[k]).hour <= item.hour,
                vstd::relations::sorted_by(
                    out@,
                    |a: HourActivity, b: HourActivity| hour_asc(a, b),
                ),
                out@.to_multiset().insert(item).add(rest@.to_multiset()) == orig.to_multiset(),
            decreases out@.len() - pos,
        {
            pos = pos + 1;
        }
        let ghost out_before = out@;
        out.insert(pos, item);
        proof {
            assert(out@ =~= out_before.take(pos as int).push(item) + out_before.skip(
                pos as int,
            ));
            assert forall|i: int, j: int|
                0 <= i < j < out@.len() implies (|a: HourActivity, b: HourActivity|
                hour_asc(a, b))(out@[i], out@[j]) by {
                if j < pos {
                    assert(out@[i] == out_before[i]);
                    assert(out@[j] == out_before[j]);
                } else if i < pos && j == pos {
                    assert(out@[i] == out_before[i]);
                    assert(out@[j] == item);
                } else if i < pos && j > pos {
                    assert(out@[i] == out_before[i]);
                    assert(out@[j] == out_before[j - 1]);
                } else if i == pos && j > pos {
                    assert(out@[i] == item);
                    assert(out@[j] == out_before[j - 1]);
                    assert(pos < out_before.len());
                    assert(out_before[pos as int].hour > item.hour);
                    if j - 1 > pos {
                        assert((|a: HourActivity, b: HourActivity| hour_asc(a, b))(
                            out_before[pos as int],
                            out_before[j - 1],
                        ));
                    }
                } else {
                    assert(i > pos);
                    assert(out@[i] == out_before[i - 1]);
                    assert(out@[j] == out_before[j - 1]);
                }
            }
            assert(out@.to_multiset() =~= out_before.to_multiset().insert(item)) by {
                let left = out_before.take(pos as int);
                let right = out_before.skip(pos as int);
                assert(out_before =~= left + right);
                vstd::seq_lib::lemma_multiset_commutative(left, right);
                vstd::seq_lib::lemma_multiset_commutative(left.push(item), right);
                assert(out@ =~= left.push(item) + right);
                assert(left.push(item).to_multiset() =~= left.to_multiset().insert(item));
            }
            assert(out@.to_multiset().add(rest@.to_multiset()) =~= orig.to_multiset());
        }
    }
    out
}

/// Total tokens over all models on all recorded days.
pub open spec fn sum_all_tokens_spec(days: Seq<DailyModelTokens>) -> int
    decreases days.len(),
{
    if days.len() == 0 {
        0
    } else {
        sum_all_tokens_spec(days.drop_last()) + pair_values_total(days.last().tokens_by_model@)
    }
}

/// Total tokens over all models and days of an optional record list.
pub open spec fn sum_all_tokens_opt_spec(days: Option<Vec<DailyModelTokens>>) -> int {
    match days {
        Some(d) => sum_all_tokens_spec(d@),
        None => 0,
    }
}

proof fn lemma_sum_all_tokens_nonneg(days: Seq<DailyModelTokens>)
    ensures
        sum_all_tokens_spec(days) >= 0,
    decreases days.len(),
{
    if days.len() > 0 {
        lemma_sum_all_tokens_nonneg(days.drop_last());
        lemma_pair_values_total_nonneg(days.last().tokens_by_model@);
    }
}

/// Total messages over all recorded days.
pub open spec fn sum_all_messages_spec(acts: Seq<DailyActivity>) -> int
    decreases acts.len(),
{
    if acts.len() == 0 {
        0
    } else {
        sum_all_messages_spec(acts.drop_last()) + acts.last().message_count
    }
}

proof fn lemma_sum_all_messages_nonneg(acts: Seq<DailyActivity>)
    ensures
        sum_all_messages_spec(acts) >= 0,
    decreases acts.len(),
{
    if acts.len() > 0 {
        lemma_sum_all_messages_nonneg(acts.drop_last());
    }
}

/// The number of recorded days with at least one message.
pub open spec fn count_active_days_spec(acts: Seq<DailyActivity>) -> int
    decreases acts.len(),
{
    if acts.len() == 0 {
        0
    } else {
        count_active_days_spec(acts.drop_last()) + (if acts.last().message_count > 0 {
            1int
        } else {
            0int
        })
    }
}

proof fn lemma_count_active_days_nonneg(acts: Seq<DailyActivity>)
    ensures
        count_active_days_spec(acts) >= 0,
    decreases acts.len(),
{
    if acts.len() > 0 {
        lemma_count_active_days_nonneg(acts.drop_last());
    }
}

/// One chart point per recorded day, in order, dates unchecked.
pub open spec fn all_points_views(acts: Seq<DailyActivity>) -> Seq<(Seq<char>, u64)> {
    acts.map_values(|a: DailyActivity| (a.date@, a.message_count as u64))
}

/// The distinct keys of the processed pairs with their saturating totals,
/// in first-occurrence order: what the per-model fold yields.
pub open spec fn model_totals_views(vpairs: Seq<(Seq<char>, u64)>) -> Seq<(Seq<char>, u64)> {
    dedup_first(key_views(vpairs)).map_values(|k: Seq<char>| (k, sat64(key_total(vpairs, k))))
}

/// The pair views of an optional day list.
pub open spec fn all_pairs_views_opt(days: Option<Vec<DailyModelTokens>>) -> Seq<(Seq<char>, u64)> {
    match days {
        Some(d) => all_pairs_views(d@),
        None => Seq::<(Seq<char>, u64)>::empty(),
    }
}

/// The hour rows of an optional hour-count table.
pub open spec fn hour_views_opt(counts: Option<Vec<(String, u32)>>) -> Seq<(u32, u32)> {
    match counts {
        Some(c) => hour_views(c@),
        None => Seq::<(u32, u32)>::empty(),
    }
}

/// The whole-history view of the local stats cache: totals, averages, the
/// estimated cost, and three derived tables. Counts saturate at their
/// type's top; the average and the cost are micro-units.
#[derive(Clone, Debug)]
pub struct LocalStatsCacheData {
    pub total_tokens: u64,
    pub total_sessions: u32,
    pub total_messages: u32,
    pub active_days: u32,
    pub avg_messages_per_day_micro: u64,
    pub estimated_cost_micro_usd: u64,
    pub peak_hour: Option<u32>,
    pub first_session: Option<String>,
    pub daily_activity: Vec<DailyActivityPoint>,
    pub tokens_by_model: Vec<ModelTokens>,
    pub activity_by_hour: Vec<HourActivity>,
}

/// Assembles the whole-history view of the stats cache: token, message and
/// active-day totals with saturating sums, the average messages per active
/// day, the estimated cost, the peak hour, one chart point per recorded
/// day, the per-model totals sorted largest first, and the hour table
/// sorted by hour.
pub fn get_local_stats_cache(cache: &StatsCache, pricing_provider: &str) -> (r:
    LocalStatsCacheData)
    ensures
        r.total_tokens == sat64(sum_all_tokens_opt_spec(cache.daily_model_tokens)),
        r.total_sessions == cache.total_sessions,
        r.total_messages == sat32(sum_all_messages_spec(cache.daily_activity@)),
        r.active_days == sat32(count_active_days_spec(cache.daily_activity@)),
        r.avg_messages_per_day_micro == (if r.active_days == 0 {
            0int
        } else {
            (r.total_messages * 1_000_000) / (r.active_days as int)
        }),
        r.estimated_cost_micro_usd == calculate_cost_spec(r.total_tokens, pricing_provider@),
        (match cache.hour_counts {
            None => r.peak_hour is None,
            Some(counts) => if counts@.len() == 0 {
                r.peak_hour is None
            } else {
                exists|k: int|
                    #[trigger] is_first_max(counts@, k) && r.peak_hour == parse_u32_spec(
                        counts@[k].0@,
                    )
            },
        }),
        (match (r.first_session, cache.first_session_date) {
            (Some(a), Some(b)) => a@ == b@,
            (None, None) => true,
            _ => false,
        }),
        r.daily_activity@.map_values(|p: DailyActivityPoint| activity_point_view(p))
            == all_points_views(cache.daily_activity@),
        vstd::relations::sorted_by(
            r.tokens_by_model@,
            |a: ModelTokens, b: ModelTokens| tokens_desc(a, b),
        ),
        r.tokens_by_model@.map_values(|mt: ModelTokens| local_model_tokens_view(mt)).to_multiset()
            == model_totals_views(all_pairs_views_opt(cache.daily_model_tokens)).to_multiset(),
        vstd::relations::sorted_by(
            r.activity_by_hour@,
            |a: HourActivity, b: HourActivity| hour_asc(a, b),
        ),
        r.activity_by_hour@.map_values(|h: HourActivity| hour_view(h)).to_multiset()
            == hour_views_opt(cache.hour_counts).to_multiset(),
{
    let total_tokens: u64 = match &cache.daily_model_tokens {
        Some(days) => {
            let mut total: u64 = 0;
            let nd = days.len();
            for i in 0..nd
                invariant
                    nd == days@.len(),
                    total == sat64(sum_all_tokens_spec(days@.take(i as int))),
            {
                proof {
                    assert(days@.take(i + 1).drop_last() =~= days@.take(i as int));
                    assert(days@.take(i + 1).last() == days@[i as int]);
                    lemma_sum_all_tokens_nonneg(days@.take(i as int));
                    lemma_pair_values_total_nonneg(days@[i as int].tokens_by_model@);
                }
                let day_total = day_tokens_total(&days[i].tokens_by_model);
                total = total.saturating_add(day_total);
            }
            proof {
                assert(days@.take(nd as int) =~= days@);
            }
            total
        },
        None => 0,
    };
    let mut total_messages: u32 = 0;
    let mut active_days: u32 = 0;
    let acts = &cache.daily_activity;
    let na = acts.len();
    for i in 0..na
        invariant
            na == acts@.len(),
            acts == &cache.daily_activity,
            total_messages == sat32(sum_all_messages_spec(acts@.take(i as int))),
            active_days == sat32(count_active_days_spec(acts@.take(i as int))),
    {
        proof {
            assert(acts@.take(i + 1).drop_last() =~= acts@.take(i as int));
            assert(acts@.take(i + 1).last() == acts@[i as int]);
            lemma_sum_all_messages_nonneg(acts@.take(i as int));
            lemma_count_active_days_nonneg(acts@.take(i as int));
        }
        total_messages = total_messages.saturating_add(acts[i].message_count);
        if acts[i].message_count > 0 {
            active_days = active_days.saturating_add(1);
        }
    }
    proof {
        assert(acts@.take(na as int) =~= acts@);
    }
    let avg_messages_per_day_micro: u64 = if active_days > 0 {
        (total_messages as u64) * 1_000_000 / (active_days as u64)
    } else {
        0
    };
    let estimated_cost_micro_usd = calculate_cost(total_tokens, pricing_provider);
    let peak_hour = find_peak_hour(&cache.hour_counts);
    let first_session = match &cache.first_session_date {
        Some(d) => Some(d.clone()),
        None => None,
    };
    let mut daily_activity: Vec<DailyActivityPoint> = Vec::new();
    proof {
        assert(daily_activity@.map_values(|p: DailyActivityPoint| activity_point_view(p))
            =~= all_points_views(acts@.take(0)));
    }
    for i in 0..na
        invariant
            na == acts@.len(),
            acts == &cache.daily_activity,
            daily_activity@.map_values(|p: DailyActivityPoint| activity_point_view(p))
                == all_points_views(acts@.take(i as int)),
    {
        let p = DailyActivityPoint {
            date: acts[i].date.clone(),
            value: acts[i].message_count as u64,
        };
        let ghost before = daily_activity@;
        daily_activity.push(p);
        proof {
            assert(acts@.take(i + 1) =~= acts@.take(i as int).push(acts@[i as int]));
            assert(daily_activity@.map_values(|q: DailyActivityPoint| activity_point_view(q))
                =~= before.map_values(|q: DailyActivityPoint| activity_point_view(q)).push(
                activity_point_view(p),
            ));
            assert(all_points_views(acts@.take(i + 1)) =~= all_points_views(
                acts@.take(i as int),
            ).push((acts@[i as int].date@, acts@[i as int].message_count as u64)));
        }
    }
    proof {
        assert(acts@.take(na as int) =~= acts@);
    }
    let tokens_by_model: Vec<ModelTokens> = match &cache.daily_model_tokens {
        Some(days) => {
            let folded = fold_model_tokens(days);
            proof {
                let vpairs = all_pairs_views(days@);
                assert(folded@.map_values(|mt: ModelTokens| local_model_tokens_view(mt))
                    =~= model_totals_views(vpairs)) by {
                    assert forall|j: int| 0 <= j < folded@.len() implies folded@.map_values(
                        |mt: ModelTokens| local_model_tokens_view(mt),
                    )[j] == model_totals_views(vpairs)[j] by {
                        assert(models_of(folded@)[j] == folded@[j].model@);
                    }
                }
            }
            let ghost folded_view = folded@;
            let sorted = sort_model_tokens_desc(folded);
            proof {
                crate::seq_util::lemma_map_values_multiset(
                    sorted@,
                    folded_view,
                    |mt: ModelTokens| local_model_tokens_view(mt),
                );
            }
            sorted
        },
        None => Vec::new(),
    };
    proof {
        if cache.daily_model_tokens is None {
            assert(tokens_by_model@.map_values(|mt: ModelTokens| local_model_tokens_view(mt))
                =~= model_totals_views(all_pairs_views_opt(cache.daily_model_tokens)));
        }
    }
    let activity_by_hour: Vec<HourActivity> = match &cache.hour_counts {
        Some(counts) => {
            let rows = hour_table(counts);
            let ghost rows_view = rows@;
            let sorted = sort_hours_asc(rows);
            proof {
                crate::seq_util::lemma_map_values_multiset(
                    sorted@,
                    rows_view,
                    |h: HourActivity| hour_view(h),
                );
            }
            sorted
        },
        None => Vec::new(),
    };
    proof {
        if cache.hour_counts is None {
            assert(activity_by_hour@.map_values(|h: HourActivity| hour_view(h)) =~= hour_views_opt(
                cache.hour_counts,
            ));
        }
    }
    LocalStatsCacheData {
        total_tokens,
        total_sessions: cache.total_sessions,
        total_messages,
        active_days,
        avg_messages_per_day_micro,
        estimated_cost_micro_usd,
        peak_hour,
        first_session,
        daily_activity,
        tokens_by_model,
        activity_by_hour,
    }
}


} // verus!
