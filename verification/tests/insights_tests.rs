use usage_dashboard::dates::Date;
use usage_dashboard::insights::{
    calculate_cost, compute_insights, compute_streak, find_peak_hour, get_local_stats_cache,
    get_period_dates, sum_activity_in_range, sum_tokens_in_range, DailyActivity,
    DailyModelTokens, MetricComparison, StatsCache,
};
use usage_dashboard::tray::{format_cost_short, tray_title};

fn day(date: &str, messages: u32, sessions: u32) -> DailyActivity {
    DailyActivity {
        date: date.to_string(),
        message_count: messages,
        session_count: sessions,
        tool_call_count: 0,
    }
}

fn d(y: i32, m: u8, dd: u8) -> Date {
    Date { year: y, month: m, day: dd }
}

fn empty_cache() -> StatsCache {
    StatsCache {
        daily_activity: vec![],
        daily_model_tokens: None,
        model_usage: vec![],
        total_sessions: 0,
        total_messages: 0,
        longest_session: None,
        first_session_date: None,
        hour_counts: None,
    }
}

#[test]
fn percent_change_of_nothing_is_none() {
    assert_eq!(MetricComparison::new(0, 0).percent_change, None);
}

#[test]
fn percent_change_from_zero_is_a_full_hundred() {
    // 100 percent, in hundredths of a percent.
    assert_eq!(MetricComparison::new(5, 0).percent_change, Some(10_000));
}

#[test]
fn percent_change_of_a_drop_is_negative() {
    // From 100 down to 50: minus fifty percent.
    assert_eq!(MetricComparison::new(50, 100).percent_change, Some(-5_000));
}

#[test]
fn cost_is_a_flat_rate_per_million_tokens() {
    // 16.50 and 15.00 dollars, in micro-dollars.
    assert_eq!(calculate_cost(1_000_000, "google-vertex"), 16_500_000);
    assert_eq!(calculate_cost(1_000_000, "anthropic"), 15_000_000);
    assert_eq!(calculate_cost(1_000_000, "aws-bedrock"), 15_000_000);
    assert_eq!(calculate_cost(0, "google-vertex"), 0);
    assert_eq!(calculate_cost(0, "anthropic"), 0);
}

#[test]
fn streak_counts_consecutive_days_back_from_today() {
    let acts = vec![
        day("2024-03-15", 3, 1),
        day("2024-03-14", 1, 1),
        day("2024-03-13", 2, 1),
        day("2024-03-10", 5, 1),
    ];
    assert_eq!(compute_streak(&acts, d(2024, 3, 15)), 3);
}

#[test]
fn streak_needs_an_anchor_at_today_or_yesterday() {
    // Activity only two days ago: the walk anchors at today or yesterday,
    // so the streak is zero.
    let acts = vec![day("2024-03-13", 2, 1)];
    assert_eq!(compute_streak(&acts, d(2024, 3, 15)), 0);
}

#[test]
fn streak_may_anchor_at_yesterday() {
    let acts = vec![day("2024-03-14", 2, 1), day("2024-03-13", 2, 1)];
    assert_eq!(compute_streak(&acts, d(2024, 3, 15)), 2);
}

#[test]
fn streak_ignores_days_without_messages() {
    let acts = vec![day("2024-03-15", 0, 1), day("2024-03-14", 2, 1)];
    assert_eq!(compute_streak(&acts, d(2024, 3, 15)), 1);
}

#[test]
fn period_windows_are_adjacent_and_equal_length() {
    // Friday 2024-03-15: four days from Monday, a five-day week so far,
    // so the previous window is the five days ending last Sunday.
    let (cs, ce, ps, pe) = get_period_dates("this_week", d(2024, 3, 15), 4);
    assert_eq!(cs, d(2024, 3, 11));
    assert_eq!(ce, d(2024, 3, 15));
    assert_eq!(ps, d(2024, 3, 6));
    assert_eq!(pe, d(2024, 3, 10));
    // Fifteen days into March: the previous window is the fifteen days
    // ending on the last of February.
    let (cs, ce, ps, pe) = get_period_dates("this_month", d(2024, 3, 15), 4);
    assert_eq!(cs, d(2024, 3, 1));
    assert_eq!(ce, d(2024, 3, 15));
    assert_eq!(ps, d(2024, 2, 15));
    assert_eq!(pe, d(2024, 2, 29));
    let (cs, ce, ps, pe) = get_period_dates("last_7_days", d(2024, 3, 15), 4);
    assert_eq!(cs, d(2024, 3, 9));
    assert_eq!(ce, d(2024, 3, 15));
    assert_eq!(ps, d(2024, 3, 2));
    assert_eq!(pe, d(2024, 3, 8));
}

#[test]
fn date_parsing_is_strict_and_calendar_aware() {
    assert_eq!(Date::parse("2024-03-15"), Some(d(2024, 3, 15)));
    assert_eq!(Date::parse("2024-02-29"), Some(d(2024, 2, 29)));
    assert_eq!(Date::parse("2023-02-29"), None);
    assert_eq!(Date::parse("2024-13-01"), None);
    assert_eq!(Date::parse("2024-3-15"), None);
    assert_eq!(Date::parse("not-a-date"), None);
}

#[test]
fn activity_sums_respect_the_window() {
    let acts = vec![
        day("2024-03-15", 3, 1),
        day("2024-03-10", 5, 2),
        day("2024-02-01", 100, 9),
        day("bad-date", 1000, 1000),
    ];
    let (messages, sessions) = sum_activity_in_range(&acts, d(2024, 3, 1), d(2024, 3, 31));
    assert_eq!(messages, 8);
    assert_eq!(sessions, 3);
}

#[test]
fn token_sums_respect_the_window() {
    let days = Some(vec![
        DailyModelTokens {
            date: "2024-03-15".to_string(),
            tokens_by_model: vec![("a".to_string(), 100), ("b".to_string(), 50)],
        },
        DailyModelTokens {
            date: "2024-01-01".to_string(),
            tokens_by_model: vec![("a".to_string(), 999)],
        },
    ]);
    assert_eq!(sum_tokens_in_range(&days, d(2024, 3, 1), d(2024, 3, 31)), 150);
    assert_eq!(sum_tokens_in_range(&None, d(2024, 3, 1), d(2024, 3, 31)), 0);
}

#[test]
fn peak_hour_takes_the_first_largest_count() {
    let counts = Some(vec![
        ("9".to_string(), 4u32),
        ("14".to_string(), 9u32),
        ("23".to_string(), 9u32),
    ]);
    assert_eq!(find_peak_hour(&counts), Some(14));
    assert_eq!(find_peak_hour(&None), None);
    assert_eq!(find_peak_hour(&Some(vec![])), None);
    let unparsable = Some(vec![("noon".to_string(), 4u32)]);
    assert_eq!(find_peak_hour(&unparsable), None);
}

#[test]
fn insights_compose_the_period_comparisons() {
    let mut cache = empty_cache();
    cache.daily_activity = vec![
        day("2024-03-15", 4, 2),
        day("2024-03-14", 2, 1),
        day("2024-03-05", 3, 3),
    ];
    cache.daily_model_tokens = Some(vec![DailyModelTokens {
        date: "2024-03-15".to_string(),
        tokens_by_model: vec![("a".to_string(), 1_000_000)],
    }]);
    cache.first_session_date = Some("2024-01-01".to_string());
    // Friday the 15th, trailing-7-days period.
    let r = compute_insights(&cache, d(2024, 3, 15), 4, "last_7_days", "anthropic");
    assert_eq!(r.period, "last_7_days");
    assert_eq!(r.comparison.messages.current, 6);
    assert_eq!(r.comparison.messages.previous, 3);
    assert_eq!(r.comparison.messages.percent_change, Some(10_000));
    assert_eq!(r.comparison.tokens.current, 1_000_000);
    assert_eq!(r.comparison.estimated_cost.current, 15_000_000);
    assert_eq!(r.peak_activity.current_streak, 2);
    assert_eq!(r.peak_activity.member_since, Some("2024-01-01".to_string()));
    assert_eq!(r.daily_activity.len(), 2);
    assert_eq!(r.daily_activity[0].date, "2024-03-15");
    assert_eq!(r.daily_activity[0].value, 4);
    assert_eq!(r.sessions_per_day[0].value, 2);
}

#[test]
fn local_stats_totals_and_tables() {
    let mut cache = empty_cache();
    cache.daily_activity = vec![
        day("2024-03-15", 4, 2),
        day("2024-03-14", 0, 0),
        day("2024-03-13", 2, 1),
    ];
    cache.daily_model_tokens = Some(vec![
        DailyModelTokens {
            date: "2024-03-15".to_string(),
            tokens_by_model: vec![("small".to_string(), 100), ("big".to_string(), 500)],
        },
        DailyModelTokens {
            date: "2024-03-13".to_string(),
            tokens_by_model: vec![("small".to_string(), 700)],
        },
    ]);
    cache.total_sessions = 3;
    cache.hour_counts = Some(vec![
        ("14".to_string(), 9u32),
        ("9".to_string(), 4u32),
        ("bad".to_string(), 1u32),
    ]);
    let r = get_local_stats_cache(&cache, "anthropic");
    assert_eq!(r.total_tokens, 1300);
    assert_eq!(r.total_sessions, 3);
    assert_eq!(r.total_messages, 6);
    assert_eq!(r.active_days, 2);
    // 6 messages over 2 active days: three per day, in micro-units.
    assert_eq!(r.avg_messages_per_day_micro, 3_000_000);
    assert_eq!(r.peak_hour, Some(14));
    assert_eq!(r.daily_activity.len(), 3);
    assert_eq!(r.daily_activity[1].value, 0);
    // Per-model totals, largest first.
    assert_eq!(r.tokens_by_model.len(), 2);
    assert_eq!(r.tokens_by_model[0].model, "small");
    assert_eq!(r.tokens_by_model[0].tokens, 800);
    assert_eq!(r.tokens_by_model[1].model, "big");
    assert_eq!(r.tokens_by_model[1].tokens, 500);
    // Hour table sorted by hour, unparsable keys dropped.
    assert_eq!(r.activity_by_hour.len(), 2);
    assert_eq!(r.activity_by_hour[0].hour, 9);
    assert_eq!(r.activity_by_hour[1].hour, 14);
}

#[test]
fn short_cost_text_switches_precision_at_one_dollar() {
    assert_eq!(format_cost_short(0), "$0.000");
    assert_eq!(format_cost_short(999_400), "$0.999");
    assert_eq!(format_cost_short(1_234_567), "$1.23");
    assert_eq!(format_cost_short(1_235_000), "$1.24");
    assert_eq!(format_cost_short(12_000_000), "$12.00");
}

#[test]
fn tray_title_carries_the_connection_indicator() {
    assert_eq!(tray_title(1_234_567, true), "\u{1f7e2} $1.23");
    assert_eq!(tray_title(0, false), "\u{1f534} $0.000");
}
