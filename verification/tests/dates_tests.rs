use usage_dashboard::dates::{current_local_date, date_of_parts, days_in_month, Date};

fn d(y: i32, m: u8, dd: u8) -> Date {
    Date { year: y, month: m, day: dd }
}

#[test]
fn month_lengths_follow_the_calendar() {
    assert_eq!(days_in_month(2024, 1), 31);
    assert_eq!(days_in_month(2024, 2), 29);
    assert_eq!(days_in_month(2023, 2), 28);
    assert_eq!(days_in_month(1900, 2), 28);
    assert_eq!(days_in_month(2000, 2), 29);
    assert_eq!(days_in_month(2024, 4), 30);
}

#[test]
fn stepping_back_crosses_month_and_year_borders() {
    assert_eq!(d(2024, 3, 15).prev_day(), d(2024, 3, 14));
    assert_eq!(d(2024, 3, 1).prev_day(), d(2024, 2, 29));
    assert_eq!(d(2024, 1, 1).prev_day(), d(2023, 12, 31));
    assert_eq!(d(1, 1, 1).prev_day(), d(1, 1, 1));
    assert_eq!(d(2024, 3, 15).sub_days(0), d(2024, 3, 15));
    assert_eq!(d(2024, 3, 15).sub_days(15), d(2024, 2, 29));
}

#[test]
fn ordering_is_by_year_month_day() {
    assert!(d(2023, 12, 31).before(&d(2024, 1, 1)));
    assert!(d(2024, 3, 14).before(&d(2024, 3, 15)));
    assert!(!d(2024, 3, 15).before(&d(2024, 3, 15)));
    assert!(d(2024, 3, 15).on_or_before(&d(2024, 3, 15)));
    assert!(!d(2024, 3, 16).on_or_before(&d(2024, 3, 15)));
}

#[test]
fn validity_rejects_out_of_calendar_dates() {
    assert!(d(2024, 2, 29).is_valid());
    assert!(!d(2023, 2, 29).is_valid());
    assert!(!d(2024, 0, 1).is_valid());
    assert!(!d(0, 1, 1).is_valid());
    assert!(!d(10000, 1, 1).is_valid());
}

#[test]
fn the_machine_clock_yields_a_calendar_date() {
    let (today, weekday) = current_local_date().unwrap();
    assert!(today.is_valid());
    assert!(weekday < 7);
}

#[test]
fn clock_parts_become_a_date_exactly_when_they_name_one() {
    assert_eq!(date_of_parts(2024, 3, 15, 4), Some((d(2024, 3, 15), 4)));
    assert_eq!(date_of_parts(2024, 2, 29, 0), Some((d(2024, 2, 29), 0)));
    assert_eq!(date_of_parts(2023, 2, 29, 0), None);
    assert_eq!(date_of_parts(2024, 13, 1, 0), None);
    assert_eq!(date_of_parts(2024, 3, 15, 7), None);
    assert_eq!(date_of_parts(0, 1, 1, 0), None);
    assert_eq!(date_of_parts(10000, 1, 1, 0), None);
}
