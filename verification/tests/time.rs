use rxtt::time::{
    CalendarDate, RangeError, boundary_dates, date_text, format_period, format_timestamp, is_before,
    is_local_representable, range_from_midnights, time_range,
};

fn date(year: i32, month: u32, day: u32) -> CalendarDate {
    CalendarDate { year, month, day }
}

#[test]
fn dates_are_shown_as_iso_dates() {
    assert_eq!(date_text(date(2026, 7, 1)), "2026-07-01");
    assert_eq!(date_text(date(2026, 2, 30)), "");
}

#[test]
fn inverted_ranges_are_refused() {
    let today = date(2026, 7, 2);
    assert_eq!(
        time_range(Some(date(2026, 7, 2)), Some(date(2026, 7, 1)), today).unwrap_err(),
        RangeError::Inverted
    );
    assert_eq!(
        RangeError::Inverted.message(),
        "--until must not be earlier than --since"
    );
}

#[test]
fn missing_dates_mean_today_and_ranges_cover_whole_days() {
    let today = date(2026, 7, 2);
    let range = time_range(None, None, today).unwrap();
    assert_eq!(range.since, today);
    assert_eq!(range.until, today);
    assert!(range.end - range.start >= 23 * 3_600 && range.end - range.start <= 25 * 3_600);
    let two = time_range(Some(date(2026, 7, 1)), None, today).unwrap();
    assert!(two.end - two.start >= 47 * 3_600);
}

#[test]
fn the_last_representable_day_has_no_end() {
    let last = date(262_142, 12, 31);
    assert_eq!(time_range(Some(last), Some(last), last).unwrap_err(), RangeError::TooLate);
}

#[test]
fn calendar_order_is_by_year_month_and_day() {
    assert!(is_before(date(2025, 12, 31), date(2026, 1, 1)));
    assert!(!is_before(date(2026, 1, 1), date(2026, 1, 1)));
    assert!(is_before(date(2026, 1, 1), date(2026, 1, 2)));
}

#[test]
fn years_outside_four_digits_are_signed() {
    assert_eq!(date_text(date(-1, 1, 1)), "-0001-01-01");
    assert_eq!(date_text(date(10_000, 12, 31)), "+10000-12-31");
    assert_eq!(date_text(date(5, 3, 4)), "0005-03-04");
}

#[test]
fn local_time_labels_have_the_clock_shape() {
    let label = format_timestamp(1_700_000_000, false);
    assert_eq!(label.len(), 8);
    assert_eq!(&label[2..3], ":");
    let dated = format_timestamp(1_700_000_000, true);
    assert_eq!(dated.len(), 19);
    let period = format_period(0, 60, true);
    assert_eq!(period.chars().count(), 39);
    assert!(period.chars().all(|c| !c.is_control()));
}

#[test]
fn leap_days_and_the_ends_of_the_calendar() {
    assert_eq!(date_text(date(2024, 2, 29)), "2024-02-29");
    assert_eq!(date_text(date(2023, 2, 29)), "");
    assert_eq!(date_text(date(2000, 2, 29)), "2000-02-29");
    assert_eq!(date_text(date(1900, 2, 29)), "");
    assert_eq!(date_text(date(2026, 4, 31)), "");
    assert_eq!(date_text(date(2026, 0, 1)), "");
    assert_eq!(date_text(date(2026, 13, 1)), "");
    assert_eq!(date_text(date(262_142, 12, 31)), "+262142-12-31");
    assert_eq!(date_text(date(262_143, 1, 1)), "");
    assert_eq!(date_text(date(-262_143, 1, 1)), "-262143-01-01");
    assert_eq!(date_text(date(-262_144, 12, 31)), "");
}

#[test]
fn boundary_dates_are_the_first_date_and_the_day_after_the_last() {
    assert_eq!(boundary_dates(date(2024, 2, 27), date(2024, 2, 28)), Ok((date(2024, 2, 27), date(2024, 2, 29))));
    assert_eq!(boundary_dates(date(2023, 12, 31), date(2023, 12, 31)), Ok((date(2023, 12, 31), date(2024, 1, 1))));
    assert_eq!(boundary_dates(date(2024, 3, 2), date(2024, 3, 1)), Err(RangeError::Inverted));
    assert_eq!(boundary_dates(date(262_142, 12, 31), date(262_142, 12, 31)), Err(RangeError::TooLate));
}

#[test]
fn ranges_come_from_the_midnights_in_order() {
    let since = date(2024, 5, 1);
    let until = date(2024, 5, 2);
    let end_date = date(2024, 5, 3);
    let range = range_from_midnights(since, until, end_date, Some(100), Some(900)).unwrap();
    assert_eq!((range.start, range.end, range.since, range.until), (100, 900, since, until));
    assert_eq!(range_from_midnights(since, until, end_date, None, Some(900)).unwrap_err(), RangeError::NoMidnight(since));
    assert_eq!(range_from_midnights(since, until, end_date, None, None).unwrap_err(), RangeError::NoMidnight(since));
    assert_eq!(range_from_midnights(since, until, end_date, Some(100), None).unwrap_err(), RangeError::NoMidnight(end_date));
}

#[test]
fn instants_near_the_ends_of_the_calendar_do_not_panic() {
    assert!(is_local_representable(0));
    assert!(is_local_representable(8_210_266_790_399));
    assert!(!is_local_representable(8_210_266_790_400));
    assert!(is_local_representable(-8_334_601_228_800));
    assert!(!is_local_representable(-8_334_601_228_801));
    let late = format_period(8_210_266_876_000, 8_210_266_876_799, false);
    assert!(late.contains('\u{2013}'));
    let early = format_period(-8_334_601_315_200, -8_334_601_315_000, true);
    assert!(early.contains('\u{2013}'));
}
