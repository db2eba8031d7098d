//! Calendar dates, selected time ranges and local-time labels.
//!
//! Which instant is local midnight, and which local date and clock time an
//! instant has, depend on the machine's time zone; `chrono` answers those
//! questions. Of its clock texts only their documented shape is claimed.

use vstd::prelude::*;
use crate::text::{decimal, decimal_pad2, digits, push_char, push_decimal};
use chrono::{Datelike, TimeZone};

verus! {

/// A proleptic Gregorian calendar date.
#[derive(Debug, Clone, Copy, PartialEq, Eq, Structural)]
pub struct CalendarDate {
    pub year: i32,
    pub month: u32,
    pub day: u32,
}

/// Chronological order of dates: by year, then month, then day.
pub open spec fn date_before(a: CalendarDate, b: CalendarDate) -> bool {
    a.year < b.year || (a.year == b.year && (a.month < b.month || (a.month == b.month && a.day
        < b.day)))
}

/// `a` comes strictly before `b` in the calendar.
pub fn is_before(a: CalendarDate, b: CalendarDate) -> (before: bool)
    ensures
        before == date_before(a, b),
{
    a.year < b.year || (a.year == b.year && (a.month < b.month || (a.month == b.month && a.day
        < b.day)))
}

/// A leap year of the proleptic Gregorian calendar.
pub open spec fn is_leap_year(year: int) -> bool {
    year % 4 == 0 && (year % 100 != 0 || year % 400 == 0)
}

/// The number of days of a month (1–12) in a given year.
pub open spec fn days_in_month(year: int, month: int) -> int {
    if month == 2 {
        if is_leap_year(year) {
            29
        } else {
            28
        }
    } else if month == 4 || month == 6 || month == 9 || month == 11 {
        30
    } else {
        31
    }
}

/// The first and the last year of chrono's `NaiveDate`, which runs from
/// January 1, 262144 BCE through December 31, 262142 CE.
pub open spec fn first_year() -> int {
    -262143
}

/// See `first_year`.
pub open spec fn last_year() -> int {
    262142
}

/// Numbers that name a date chrono can represent.
pub open spec fn valid_date(year: int, month: int, day: int) -> bool {
    &&& first_year() <= year <= last_year()
    &&& 1 <= month <= 12
    &&& 1 <= day <= days_in_month(year, month)
}

/// `chrono`'s text of a date (`NaiveDate`'s `Display`, `%Y-%m-%d`), or
/// nothing when the numbers are no valid date.
pub open spec fn date_display(year: i32, month: u32, day: u32) -> Option<Seq<char>> {
    if valid_date(year as int, month as int, day as int) {
        Some(iso_date_text(year, month, day))
    } else {
        None
    }
}

/// The day after a date (`NaiveDate::succ_opt`), or nothing when the numbers
/// are no valid date or the date is the last one chrono can represent.
pub open spec fn next_day(year: i32, month: u32, day: u32) -> Option<(i32, u32, u32)> {
    if !valid_date(year as int, month as int, day as int) {
        None
    } else if day < days_in_month(year as int, month as int) {
        Some((year, month, (day + 1) as u32))
    } else if month < 12 {
        Some((year, (month + 1) as u32, 1u32))
    } else if year < last_year() {
        Some(((year + 1) as i32, 1u32, 1u32))
    } else {
        None
    }
}

/// A year as chrono writes it: four digits with leading zeros within
/// 0–9999, otherwise a sign followed by at least four digits.
pub open spec fn year_text(year: int) -> Seq<char> {
    if 0 <= year <= 9999 {
        pad4(year as nat)
    } else if year < 0 {
        seq!['-'] + pad4((-year) as nat)
    } else {
        seq!['+'] + pad4(year as nat)
    }
}

/// At least four digits, with leading zeros.
pub open spec fn pad4(n: nat) -> Seq<char> {
    if n < 10 {
        seq!['0', '0', '0'] + digits(n)
    } else if n < 100 {
        seq!['0', '0'] + digits(n)
    } else if n < 1000 {
        seq!['0'] + digits(n)
    } else {
        digits(n)
    }
}

/// The ISO text of a date, `%Y-%m-%d`.
pub open spec fn iso_date_text(year: i32, month: u32, day: u32) -> Seq<char> {
    year_text(year as int) + seq!['-'] + decimal_pad2(month as int) + seq!['-'] + decimal_pad2(
        day as int,
    )
}

/// Formats a date with `chrono::NaiveDate::from_ymd_opt` and its `Display`:
/// nothing for numbers that are no valid date (`from_ymd_opt`'s `None`),
/// else the `%Y-%m-%d` text chrono documents, the year signed outside
/// 0–9999.
#[verifier::external_body]
fn chrono_date_text(date: CalendarDate) -> (text: Option<String>)
    ensures
        match text {
            Some(t) => date_display(date.year, date.month, date.day) == Some(t@),
            None => date_display(date.year, date.month, date.day) is None,
        },
{
    match chrono::NaiveDate::from_ymd_opt(date.year, date.month, date.day) {
        Some(d) => Some(d.to_string()),
        None => None,
    }
}

/// The next calendar day with `chrono::NaiveDate::from_ymd_opt` and
/// `succ_opt`: nothing for numbers that are no valid date or for the last
/// date chrono represents.
#[verifier::external_body]
fn chrono_next_day(date: CalendarDate) -> (next: Option<CalendarDate>)
    ensures
        match next {
            Some(n) => next_day(date.year, date.month, date.day) == Some((n.year, n.month, n.day)),
            None => next_day(date.year, date.month, date.day) is None,
        },
{
    let day = chrono::NaiveDate::from_ymd_opt(date.year, date.month, date.day)?;
    match day.succ_opt() {
        Some(d) => Some(CalendarDate { year: d.year(), month: d.month(), day: d.day() }),
        None => None,
    }
}

/// Today's date in the local time zone (`chrono::Local::now().date_naive()`).
/// Which date it is depends on the clock and the time zone and is not
/// claimed; it is a `NaiveDate`, so a valid one.
#[verifier::external_body]
fn local_today() -> (today: CalendarDate)
    ensures
        valid_date(today.year as int, today.month as int, today.day as int),
{
    let today = chrono::Local::now().date_naive();
    CalendarDate { year: today.year(), month: today.month(), day: today.day() }
}

/// The Unix timestamp of the earliest local midnight that starts `date`
/// (`Local.from_local_datetime(..).earliest()`), if chrono finds one. It
/// depends on the time zone; nothing is claimed of it.
#[verifier::external_body]
fn chrono_local_midnight(date: CalendarDate) -> Option<i64> {
    let day = chrono::NaiveDate::from_ymd_opt(date.year, date.month, date.day)?;
    let midnight = day.and_hms_opt(0, 0, 0)?;
    match chrono::Local.from_local_datetime(&midnight).earliest() {
        Some(t) => Some(t.timestamp()),
        None => None,
    }
}

/// Unix seconds at least one day inside chrono's range of instants
/// (`DateTime::<Utc>::MIN_UTC` is -262143-01-01T00:00:00Z, `MAX_UTC`
/// +262142-12-31T23:59:59Z). Every zone offset is under a day, so the local
/// time of such an instant is in chrono's range too; chrono panics when it
/// turns an instant nearer the ends into a local date.
pub open spec fn local_representable(seconds: int) -> bool {
    -8334601228800 <= seconds <= 8210266790399
}

/// Tests `local_representable`.
pub fn is_local_representable(seconds: i64) -> (ok: bool)
    ensures
        ok == local_representable(seconds as int),
{
    -8334601228800i64 <= seconds && seconds <= 8210266790399i64
}

/// The local calendar date of a Unix timestamp (`Local.timestamp_opt(ts, 0)
/// .single()`), if it is unambiguous. Which date it is depends on the time
/// zone and is not claimed; it is a `NaiveDate`, so a valid one. Only
/// `local_representable` instants are admitted: nearer the ends of chrono's
/// range `date_naive` panics.
#[verifier::external_body]
fn local_date_of(timestamp: i64) -> (date: Option<CalendarDate>)
    requires
        local_representable(timestamp as int),
    ensures
        date matches Some(d) ==> valid_date(d.year as int, d.month as int, d.day as int),
{
    let day = chrono::Local.timestamp_opt(timestamp, 0).single()?.date_naive();
    Some(CalendarDate { year: day.year(), month: day.month(), day: day.day() })
}

/// The local date of an instant, or nothing when it has none or lies too
/// near the ends of chrono's range to have one.
fn local_date_checked(timestamp: i64) -> (date: Option<CalendarDate>)
    ensures
        !local_representable(timestamp as int) ==> date is None,
        date matches Some(d) ==> valid_date(d.year as int, d.month as int, d.day as int),
{
    if is_local_representable(timestamp) {
        local_date_of(timestamp)
    } else {
        None
    }
}

/// An ASCII digit.
pub open spec fn is_digit(c: char) -> bool {
    '0' <= c <= '9'
}

/// Two digits at `i` and `i + 1`.
pub open spec fn two_digits(s: Seq<char>, i: int) -> bool {
    is_digit(s[i]) && is_digit(s[i + 1])
}

/// chrono's `%H:%M:%S`: two digits each, separated by colons.
pub open spec fn clock_shape(s: Seq<char>) -> bool {
    &&& s.len() == 8
    &&& two_digits(s, 0)
    &&& s[2] == ':'
    &&& two_digits(s, 3)
    &&& s[5] == ':'
    &&& two_digits(s, 6)
}

/// chrono's `%Y-%m-%d`: a year of at least four digits, with a sign when it
/// lies outside 0–9999, then two-digit month and day after dashes.
pub open spec fn date_shape(s: Seq<char>) -> bool {
    &&& s.len() >= 10
    &&& s[s.len() - 6] == '-'
    &&& two_digits(s, s.len() - 5)
    &&& s[s.len() - 3] == '-'
    &&& two_digits(s, s.len() - 2)
    &&& forall|i: int|
        0 <= i < s.len() - 6 ==> is_digit(#[trigger] s[i]) || (i == 0 && (s[0] == '+' || s[0] == '-'))
}

/// chrono's `%Y-%m-%d %H:%M:%S` with the date, `%H:%M:%S` without.
pub open spec fn local_time_shape(s: Seq<char>, include_date: bool) -> bool {
    if include_date {
        s.len() >= 19 && date_shape(s.take(s.len() - 9)) && s[s.len() - 9] == ' ' && clock_shape(
            s.skip(s.len() - 8),
        )
    } else {
        clock_shape(s)
    }
}

/// RFC 3339 with whole seconds and a `+HH:MM` or `-HH:MM` offset, as chrono
/// writes it: a `%Y-%m-%d` date, `T`, a `%H:%M:%S` time, the offset.
pub open spec fn rfc3339_shape(s: Seq<char>) -> bool {
    &&& s.len() >= 25
    &&& date_shape(s.take(s.len() - 15))
    &&& s[s.len() - 15] == 'T'
    &&& clock_shape(s.subrange(s.len() - 14, s.len() - 6))
    &&& (s[s.len() - 6] == '+' || s[s.len() - 6] == '-')
    &&& two_digits(s, s.len() - 5)
    &&& s[s.len() - 3] == ':'
    &&& two_digits(s, s.len() - 2)
}

/// The local time of a Unix timestamp as `%Y-%m-%d %H:%M:%S` (with the date)
/// or `%H:%M:%S`, if the local time is unambiguous. Which local time it is
/// depends on the time zone and is not claimed; its shape follows chrono's
/// documented formatting of these specifiers (zero-padded numbers, a year of
/// at least four digits, signed outside 0–9999).
#[verifier::external_body]
fn chrono_local_time_text(timestamp: i64, include_date: bool) -> (text: Option<String>)
    ensures
        text matches Some(t) ==> local_time_shape(t@, include_date),
{
    let format = if include_date { "%Y-%m-%d %H:%M:%S" } else { "%H:%M:%S" };
    Some(chrono::Local.timestamp_opt(timestamp, 0).single()?.format(format).to_string())
}

/// The shown text of a date: its ISO text, or nothing for an invalid date.
pub open spec fn date_shown(date: CalendarDate) -> Seq<char> {
    match date_display(date.year, date.month, date.day) {
        Some(_) => iso_date_text(date.year, date.month, date.day),
        None => Seq::empty(),
    }
}

/// The text of a date; an invalid date yields an empty string.
pub fn date_text(date: CalendarDate) -> (text: String)
    ensures
        text@ == date_shown(date),
{
    match chrono_date_text(date) {
        Some(t) => t,
        None => String::new(),
    }
}

/// The shown label of an instant: the formatted local time, or
/// `<invalid timestamp N>` when there is none.
pub open spec fn timestamp_label_text(formatted: Option<Seq<char>>, timestamp: int) -> Seq<char> {
    match formatted {
        Some(t) => t,
        None => seq!['<', 'i', 'n', 'v', 'a', 'l', 'i', 'd', ' ', 't', 'i', 'm', 'e', 's', 't', 'a',
            'm', 'p', ' '] + decimal(timestamp) + seq!['>'],
    }
}

/// Chooses the label of an instant from its formatted local time.
pub fn timestamp_label(formatted: Option<String>, timestamp: i64) -> (label: String)
    ensures
        label@ == timestamp_label_text(
            match formatted {
                Some(t) => Some(t@),
                None => None,
            },
            timestamp as int,
        ),
{
    match formatted {
        Some(t) => t,
        None => {
            let mut out = String::new();
            let prefix = "<invalid timestamp ";
            proof {
                reveal_strlit("<invalid timestamp ");
            }
            out.append(prefix);
            push_decimal(&mut out, timestamp);
            push_char(&mut out, '>');
            assert(out@ =~= timestamp_label_text(None, timestamp as int));
            out
        },
    }
}

/// A label of the instant `timestamp`: a local time of the given shape, or
/// the text for an instant without an unambiguous local time.
pub open spec fn instant_label(label: Seq<char>, timestamp: int, include_date: bool) -> bool {
    label == timestamp_label_text(None, timestamp) || local_time_shape(label, include_date)
}

/// The local time of an instant, with or without the date.
pub fn format_timestamp(timestamp: i64, include_date: bool) -> (label: String)
    ensures
        instant_label(label@, timestamp as int, include_date),
{
    let formatted = chrono_local_time_text(timestamp, include_date);
    let ghost f = match &formatted {
        Some(t) => Some(t@),
        None => None,
    };
    let label = timestamp_label(formatted, timestamp);
    assert(label@ == timestamp_label_text(f, timestamp as int));
    label
}

/// Dates are shown for multi-day selections and for periods whose two ends
/// fall on different (or unknown) local dates.
pub open spec fn period_needs_dates(
    multi_day: bool,
    start_date: Option<CalendarDate>,
    end_date: Option<CalendarDate>,
) -> bool {
    multi_day || start_date != end_date
}

/// Decides whether a period label shows dates.
pub fn needs_dates(multi_day: bool, start_date: Option<CalendarDate>, end_date: Option<CalendarDate>) -> (show: bool)
    ensures
        show == period_needs_dates(multi_day, start_date, end_date),
{
    if multi_day {
        return true;
    }
    match (start_date, end_date) {
        (Some(a), Some(b)) => a != b,
        (None, None) => false,
        _ => true,
    }
}

/// Two instant labels joined by an en dash.
pub open spec fn period_text(start: Seq<char>, end: Seq<char>) -> Seq<char> {
    start + seq!['\u{2013}'] + end
}

/// A label of the period from `start` to `end`: the labels of its two
/// instants, both with dates or both without, joined by an en dash; dates are
/// always shown for a selection of several days.
pub open spec fn period_label(label: Seq<char>, start: int, end: int, multi_day: bool) -> bool {
    exists|a: Seq<char>, b: Seq<char>, dates: bool|
        #![trigger instant_label(a, start, dates), instant_label(b, end, dates)]
        (multi_day ==> dates) && instant_label(a, start, dates) && instant_label(b, end, dates)
            && label == period_text(a, b)
}

/// The label of a period `start–end` in local time, with dates where
/// `period_needs_dates` asks for them.
pub fn format_period(start: i64, end: i64, multi_day: bool) -> (label: String)
    ensures
        period_label(label@, start as int, end as int, multi_day),
{
    let include_date = needs_dates(multi_day, local_date_checked(start), local_date_checked(end));
    let first = format_timestamp(start, include_date);
    let second = format_timestamp(end, include_date);
    let mut label = first;
    push_char(&mut label, '\u{2013}');
    label.append(second.as_str());
    assert(label@ == period_text(first@, second@));
    assert(instant_label(first@, start as int, include_date) && instant_label(second@, end as int, include_date));
    label
}

/// A selection of whole local days: `[start, end)` in Unix seconds, from the
/// first selected date through the last.
#[derive(Debug, Clone, Copy)]
pub struct TimeRange {
    pub start: i64,
    pub end: i64,
    pub since: CalendarDate,
    pub until: CalendarDate,
}

/// Why a date selection cannot be turned into a time range.
#[derive(Debug, Clone, Copy, PartialEq, Eq, Structural)]
pub enum RangeError {
    /// The last date comes before the first.
    Inverted,
    /// The day after the last date cannot be represented.
    TooLate,
    /// No local midnight could be found for the given date.
    NoMidnight(CalendarDate),
}

/// The message shown for a range error.
pub open spec fn range_message(error: RangeError) -> Seq<char> {
    match error {
        RangeError::Inverted => "--until must not be earlier than --since"@,
        RangeError::TooLate => "--until is too late to represent"@,
        RangeError::NoMidnight(date) => "cannot determine local midnight for "@ + date_shown(date),
    }
}

impl RangeError {
    /// The message shown for the error.
    pub fn message(&self) -> (text: String)
        ensures
            text@ == range_message(*self),
    {
        match self {
            RangeError::Inverted => "--until must not be earlier than --since".to_owned(),
            RangeError::TooLate => "--until is too late to represent".to_owned(),
            RangeError::NoMidnight(date) => {
                let mut out = "cannot determine local midnight for ".to_owned();
                out.append(date_text(*date).as_str());
                out
            },
        }
    }
}

/// A selected date, or `today` when none was given.
pub open spec fn chosen_date(date: Option<CalendarDate>, today: CalendarDate) -> CalendarDate {
    match date {
        Some(d) => d,
        None => today,
    }
}

/// The boundary dates of the selection `since` through `until`: `since` and
/// the day after `until`; `Inverted` when `until` precedes `since`, `TooLate`
/// when the day after `until` does not exist.
pub open spec fn boundaries(since: CalendarDate, until: CalendarDate) -> Result<
    (CalendarDate, CalendarDate),
    RangeError,
> {
    if date_before(until, since) {
        Err(RangeError::Inverted)
    } else {
        match next_day(until.year, until.month, until.day) {
            None => Err(RangeError::TooLate),
            Some((y, m, d)) => Ok((since, CalendarDate { year: y, month: m, day: d })),
        }
    }
}

/// Computes `boundaries`.
pub fn boundary_dates(since: CalendarDate, until: CalendarDate) -> (dates: Result<
    (CalendarDate, CalendarDate),
    RangeError,
>)
    ensures
        dates == boundaries(since, until),
{
    if is_before(until, since) {
        return Err(RangeError::Inverted);
    }
    match chrono_next_day(until) {
        Some(d) => Ok((since, d)),
        None => Err(RangeError::TooLate),
    }
}

/// The range of `since` through `until` from the local midnights found for
/// its boundary dates `since` and `end_date`: both found give the range
/// `[start, end)`; a missing one names its date, the first date's first.
pub open spec fn range_from(
    since: CalendarDate,
    until: CalendarDate,
    end_date: CalendarDate,
    start: Option<i64>,
    end: Option<i64>,
) -> Result<TimeRange, RangeError> {
    match (start, end) {
        (Some(s), Some(e)) => Ok(TimeRange { start: s, end: e, since, until }),
        (None, _) => Err(RangeError::NoMidnight(since)),
        (Some(_), None) => Err(RangeError::NoMidnight(end_date)),
    }
}

/// Computes `range_from`.
pub fn range_from_midnights(
    since: CalendarDate,
    until: CalendarDate,
    end_date: CalendarDate,
    start: Option<i64>,
    end: Option<i64>,
) -> (range: Result<TimeRange, RangeError>)
    ensures
        range == range_from(since, until, end_date, start, end),
{
    match (start, end) {
        (Some(s), Some(e)) => Ok(TimeRange { start: s, end: e, since, until }),
        (None, _) => Err(RangeError::NoMidnight(since)),
        (Some(_), None) => Err(RangeError::NoMidnight(end_date)),
    }
}

/// What selecting the dates `s` through `u` can give: the error of
/// `boundaries` where it has one, and otherwise `range_from` applied to
/// whatever local midnights the time zone gives for the two boundary dates.
/// So `Inverted` comes exactly when `u` precedes `s`, `TooLate` exactly when
/// the day after `u` does not exist, and otherwise the range of those dates
/// or `NoMidnight` naming the boundary date whose midnight was not found.
pub open spec fn range_outcome(s: CalendarDate, u: CalendarDate, range: Result<TimeRange, RangeError>) -> bool {
    &&& match boundaries(s, u) {
        Err(e) => range == Err::<TimeRange, RangeError>(e),
        Ok((first, end_date)) => exists|start: Option<i64>, end: Option<i64>|
            #[trigger] range_from(first, u, end_date, start, end) == range,
    }
    &&& (range matches Err(RangeError::Inverted)) <==> date_before(u, s)
    &&& (range matches Err(RangeError::TooLate)) <==> (!date_before(u, s) && next_day(
        u.year,
        u.month,
        u.day,
    ) is None)
    &&& range matches Ok(r) ==> r.since == s && r.until == u && next_day(u.year, u.month, u.day) is Some
    &&& range matches Err(RangeError::NoMidnight(d)) ==> !date_before(u, s) && next_day(
        u.year,
        u.month,
        u.day,
    ) is Some && (d == s || next_day(u.year, u.month, u.day) == Some((d.year, d.month, d.day)))
}

/// The time range of the dates `since` through `until`; a missing date means
/// `today`. The boundary dates come from `boundary_dates`, which gives the
/// errors `Inverted` and `TooLate`; the local midnights the time zone gives
/// for them (`chrono_local_midnight`) are handed to `range_from_midnights`.
/// Which instants those midnights are depends on the time zone.
pub fn time_range(since: Option<CalendarDate>, until: Option<CalendarDate>, today: CalendarDate) -> (range: Result<TimeRange, RangeError>)
    ensures
        range_outcome(chosen_date(since, today), chosen_date(until, today), range),
{
    let since = match since {
        Some(d) => d,
        None => today,
    };
    let until = match until {
        Some(d) => d,
        None => today,
    };
    let (first, end_date) = match boundary_dates(since, until) {
        Ok(dates) => dates,
        Err(e) => return Err(e),
    };
    let start = chrono_local_midnight(first);
    let end = chrono_local_midnight(end_date);
    let range = range_from_midnights(first, until, end_date, start, end);
    assert(range_from(first, until, end_date, start, end) == range);
    range
}

/// The time range of the dates `since` through `until`, a missing date
/// meaning the local date of today (which depends on the clock and the time
/// zone; see `time_range` for a given today).
pub fn time_range_from_today(since: Option<CalendarDate>, until: Option<CalendarDate>) -> (range: Result<TimeRange, RangeError>)
    ensures
        exists|today: CalendarDate|
            #[trigger] range_outcome(chosen_date(since, today), chosen_date(until, today), range),
{
    let today = local_today();
    time_range(since, until, today)
}

/// Elapsed selected seconds as of `now`: from the range's start to its end
/// or to now, whichever is earlier, and never negative.
pub open spec fn elapsed_seconds(start: int, end: int, now: int) -> int {
    let stop = if now < end { now } else { end };
    let raw = stop - start;
    let saturated = if raw > i64::MAX { i64::MAX as int } else if raw < i64::MIN { i64::MIN as int } else { raw };
    if saturated < 0 { 0 } else { saturated }
}

/// How much of the selected range has elapsed by `now`, in seconds.
pub fn selected_elapsed_seconds(range: TimeRange, now: i64) -> (seconds: i64)
    ensures
        seconds == elapsed_seconds(range.start as int, range.end as int, now as int),
{
    let stop = if now < range.end { now } else { range.end };
    let wide = stop as i128 - range.start as i128;
    let raw: i64 = if wide > i64::MAX as i128 {
        i64::MAX
    } else if wide < i64::MIN as i128 {
        i64::MIN
    } else {
        wide as i64
    };
    if raw < 0 { 0 } else { raw }
}

} // verus!
