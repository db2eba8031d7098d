use chrono::{Local, TimeZone};
use rxtt::style::TextStyles;
use rxtt::text::{escape_terminal, format_duration, format_title, quote_terminal, quoted, quoted_option};
use rxtt::time::{format_period, format_timestamp};

#[test]
fn duration_format_is_compact() {
    assert_eq!(format_duration(5), "5s");
    assert_eq!(format_duration(65), "1m 05s");
    assert_eq!(format_duration(3_665), "1h 01m 05s");
}

#[test]
fn negative_durations_keep_truncating_components() {
    assert_eq!(format_duration(0), "0s");
    assert_eq!(format_duration(-65), "-1m -5s");
    assert_eq!(format_duration(3_600), "1h 00m 00s");
}

#[test]
fn title_output_escapes_bidi_controls_and_quotes() {
    assert_eq!(format_title(Some("\u{200e}example")), "\"\\u{200e}example\"");
    assert_eq!(format_title(Some("a \"quote\"")), "\"a \\\"quote\\\"\"");
}

#[test]
fn missing_title_is_shown_as_untitled() {
    assert_eq!(format_title(None), "\"<untitled>\"");
}

#[test]
fn ansi_can_be_disabled_or_enabled() {
    let plain = TextStyles::new(false);
    assert_eq!(plain.header("Report"), "Report");
    assert_eq!(plain.application("Example"), "Example");

    let rendered = TextStyles::new(true).header("Report");
    assert!(rendered.starts_with("\x1b["));
    assert!(rendered.ends_with("\x1b[0m"));
}

#[test]
fn ansi_styles_use_the_documented_codes() {
    let styles = TextStyles::new(true);
    assert_eq!(styles.header("R"), "\x1b[1m\x1b[96mR\x1b[0m");
    assert_eq!(styles.time("t"), "\x1b[2mt\x1b[0m");
    assert_eq!(styles.muted("m"), "\x1b[90mm\x1b[0m");
}

#[test]
fn crossing_midnight_includes_both_dates() {
    let start = Local.with_ymd_and_hms(2026, 1, 1, 23, 59, 0).earliest().unwrap().timestamp();
    let end = Local.with_ymd_and_hms(2026, 1, 2, 0, 0, 0).earliest().unwrap().timestamp();
    assert_eq!(format_period(start, end, false), "2026-01-01 23:59:00–2026-01-02 00:00:00");
    assert_eq!(format_period(start, start + 30, false), "23:59:00–23:59:30");
}

#[test]
fn multi_day_selections_always_show_dates() {
    let start = Local.with_ymd_and_hms(2026, 3, 4, 10, 0, 0).earliest().unwrap().timestamp();
    assert_eq!(format_period(start, start + 60, true), "2026-03-04 10:00:00–2026-03-04 10:01:00");
    assert_eq!(format_timestamp(start, false), "10:00:00");
}

#[test]
fn terminal_values_cannot_inject_controls_and_keep_normal_unicode() {
    assert_eq!(
        escape_terminal("\x1b[31m\n\r\t\x07\x7f\u{009b}\u{202e}"),
        "\\u{1b}[31m\\n\\r\\t\\u{7}\\u{7f}\\u{9b}\\u{202e}"
    );
    assert_eq!(escape_terminal("Привет 👩\u{200d}💻"), "Привет 👩\u{200d}💻");
    assert_eq!(quote_terminal("a\\b\"\n", '"'), "\"a\\\\b\\\"\\n\"");
    assert_eq!(quote_terminal("a'b", '\''), "'a\\'b'");
}

#[test]
fn quoted_output_matches_python_style_for_basic_values() {
    assert_eq!(quoted_option(None), "None");
    assert_eq!(quoted("O'Reilly"), "'O\\'Reilly'");
}

#[test]
fn quoting_escapes_backslashes_quotes_and_controls() {
    assert_eq!(quoted("a\\'b"), "'a\\\\\\'b'");
    assert_eq!(quoted_option(Some("x")), "'x'");
    assert_eq!(quoted("a\x1b\u{202e}b"), "'a\\u{1b}\\u{202e}b'");
}
