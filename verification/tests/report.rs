use rxtt::report::{AppUsage, TitleUsage, group_title_usage, render_report};
use rxtt::time::{CalendarDate, TimeRange, selected_elapsed_seconds};
use rxtt::titles::TitleGroupingConfig;
use rxtt::unlogged::Gap;

fn day() -> CalendarDate {
    CalendarDate { year: 1970, month: 1, day: 1 }
}

#[test]
fn selected_elapsed_time_stops_at_now() {
    let range = TimeRange { start: 1_000, end: 2_000, since: day(), until: day() };
    assert_eq!(selected_elapsed_seconds(range, 1_250), 250);
    assert_eq!(selected_elapsed_seconds(range, 3_000), 1_000);
    assert_eq!(selected_elapsed_seconds(range, 500), 0);
}

#[test]
fn grouping_merges_only_formatting_equivalent_titles() {
    let config = TitleGroupingConfig::built_in();
    let grouped = group_title_usage(
        "Example",
        vec![
            TitleUsage { title: Some("\u{200e}Quarterly   “Review”".into()), seconds: 5 },
            TitleUsage { title: Some("quarterly \"review\"".into()), seconds: 12 },
            TitleUsage { title: Some("Quarterly Review 2025".into()), seconds: 7 },
        ],
        &config,
    );
    assert_eq!(
        grouped,
        vec![
            TitleUsage { title: Some("quarterly \"review\"".into()), seconds: 17 },
            TitleUsage { title: Some("Quarterly Review 2025".into()), seconds: 7 },
        ]
    );
}

#[test]
fn grouping_uses_a_stable_label_when_durations_tie() {
    let config = TitleGroupingConfig::built_in();
    let grouped = group_title_usage(
        "Example",
        vec![
            TitleUsage { title: Some("alpha".into()), seconds: 5 },
            TitleUsage { title: Some("Alpha".into()), seconds: 5 },
            TitleUsage { title: None, seconds: 3 },
        ],
        &config,
    );
    assert_eq!(
        grouped,
        vec![
            TitleUsage { title: Some("Alpha".into()), seconds: 10 },
            TitleUsage { title: None, seconds: 3 },
        ]
    );
}

#[test]
fn browser_notification_counters_merge_without_affecting_other_apps() {
    let config = TitleGroupingConfig::built_in();
    let browser = group_title_usage(
        "Firefox",
        vec![
            TitleUsage { title: Some("(33) Pinterest — Mozilla Firefox".into()), seconds: 3 },
            TitleUsage { title: Some("(32) Pinterest — Mozilla Firefox".into()), seconds: 7 },
            TitleUsage { title: Some("Pinterest — Mozilla Firefox".into()), seconds: 2 },
            TitleUsage {
                title: Some("Яндекс Мессенджер — 31 новое сообщение - Chromium".into()),
                seconds: 4,
            },
            TitleUsage {
                title: Some("Яндекс Мессенджер — 33 новых сообщения - Chromium".into()),
                seconds: 5,
            },
        ],
        &config,
    );
    assert_eq!(browser[0].seconds, 12);
    assert_eq!(browser[1].seconds, 9);

    let spotify = group_title_usage(
        "Spotify",
        vec![
            TitleUsage { title: Some("Track (1)".into()), seconds: 3 },
            TitleUsage { title: Some("Track (2)".into()), seconds: 5 },
        ],
        &config,
    );
    assert_eq!(spotify.len(), 2);
}

#[test]
fn telegram_and_terminal_volatile_state_is_grouped() {
    let config = TitleGroupingConfig::built_in();
    let telegram = group_title_usage(
        "TelegramDesktop",
        vec![
            TitleUsage { title: Some("Жена – (946)".into()), seconds: 4 },
            TitleUsage { title: Some("(1) Жена – (947)".into()), seconds: 6 },
            TitleUsage { title: Some("Жена – (948)".into()), seconds: 2 },
        ],
        &config,
    );
    assert_eq!(telegram.len(), 1);
    assert_eq!(telegram[0].seconds, 12);

    let terminal = group_title_usage(
        "Alacritty",
        vec![
            TitleUsage { title: Some("⠸ rxtt".into()), seconds: 4 },
            TitleUsage { title: Some("⠋ rxtt".into()), seconds: 6 },
            TitleUsage { title: Some("rxtt".into()), seconds: 2 },
            TitleUsage { title: Some("[ ! ] Action Required | rxtt".into()), seconds: 3 },
            TitleUsage { title: Some("[ . ] Action Required | rxtt".into()), seconds: 5 },
        ],
        &config,
    );
    assert_eq!(terminal.len(), 2);
    assert_eq!(terminal[0].seconds, 12);
    assert_eq!(terminal[1].seconds, 8);
}

#[test]
fn grouping_keeps_the_total_time() {
    let config = TitleGroupingConfig::built_in();
    let grouped = group_title_usage(
        "Firefox",
        vec![
            TitleUsage { title: Some("(1) A".into()), seconds: 4 },
            TitleUsage { title: Some("B".into()), seconds: 9 },
            TitleUsage { title: Some("a".into()), seconds: 6 },
            TitleUsage { title: None, seconds: 1 },
        ],
        &config,
    );
    assert_eq!(grouped.iter().map(|t| t.seconds).sum::<i64>(), 20);
    assert_eq!(grouped[0], TitleUsage { title: Some("a".into()), seconds: 10 });
}

#[test]
fn report_lists_apps_with_title_tree() {
    let range = TimeRange { start: 0, end: 7_200, since: day(), until: day() };
    let apps = vec![
        AppUsage {
            app_id: "Alacritty".into(),
            seconds: 3_600,
            titles: vec![
                TitleUsage { title: Some("rxtt".into()), seconds: 3_000 },
                TitleUsage { title: None, seconds: 600 },
            ],
        },
        AppUsage { app_id: "Bad\u{1b}App".into(), seconds: 65, titles: vec![] },
    ];
    let text = render_report(&apps, &vec![], range, 7_200, true, false, false);
    let lines: Vec<&str> = text.lines().collect();
    assert_eq!(lines[0], "Usage report for 1970-01-01 (1h 01m 05s/2h 00m 00s)");
    assert_eq!(lines[1], "Unlogged: 0s");
    assert_eq!(lines[2], "Alacritty  1h 00m 00s");
    assert_eq!(lines[3], "  ├─ \"rxtt\"  50m 00s");
    assert_eq!(lines[4], "  └─ \"<untitled>\"  10m 00s");
    assert_eq!(lines[5], "Bad\\u{1b}App  1m 05s");
    assert_eq!(lines.len(), 6);

    let flat = render_report(&apps, &vec![], range, 3_600, false, false, false);
    assert!(flat.starts_with("Usage report for 1970-01-01 (1h 01m 05s/1h 00m 00s)"));
    assert!(!flat.contains("├─"));
}

#[test]
fn empty_report_has_a_clear_message() {
    let since = day();
    let until = CalendarDate { year: 1970, month: 1, day: 2 };
    let range = TimeRange { start: 0, end: 172_800, since, until };
    let gaps = vec![Gap { started_at: 0, ended_at: 60 }];
    let text = render_report(&vec![], &gaps, range, 60, true, false, false);
    assert_eq!(
        text,
        "Usage report from 1970-01-01 through 1970-01-02 (0s/1m 00s)\nUnlogged: 1m 00s\nNo completed active intervals."
    );
}
