use rxtt::time::{CalendarDate, TimeRange, format_timestamp};
use rxtt::json::{render_verbose_json, render_workflow_json};
use rxtt::unlogged::Gap;
use rxtt::workflow::{TimelineItem, WorkflowEntry, merge_adjacent, render_workflow, sort_keys, timeline};

fn date(text: &str) -> CalendarDate {
    let parts: Vec<u32> = text.split('-').map(|p| p.parse().unwrap()).collect();
    CalendarDate { year: parts[0] as i32, month: parts[1], day: parts[2] }
}

fn range(start: i64, end: i64, since: &str, until: &str) -> TimeRange {
    TimeRange { start, end, since: date(since), until: date(until) }
}

fn entry(app: &str, title: Option<&str>, started_at: i64, ended_at: i64) -> WorkflowEntry {
    WorkflowEntry { app_id: app.into(), title: title.map(Into::into), started_at, ended_at }
}

#[test]
fn workflow_does_not_merge_gaps_or_different_raw_titles() {
    let entries = merge_adjacent(vec![
        entry("Example", Some("first"), 0, 5),
        entry("Example", Some("second"), 5, 10),
        entry("Example", Some("second"), 11, 15),
    ]);
    assert_eq!(entries.len(), 3);
}

#[test]
fn exactly_adjacent_segments_merge() {
    let entries = merge_adjacent(vec![
        entry("Alpha", Some("same"), 5, 10),
        entry("Alpha", Some("same"), 10, 15),
        entry("Alpha", Some("other"), 15, 20),
        entry("Beta", None, 22, 25),
        entry("Beta", None, 25, 30),
    ]);
    assert_eq!(
        entries,
        vec![
            entry("Alpha", Some("same"), 5, 15),
            entry("Alpha", Some("other"), 15, 20),
            entry("Beta", None, 22, 30),
        ]
    );
    assert_eq!(entries.iter().map(|e| e.duration_seconds()).sum::<i64>(), 23);
}

#[test]
fn workflow_rendering_supports_plain_text_and_multiple_dates() {
    let entries = vec![entry("Example", None, 0, 65)];
    let rendered =
        render_workflow(&entries, &vec![], range(0, 86_400, "1970-01-01", "1970-01-02"), false);
    assert!(rendered.starts_with("Workflow from 1970-01-01 through 1970-01-02"));
    assert!(rendered.contains(&format!(
        "{}–{}",
        format_timestamp(0, true),
        format_timestamp(65, true)
    )));
    assert!(rendered.contains("Example  \"<untitled>\"  1m 05s"));
    assert!(!rendered.contains("\u{1b}["));
}

#[test]
fn empty_workflow_has_a_clear_message() {
    let rendered = render_workflow(&vec![], &vec![], range(0, 1, "1970-01-01", "1970-01-01"), false);
    assert!(rendered.contains("No completed active intervals."));
    assert!(rendered.starts_with("Workflow for 1970-01-01"));
}

#[test]
fn unlogged_rows_are_chronological_and_verbose_json_is_typed() {
    let entries = vec![entry("Example", None, 10, 20)];
    let gaps = vec![Gap { started_at: 0, ended_at: 10 }, Gap { started_at: 20, ended_at: 30 }];
    let selected = range(0, 30, "1970-01-01", "1970-01-01");
    let rendered = render_workflow(&entries, &gaps, selected, false);
    let lines: Vec<_> = rendered.lines().collect();
    assert!(lines[1].contains("Unlogged"));
    assert!(lines[2].contains("Example"));
    assert!(lines[3].contains("Unlogged"));
    assert!(!rendered.contains('\x1b'));
    let items = timeline(&entries, &gaps);
    assert_eq!(items[0], TimelineItem::Unlogged(Gap { started_at: 0, ended_at: 10 }));
    assert!(matches!(&items[1], TimelineItem::Active(e) if e.title.is_none()));
    assert!(matches!(&items[2], TimelineItem::Unlogged(g) if g.started_at == 20));
    let json: serde_json::Value = serde_json::from_str(&render_verbose_json(&entries, &gaps)).unwrap();
    let first: serde_json::Value = serde_json::from_str(
        r#"{"kind": "unlogged", "started_at": 0, "ended_at": 10, "duration_seconds": 10}"#,
    )
    .unwrap();
    assert_eq!(json[0], first);
    assert_eq!(json[1]["kind"], "active");
    assert_eq!(json[1]["title"], serde_json::Value::Null);
    assert_eq!(json[2]["started_at"], 20);
    let empty = render_workflow(&vec![], &gaps, selected, false);
    assert!(empty.contains("No completed active intervals."));
    assert_eq!(empty.matches("Unlogged").count(), 2);
}

#[test]
fn sorting_is_stable_for_equal_times() {
    let sorted = sort_keys(&vec![(5, 6, 0), (1, 2, 1), (5, 6, 2), (1, 1, 3)]);
    assert_eq!(sorted, vec![(1, 1, 3), (1, 2, 1), (5, 6, 0), (5, 6, 2)]);
}

#[test]
fn entries_come_before_gaps_with_the_same_times() {
    let entries = vec![entry("A", None, 0, 10)];
    let gaps = vec![Gap { started_at: 0, ended_at: 10 }];
    let items = timeline(&entries, &gaps);
    assert!(matches!(items[0], TimelineItem::Active(_)));
    assert!(matches!(items[1], TimelineItem::Unlogged(_)));
}

#[test]
fn workflow_app_ids_are_escaped() {
    let entries = vec![entry("Bad\x1bApp", Some("t\u{202e}"), 0, 5)];
    let rendered = render_workflow(&entries, &vec![], range(0, 10, "1970-01-01", "1970-01-01"), false);
    assert!(!rendered.contains('\x1b'));
    assert!(!rendered.contains('\u{202e}'));
    assert!(rendered.contains("Bad\\u{1b}App  \"t\\u{202e}\"  5s"));
}

#[test]
fn workflow_json_exports_clipped_entry_facts() {
    let json = render_workflow_json(&vec![entry("Example", None, 10, 75)]);
    let value: serde_json::Value = serde_json::from_str(&json).unwrap();
    let expected: serde_json::Value = serde_json::from_str(
        r#"[{"app_id": "Example", "title": null, "started_at": 10, "ended_at": 75, "duration_seconds": 65}]"#,
    )
    .unwrap();
    assert_eq!(value, expected);
}

#[test]
fn workflow_json_keeps_titles_and_outside_text_as_data() {
    let json = render_workflow_json(&vec![entry("Bad\x1bApp", Some("Doc \"1\""), -5, 5)]);
    let value: serde_json::Value = serde_json::from_str(&json).unwrap();
    assert_eq!(value[0]["app_id"], "Bad\x1bApp");
    assert_eq!(value[0]["title"], "Doc \"1\"");
    assert_eq!(value[0]["duration_seconds"], 10);
    assert!(!json.contains('\x1b'));
    assert_eq!(render_workflow_json(&vec![]), "[]");
}

#[test]
fn verbose_json_of_gaps_alone_has_only_unlogged_rows() {
    let gaps = vec![Gap { started_at: 5, ended_at: 7 }];
    let value: serde_json::Value =
        serde_json::from_str(&render_verbose_json(&vec![], &gaps)).unwrap();
    assert_eq!(value.as_array().unwrap().len(), 1);
    assert_eq!(value[0]["kind"], "unlogged");
    assert_eq!(value[0]["duration_seconds"], 2);
    assert!(value[0].get("title").is_none());
    assert!(value[0].get("app_id").is_none());
}
