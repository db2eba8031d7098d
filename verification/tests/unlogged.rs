use rxtt::style::TextStyles;
use rxtt::time::{CalendarDate, TimeRange};
use rxtt::unlogged::{Gap, render_summary, unlogged_gaps};

fn range() -> TimeRange {
    let day = CalendarDate { year: 2026, month: 1, day: 1 };
    TimeRange { start: 10, end: 100, since: day, until: day }
}

fn gaps_at(records: &[(i64, i64)], now: i64) -> Vec<Gap> {
    let range = range();
    unlogged_gaps(&records.to_vec(), range.start, range.end, now)
}

#[test]
fn gaps_use_union_of_active_and_idle_coverage() {
    let gaps = gaps_at(
        &[(20, 30), (30, 40), (35, 50), (36, 38), (60, 70), (75, 75), (90, 80)],
        95,
    );
    assert_eq!(
        gaps,
        vec![
            Gap { started_at: 10, ended_at: 20 },
            Gap { started_at: 50, ended_at: 60 },
            Gap { started_at: 70, ended_at: 95 },
        ]
    );
    assert_eq!(gaps.iter().map(Gap::duration_seconds).sum::<i64>(), 45);
}

#[test]
fn coverage_clips_to_selection_and_now() {
    let records = [(0, 20), (80, 200)];
    assert_eq!(gaps_at(&records, 90), vec![Gap { started_at: 20, ended_at: 80 }]);
    assert_eq!(gaps_at(&records, 50), vec![Gap { started_at: 20, ended_at: 50 }]);
    assert!(gaps_at(&records, 15).is_empty());
}

#[test]
fn empty_database_covers_only_elapsed_time() {
    for (now, end) in [(50, 50), (200, 100)] {
        assert_eq!(gaps_at(&[], now), vec![Gap { started_at: 10, ended_at: end }]);
    }
    assert!(gaps_at(&[], 5).is_empty());
    assert!(gaps_at(&[], 10).is_empty());
}

#[test]
fn records_in_any_order_give_the_same_gaps() {
    let sorted = gaps_at(&[(20, 30), (40, 50), (60, 70)], 100);
    let shuffled = gaps_at(&[(60, 70), (20, 30), (40, 50)], 100);
    assert_eq!(sorted, shuffled);
    assert_eq!(sorted.len(), 4);
}

#[test]
fn summary_only_lists_periods_in_verbose_mode() {
    let styles = TextStyles::new(false);
    let gaps = vec![Gap { started_at: 20, ended_at: 80 }];
    assert_eq!(render_summary(&gaps, range(), false, &styles), "Unlogged: 1m 00s");
    let verbose = render_summary(&gaps, range(), true, &styles);
    assert_eq!(verbose, format!("Unlogged: 1m 00s\n  {}", gaps[0].render(range(), &styles)));
    assert!(!verbose.contains('\x1b'));
    assert_eq!(render_summary(&vec![], range(), true, &styles), "Unlogged: 0s");
}
