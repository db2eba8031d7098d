use rxtt::model::{ActivityEvent, ActivityState, Clock, WallTime, WindowInfo};
use rxtt::storage::{PendingStore, StorageError};
use rxtt::tracker::{TitleUpdateThrottle, Tracker, TrackerConfig, TrackerError};

const SECOND: u128 = 1_000_000_000;

fn window(title: &str) -> WindowInfo {
    WindowInfo {
        window_id: 1,
        title: Some(title.into()),
        wm_instance: None,
        wm_class: None,
        pid: None,
        executable: None,
    }
}

fn other_window(id: u32) -> WindowInfo {
    WindowInfo {
        window_id: id,
        title: Some("other".into()),
        wm_instance: None,
        wm_class: Some("Other".into()),
        pid: None,
        executable: None,
    }
}

fn at(seconds: u128) -> Clock {
    Clock {
        wall: WallTime { seconds: 1_000 + seconds as i64, nanos: 0 },
        mono: seconds * SECOND,
    }
}

fn config() -> TrackerConfig {
    TrackerConfig {
        idle_threshold: 300 * SECOND,
        sample_interval: SECOND / 4,
        title_change_min_interval: 5 * SECOND,
    }
}

#[test]
fn title_updates_are_rate_limited_and_latest_value_is_flushed() {
    let start = 0u128;
    let mut throttle = TitleUpdateThrottle::new(5 * SECOND);

    assert_eq!(
        throttle.push(1, window("one"), start).map(|update| update.window),
        Some(window("one"))
    );
    assert!(throttle.push(1, window("two"), start + SECOND).is_none());
    assert!(throttle.push(1, window("three"), start + 2 * SECOND).is_none());
    assert!(throttle.flush(start + 4 * SECOND).is_none());
    assert_eq!(
        throttle.flush(start + 5 * SECOND).map(|update| update.window),
        Some(window("three"))
    );
}

#[test]
fn reset_forgets_the_last_report_and_the_waiting_change() {
    let mut throttle = TitleUpdateThrottle::new(5 * SECOND);
    assert!(throttle.push(1, window("one"), 0).is_some());
    assert!(throttle.push(1, window("two"), SECOND).is_none());
    throttle.reset();
    assert!(throttle.flush(2 * SECOND).is_none());
    assert!(throttle.push(1, window("three"), 2 * SECOND).is_some());
}

#[test]
fn a_clock_that_goes_backwards_counts_as_no_time() {
    let mut throttle = TitleUpdateThrottle::new(5 * SECOND);
    assert!(throttle.push(1, window("one"), 10 * SECOND).is_some());
    assert!(throttle.push(1, window("two"), 0).is_none());
}

fn send(store: &mut PendingStore, events: Vec<ActivityEvent>) -> usize {
    let mut completed = 0;
    for event in &events {
        match store.record(event) {
            Ok(Some(_)) => completed += 1,
            Ok(None) => {}
            Err(error) => panic!("refused: {}", error.message()),
        }
    }
    completed
}

#[test]
fn reconciliation_events_are_accepted_by_the_store() {
    let mut tracker = Tracker::new(config());
    let mut store = PendingStore::new();
    tracker.set_current_window(Some(window("one")));

    let (events, outcome) = tracker.reconcile_current(ActivityState::Active, "startup", at(0));
    assert_eq!(outcome, Ok(()));
    assert_eq!(events.len(), 1);
    assert!(matches!(&events[0], ActivityEvent::IntervalStarted { interval_id: 1, .. }));
    assert_eq!(send(&mut store, events), 0);

    // Same window and state: nothing happens.
    let (events, _) = tracker.reconcile_current(ActivityState::Active, "periodic sample", at(1));
    assert!(events.is_empty());

    // A different window finishes interval 1 and starts interval 2.
    assert!(tracker.adopt_active_window(Some(other_window(2)), true));
    let (events, outcome) =
        tracker.reconcile_current(ActivityState::Active, "_NET_ACTIVE_WINDOW changed", at(3));
    assert_eq!(outcome, Ok(()));
    assert_eq!(events.len(), 2);
    assert!(matches!(&events[0], ActivityEvent::IntervalFinished { interval_id: 1, .. }));
    assert!(matches!(&events[1], ActivityEvent::IntervalStarted { interval_id: 2, .. }));
    assert_eq!(send(&mut store, events), 1);

    // Idle keeps its interval even when the focused window changes.
    let idle = tracker.idle_state(Some(301 * SECOND));
    assert_eq!(idle, ActivityState::Idle);
    let (events, _) = tracker.reconcile_current(idle, "periodic sample; idle=301.0s", at(400));
    assert_eq!(events.len(), 2);
    assert_eq!(send(&mut store, events), 1);
    assert!(tracker.adopt_active_window(Some(other_window(3)), false));
    let (events, _) = tracker.reconcile_current(ActivityState::Idle, "x", at(401));
    assert!(events.is_empty());

    let finished = tracker.finish_interval("shutdown", at(500)).unwrap();
    assert!(matches!(&finished, ActivityEvent::IntervalFinished { interval_id: 3, .. }));
    assert_eq!(send(&mut store, vec![finished]), 1);
    assert!(tracker.finish_interval("shutdown", at(501)).is_none());
}

#[test]
fn transient_missing_window_is_ignored_when_asked() {
    let mut tracker = Tracker::new(config());
    tracker.set_current_window(Some(window("one")));
    assert!(!tracker.adopt_active_window(None, true));
    assert!(tracker.current_window().is_some());
    assert!(!tracker.adopt_active_window(Some(window("renamed")), false));
    assert!(tracker.adopt_active_window(None, false));
    assert!(tracker.current_window().is_none());
}

#[test]
fn title_changes_of_the_focused_window_are_reported_and_stored() {
    let mut tracker = Tracker::new(config());
    let mut store = PendingStore::new();
    tracker.set_current_window(Some(window("one")));
    let (events, _) = tracker.reconcile_current(ActivityState::Active, "startup", at(0));
    send(&mut store, events);

    assert!(tracker.watches_title_of(1));
    assert!(!tracker.watches_title_of(2));
    // Unchanged metadata is ignored.
    assert!(tracker.refresh_window_metadata(window("one"), at(1)).is_none());
    let first = tracker.refresh_window_metadata(window("two"), at(1)).unwrap();
    assert!(matches!(&first, ActivityEvent::WindowMetadataChanged { interval_id: 1, .. }));
    assert_eq!(send(&mut store, vec![first]), 0);
    assert!(tracker.refresh_window_metadata(window("three"), at(2)).is_none());
    assert!(tracker.flush_pending_title_update(at(3)).is_none());
    let flushed = tracker.flush_pending_title_update(at(6)).unwrap();
    match &flushed {
        ActivityEvent::WindowMetadataChanged { window, .. } => {
            assert_eq!(window.title.as_deref(), Some("three"))
        }
        _ => panic!("expected a title update"),
    }
    assert_eq!(send(&mut store, vec![flushed]), 0);
}

#[test]
fn a_title_change_waiting_across_an_idle_transition_is_refused_by_the_store() {
    let mut tracker = Tracker::new(config());
    let mut store = PendingStore::new();
    tracker.set_current_window(Some(window("one")));
    let (events, _) = tracker.reconcile_current(ActivityState::Active, "startup", at(0));
    send(&mut store, events);
    let reported = tracker.refresh_window_metadata(window("two"), at(1)).unwrap();
    send(&mut store, vec![reported]);
    assert!(tracker.refresh_window_metadata(window("three"), at(2)).is_none());
    // The user goes idle before the waiting change is flushed.
    let (events, _) = tracker.reconcile_current(ActivityState::Idle, "idle", at(3));
    send(&mut store, events);
    let late = tracker.flush_pending_title_update(at(6)).unwrap();
    assert!(matches!(
        store.record(&late),
        Err(StorageError::UnknownMetadata(1))
    ));
}

#[test]
fn exhausted_ids_have_a_message() {
    assert_eq!(TrackerError::IdsExhausted.message(), "interval identifier space exhausted");
}

#[test]
fn a_change_reported_at_once_supersedes_the_waiting_one() {
    let mut throttle = TitleUpdateThrottle::new(5 * SECOND);
    assert!(throttle.push(1, window("one"), 0).is_some());
    assert!(throttle.push(1, window("two"), SECOND).is_none());
    assert_eq!(
        throttle.push(1, window("three"), 6 * SECOND).map(|update| update.window),
        Some(window("three"))
    );
    assert!(throttle.flush(20 * SECOND).is_none());
}
