use rxtt::cli::{DaemonArgs, SampleIntervalError, SelectionArgs, TitleTestArgs, check_sample_interval};
use rxtt::dispatcher::DispatcherFailure;
use rxtt::paths::{PathError, join_path, state_database_path};

#[test]
fn state_path_prefers_xdg_state_home_and_creates_database() {
    assert_eq!(
        state_database_path(Some("/state"), Some("/home/a")),
        Ok("/state/rxtt/activity.sqlite3".to_owned())
    );
    assert_eq!(
        state_database_path(None, Some("/home/a")),
        Ok("/home/a/.local/state/rxtt/activity.sqlite3".to_owned())
    );
}

#[test]
fn empty_xdg_values_are_ignored_and_missing_home_is_an_error() {
    assert_eq!(
        state_database_path(Some(""), Some("/home/a/")),
        Ok("/home/a/.local/state/rxtt/activity.sqlite3".to_owned())
    );
    assert_eq!(state_database_path(None, None), Err(PathError::StateHomeUnset));
    assert_eq!(
        PathError::StateHomeUnset.message(),
        "cannot determine state directory: HOME is unset"
    );
}

#[test]
fn joining_paths_adds_one_separator() {
    assert_eq!(join_path("/a", "b"), "/a/b");
    assert_eq!(join_path("/a/", "b"), "/a/b");
    assert_eq!(join_path("", "b"), "b");
}

fn daemon(database: Option<&str>) -> DaemonArgs {
    DaemonArgs {
        database: database.map(Into::into),
        idle_threshold: 300_000_000_000,
        sample_interval: 250_000_000,
        title_change_min_interval: 5_000_000_000,
        no_idle: false,
    }
}

#[test]
fn daemon_settings_come_from_the_arguments() {
    let args = daemon(Some("/tmp/activity.sqlite3"));
    assert_eq!(args.database_path(None, None), Ok("/tmp/activity.sqlite3".to_owned()));
    assert_eq!(
        daemon(None).database_path(Some("/s"), None),
        Ok("/s/rxtt/activity.sqlite3".to_owned())
    );
    assert!(args.track_idle());
    let config = args.tracker_config();
    assert_eq!(config.idle_threshold, 300_000_000_000);
    assert_eq!(config.sample_interval, 250_000_000);
    assert_eq!(config.title_change_min_interval, 5_000_000_000);
}

#[test]
fn sample_intervals_must_be_positive_and_fit_poll() {
    assert_eq!(check_sample_interval(0), Err(SampleIntervalError::Zero));
    assert_eq!(check_sample_interval(1), Ok(()));
    assert_eq!(check_sample_interval(2_147_483_647_999_999), Ok(()));
    assert_eq!(check_sample_interval(2_147_483_648_000_000), Err(SampleIntervalError::TooLong));
    assert_eq!(
        SampleIntervalError::TooLong.message(),
        "sample interval exceeds the polling limit"
    );
}

#[test]
fn title_test_verdicts_follow_the_expectation() {
    let args = |expect: Option<&str>| TitleTestArgs {
        app_id: "Firefox".into(),
        title: "(5) Inbox".into(),
        expect: expect.map(Into::into),
    };
    assert_eq!(args(None).verdict("inbox"), (None, 0));
    assert_eq!(args(Some("inbox")).verdict("inbox"), (Some("Expectation: PASS".into()), 0));
    assert_eq!(
        args(Some("mail")).verdict("inbox"),
        (Some("Expectation: FAIL (expected \"mail\")".into()), 1)
    );
}

#[test]
fn selection_database_path_uses_the_default_without_a_path() {
    let selection = SelectionArgs { database: None, since: None, until: None };
    assert_eq!(
        selection.database_path(None, Some("/h")),
        Ok("/h/.local/state/rxtt/activity.sqlite3".to_owned())
    );
}

#[test]
fn the_first_dispatcher_failure_wins() {
    let mut failure = DispatcherFailure::new();
    assert_eq!(failure.error(), None);
    failure.record("disk full");
    failure.record("later");
    assert_eq!(failure.error().as_deref(), Some("disk full"));
}
