use rxtt::model::{ActivityEvent, ActivityState, WallTime, WindowInfo};
use rxtt::storage::{PendingStore, SchemaAction, StorageError, check_report_schema, schema_action};

fn window(title: &str) -> WindowInfo {
    WindowInfo {
        window_id: 99,
        title: Some(title.to_owned()),
        wm_instance: Some("example".to_owned()),
        wm_class: Some("Example".to_owned()),
        pid: Some(123),
        executable: Some("/usr/bin/example".to_owned()),
    }
}

fn timestamp(seconds: i64) -> WallTime {
    WallTime { seconds: 1_735_689_600 + seconds, nanos: 0 }
}

fn start(interval_id: u64, started_at: WallTime, title: &str) -> ActivityEvent {
    ActivityEvent::IntervalStarted {
        interval_id,
        state: ActivityState::Active,
        window: Some(window(title)),
        started_at,
        reason: "start".to_owned(),
    }
}

fn finish(interval_id: u64, started_at: WallTime, ended_at: WallTime, title: &str) -> ActivityEvent {
    ActivityEvent::IntervalFinished {
        interval_id,
        state: ActivityState::Active,
        window: Some(window(title)),
        started_at,
        ended_at,
        duration_nanos: 20_000_000_000,
        reason: "finish".to_owned(),
    }
}

#[test]
fn completed_interval_and_metadata_are_persisted_in_order() {
    let mut storage = PendingStore::new();
    let started_at = timestamp(0);
    assert!(matches!(storage.record(&start(7, started_at, "first")), Ok(None)));
    assert!(matches!(
        storage.record(&ActivityEvent::WindowMetadataChanged {
            interval_id: 7,
            window: window("second"),
            observed_at: timestamp(5),
        }),
        Ok(None)
    ));
    assert!(matches!(
        storage.record(&ActivityEvent::WindowMetadataChanged {
            interval_id: 7,
            window: window("third"),
            observed_at: timestamp(10),
        }),
        Ok(None)
    ));
    let completed = storage.record(&finish(7, started_at, timestamp(20), "first")).unwrap().unwrap();
    assert_eq!(completed.interval.tracker_interval_id, 7);
    assert_eq!(completed.interval.started_at, timestamp(0).seconds);
    assert_eq!(completed.interval.ended_at, timestamp(20).seconds);
    assert_eq!(completed.interval.initial_title.as_deref(), Some("first"));
    assert_eq!(completed.interval.app_id, "Example");
    let titles: Vec<String> =
        completed.metadata.iter().map(|row| row.title.clone().unwrap()).collect();
    assert_eq!(titles, ["second", "third"]);
    assert_eq!(completed.metadata[1].observed_at, timestamp(10).seconds);
}

#[test]
fn unfinished_interval_is_not_persisted() {
    let mut storage = PendingStore::new();
    assert!(matches!(storage.record(&start(1, timestamp(0), "first")), Ok(None)));
}

#[test]
fn events_out_of_order_are_refused() {
    let mut storage = PendingStore::new();
    let started_at = timestamp(0);
    assert!(matches!(
        storage.record(&finish(3, started_at, timestamp(1), "a")),
        Err(StorageError::UnknownFinish(3))
    ));
    assert!(matches!(
        storage.record(&ActivityEvent::WindowMetadataChanged {
            interval_id: 3,
            window: window("a"),
            observed_at: started_at,
        }),
        Err(StorageError::UnknownMetadata(3))
    ));
    assert!(matches!(storage.record(&start(3, started_at, "a")), Ok(None)));
    assert!(matches!(
        storage.record(&start(3, started_at, "a")),
        Err(StorageError::DuplicateStart(3))
    ));
    assert!(matches!(
        storage.record(&finish(3, timestamp(1), timestamp(2), "a")),
        Err(StorageError::FinishMismatch(3))
    ));
    // The mismatching finish still removed the pending interval.
    assert!(matches!(
        storage.record(&finish(3, started_at, timestamp(2), "a")),
        Err(StorageError::UnknownFinish(3))
    ));
}

#[test]
fn ids_beyond_the_database_range_are_refused() {
    let mut storage = PendingStore::new();
    let id = u64::MAX;
    assert!(matches!(storage.record(&start(id, timestamp(0), "a")), Ok(None)));
    let result = storage.record(&finish(id, timestamp(0), timestamp(1), "a"));
    assert!(matches!(result, Err(StorageError::IdOutOfRange(_))));
    assert_eq!(
        StorageError::IdOutOfRange(id).message(),
        "local interval identifier exceeds SQLite integer range"
    );
}

#[test]
fn unsupported_schema_versions_are_rejected() {
    let error = match schema_action(2) {
        Ok(_) => panic!("expected version-2 database to be rejected"),
        Err(error) => error,
    };
    assert!(error.message().contains("unsupported database schema version 2"));
    assert_eq!(schema_action(0), Ok(SchemaAction::Create));
    assert_eq!(schema_action(1), Ok(SchemaAction::Ready));
}

#[test]
fn reports_read_only_version_one() {
    assert_eq!(check_report_schema(1), Ok(()));
    for version in [0, 2, -1] {
        assert!(check_report_schema(version).is_err());
    }
    assert_eq!(
        check_report_schema(0).unwrap_err().message(),
        "unsupported or uninitialized database schema version 0; reporting requires version 1"
    );
}

#[test]
fn error_messages_name_the_interval() {
    assert_eq!(
        StorageError::DuplicateStart(12).message(),
        "duplicate interval start for local id 12"
    );
    assert_eq!(
        StorageError::UnknownMetadata(4).message(),
        "metadata references unknown local interval id 4"
    );
    assert_eq!(
        StorageError::UnknownFinish(5).message(),
        "finish references unknown local interval id 5"
    );
    assert_eq!(
        StorageError::FinishMismatch(6).message(),
        "finish does not match start for local interval id 6"
    );
    assert_eq!(
        StorageError::UnsupportedSchema(-3).message(),
        "unsupported database schema version -3"
    );
}
