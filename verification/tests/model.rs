use rxtt::model::{ActivityEvent, ActivityState, OpenInterval, WallTime, WindowInfo, same_window};

fn window(id: u32, title: &str) -> WindowInfo {
    WindowInfo {
        window_id: id,
        title: Some(title.into()),
        wm_instance: None,
        wm_class: None,
        pid: None,
        executable: None,
    }
}

#[test]
fn app_id_uses_the_specified_fallback_order() {
    let mut info = WindowInfo {
        window_id: 1,
        title: None,
        wm_instance: Some("instance".into()),
        wm_class: Some("class".into()),
        pid: None,
        executable: Some("/usr/bin/example".into()),
    };
    assert_eq!(info.app_id(), "class");
    info.wm_class = None;
    assert_eq!(info.app_id(), "example");
    info.executable = None;
    assert_eq!(info.app_id(), "instance");
    info.wm_instance = None;
    assert_eq!(info.app_id(), "<unknown>");
}

#[test]
fn executable_without_file_name_falls_back_to_the_instance() {
    let info = WindowInfo {
        window_id: 1,
        title: None,
        wm_instance: Some("instance".into()),
        wm_class: None,
        pid: None,
        executable: Some("/usr/bin/..".into()),
    };
    assert_eq!(info.app_id(), "instance");
}

#[test]
fn interval_events_snapshot_start_and_finish_metadata() {
    let started_at = WallTime { seconds: 1_700_000_000, nanos: 5 };
    let interval = OpenInterval {
        id: 42,
        state: ActivityState::Active,
        window: None,
        started_wall: started_at,
        started_mono: 1_000,
    };
    assert!(matches!(
        interval.started_event("startup"),
        ActivityEvent::IntervalStarted {
            interval_id: 42,
            state: ActivityState::Active,
            window: None,
            started_at: event_started_at,
            reason,
        } if event_started_at == started_at && reason == "startup"
    ));
    let ended_at = WallTime { seconds: 1_700_000_003, nanos: 0 };
    assert!(matches!(
        interval.finish_event("shutdown", ended_at, 3_500),
        ActivityEvent::IntervalFinished {
            interval_id: 42,
            state: ActivityState::Active,
            window: None,
            started_at: event_started_at,
            reason,
            ..
        } if event_started_at == started_at && reason == "shutdown"
    ));
}

#[test]
fn finished_duration_is_monotonic_and_never_negative() {
    let make = || OpenInterval {
        id: 1,
        state: ActivityState::Idle,
        window: None,
        started_wall: WallTime { seconds: 0, nanos: 0 },
        started_mono: 1_000,
    };
    let end = WallTime { seconds: 2, nanos: 0 };
    match make().finish_event("x", end, 3_500) {
        ActivityEvent::IntervalFinished { duration_nanos, ended_at, .. } => {
            assert_eq!(duration_nanos, 2_500);
            assert_eq!(ended_at, end);
        }
        _ => panic!("expected a finish event"),
    }
    match make().finish_event("x", end, 10) {
        ActivityEvent::IntervalFinished { duration_nanos, .. } => assert_eq!(duration_nanos, 0),
        _ => panic!("expected a finish event"),
    }
}

#[test]
fn windows_are_the_same_by_id_only() {
    assert!(same_window(&Some(window(1, "a")), &Some(window(1, "b"))));
    assert!(!same_window(&Some(window(1, "a")), &Some(window(2, "a"))));
    assert!(same_window(&None, &None));
    assert!(!same_window(&Some(window(1, "a")), &None));
}

#[test]
fn state_names_are_stored_texts() {
    assert_eq!(ActivityState::Active.as_str(), "active");
    assert_eq!(ActivityState::Idle.as_str(), "idle");
}

#[test]
fn same_info_compares_every_field() {
    let a = window(1, "a");
    assert!(a.same_info(&a.duplicate()));
    assert!(!a.same_info(&window(1, "b")));
}

#[test]
fn executable_names_follow_the_path_components() {
    let name = |path: &str| {
        let mut info = window(1, "t");
        info.wm_class = None;
        info.wm_instance = None;
        info.executable = Some(path.into());
        info.app_id()
    };
    assert_eq!(name("/usr/bin/firefox"), "firefox");
    assert_eq!(name("/usr/bin/"), "bin");
    assert_eq!(name("/usr//bin/./"), "bin");
    assert_eq!(name("/usr/bin/."), "bin");
    assert_eq!(name("./tool"), "tool");
    assert_eq!(name("tool"), "tool");
    assert_eq!(name("/usr/.."), "<unknown>");
    assert_eq!(name("/"), "<unknown>");
    assert_eq!(name(""), "<unknown>");
    assert_eq!(name("."), "<unknown>");
    assert_eq!(name("a/../b"), "b");
}
