use rxtt::model::{ActivityEvent, ActivityState, WallTime, WindowInfo};
use rxtt::output::{ProbeReport, compose_event_line, event_line, render_window};

fn window() -> WindowInfo {
    WindowInfo {
        window_id: 0x1f,
        title: Some("it's".into()),
        wm_instance: Some("navigator".into()),
        wm_class: Some("Firefox".into()),
        pid: Some(42),
        executable: None,
    }
}

#[test]
fn window_description_lists_every_field() {
    assert_eq!(
        render_window(&window()),
        "window id : 0x1f\napp id    : Firefox\nWM_CLASS  : instance='navigator', class='Firefox'\nPID       : 42\nexecutable: None\ntitle     : 'it\\'s'"
    );
}

#[test]
fn event_lines_show_state_window_and_reason() {
    let t = WallTime { seconds: 0, nanos: 0 };
    let started = ActivityEvent::IntervalStarted {
        interval_id: 1,
        state: ActivityState::Active,
        window: Some(window()),
        started_at: t,
        reason: "startup".into(),
    };
    assert_eq!(
        compose_event_line(&started, "T0", "", ""),
        "START    T0  active  app='Firefox' xid=0x1f  title='it\\'s'  reason=startup"
    );
    let idle = ActivityEvent::IntervalStarted {
        interval_id: 2,
        state: ActivityState::Idle,
        window: None,
        started_at: t,
        reason: "idle".into(),
    };
    assert_eq!(compose_event_line(&idle, "T0", "", ""), "START    T0  idle  last_app=None  reason=idle");
    let finished = ActivityEvent::IntervalFinished {
        interval_id: 1,
        state: ActivityState::Active,
        window: Some(window()),
        started_at: t,
        ended_at: t,
        duration_nanos: 0,
        reason: "shutdown".into(),
    };
    assert_eq!(
        compose_event_line(&finished, "T0", "T1", "   1.500"),
        "INTERVAL T0 -> T1  duration=   1.500s  state=active  app='Firefox' xid='0x1f'  reason=shutdown"
    );
    let changed = ActivityEvent::WindowMetadataChanged { interval_id: 1, window: window(), observed_at: t };
    assert_eq!(
        compose_event_line(&changed, "T2", "", ""),
        "WINDOW   T2  metadata_changed  app='Firefox' xid=0x1f  title='it\\'s'"
    );
    assert_eq!(event_line(&ActivityEvent::Status("hello".into()), ""), "hello");
    assert!(event_line(&started, "").starts_with("START    "));
}

fn probe(warnings: Vec<&'static str>) -> ProbeReport {
    ProbeReport {
        session_type: "x11".into(),
        display_name: ":0".into(),
        screen_number: 0,
        root_window: 0x2a,
        window_manager: None,
        active_window_supported: true,
        xss_available: true,
        idle_millis: Some(1_234),
        active_window: None,
        warnings,
    }
}

#[test]
fn probe_report_prints_findings_and_status() {
    let (text, status) = probe(vec![]).render();
    assert_eq!(status, 0);
    assert_eq!(
        text,
        "X11 probe\n---------\nXDG_SESSION_TYPE : x11\nDISPLAY          : :0\nconnected display: :0\nscreen number    : 0\nroot window      : 0x2a\nwindow manager   : <unknown>\n_NET_ACTIVE_WINDOW supported: true\nMIT-SCREEN-SAVER available  : true\ncurrent idle time: 1.234 s\n\nActive window\n-------------\n<none or metadata unavailable>\n\nProbe result: OK"
    );
    let (text, status) = probe(vec!["a", "b"]).render();
    assert_eq!(status, 1);
    assert!(text.ends_with("\n\nProbe result: WARNING\n- a\n- b"));
}

#[test]
fn idle_time_keeps_three_decimals() {
    let mut report = probe(vec![]);
    report.idle_millis = Some(5);
    assert!(report.render().0.contains("current idle time: 0.005 s\n"));
}

#[test]
fn outside_text_in_the_probe_and_event_lines_is_escaped() {
    let mut report = probe(vec![]);
    report.display_name = ":0\x1b[2J".into();
    report.session_type = "x11\n".into();
    report.window_manager = Some("wm\u{202e}".into());
    let mut w = window();
    w.wm_class = Some("Fire\x1bfox".into());
    report.active_window = Some(w.clone());
    let (text, _) = report.render();
    assert!(!text.contains('\x1b'));
    assert!(!text.contains('\u{202e}'));
    assert!(text.contains("DISPLAY          : :0\\u{1b}[2J\n"));
    assert!(text.contains("XDG_SESSION_TYPE : x11\\n\n"));
    assert!(text.contains("app id    : Fire\\u{1b}fox\n"));
    let changed = ActivityEvent::WindowMetadataChanged {
        interval_id: 1,
        window: w,
        observed_at: WallTime { seconds: 0, nanos: 0 },
    };
    let line = compose_event_line(&changed, "T", "", "");
    assert_eq!(line, "WINDOW   T  metadata_changed  app='Fire\\u{1b}fox' xid=0x1f  title='it\\'s'");
}

#[test]
fn event_times_are_rfc3339() {
    let started = ActivityEvent::IntervalStarted {
        interval_id: 1,
        state: ActivityState::Idle,
        window: None,
        started_at: WallTime { seconds: 1_700_000_000, nanos: 0 },
        reason: "r".into(),
    };
    let line = event_line(&started, "");
    let time = &line["START    ".len()..line.find("  idle").unwrap()];
    assert_eq!(time.len(), 25);
    assert_eq!(&time[10..11], "T");
}

#[test]
fn instants_beyond_the_calendar_show_no_time() {
    let far = ActivityEvent::IntervalStarted {
        interval_id: 1,
        state: ActivityState::Idle,
        window: None,
        started_at: WallTime { seconds: i64::MAX, nanos: 0 },
        reason: "idle".into(),
    };
    assert_eq!(event_line(&far, ""), "START      idle  last_app=None  reason=idle");
    let edge = ActivityEvent::IntervalStarted {
        interval_id: 1,
        state: ActivityState::Idle,
        window: None,
        started_at: WallTime { seconds: 8_210_266_876_799, nanos: 0 },
        reason: "idle".into(),
    };
    assert!(event_line(&edge, "").starts_with("START      idle"));
}
