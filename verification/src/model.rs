//! Windows, activity states and the events that describe activity intervals.

use vstd::prelude::*;
use crate::order::option_equal;
use crate::report::opt_text;

verus! {

/// The number a tracker gives each interval it opens.
pub type IntervalId = u64;

/// A wall-clock instant: whole seconds since the Unix epoch and the
/// nanoseconds past them.
#[derive(Debug, Clone, Copy, PartialEq, Eq, Structural)]
pub struct WallTime {
    pub seconds: i64,
    pub nanos: u32,
}

/// What is known of a top-level X11 window.
#[derive(Clone, Debug, PartialEq, Eq)]
pub struct WindowInfo {
    pub window_id: u32,
    pub title: Option<String>,
    pub wm_instance: Option<String>,
    pub wm_class: Option<String>,
    pub pid: Option<u32>,
    pub executable: Option<String>,
}

/// The value of a `WindowInfo`, its texts taken as character sequences.
pub struct WindowView {
    pub window_id: u32,
    pub title: Option<Seq<char>>,
    pub wm_instance: Option<Seq<char>>,
    pub wm_class: Option<Seq<char>>,
    pub pid: Option<u32>,
    pub executable: Option<Seq<char>>,
}

impl View for WindowInfo {
    type V = WindowView;

    open spec fn view(&self) -> WindowView {
        WindowView {
            window_id: self.window_id,
            title: opt_text(self.title),
            wm_instance: opt_text(self.wm_instance),
            wm_class: opt_text(self.wm_class),
            pid: self.pid,
            executable: opt_text(self.executable),
        }
    }
}

/// The value of an optional window.
pub open spec fn window_view(window: Option<WindowInfo>) -> Option<WindowView> {
    match window {
        Some(w) => Some(w@),
        None => None,
    }
}

/// The pieces of a path between its `/` separators, empty pieces included.
pub open spec fn path_segments(path: Seq<char>) -> Seq<Seq<char>>
    decreases path.len(),
{
    if path.len() == 0 {
        seq![Seq::empty()]
    } else {
        let rest = path_segments(path.drop_last());
        if path.last() == '/' {
            rest.push(Seq::empty())
        } else {
            rest.update(rest.len() - 1, rest.last().push(path.last()))
        }
    }
}

/// The named components of a Unix path, as `Path::components` documents
/// them: repeated and trailing separators are ignored and `.` is normalized
/// away (the root and a leading `.` are components too, but never the last
/// named one).
pub open spec fn path_components(path: Seq<char>) -> Seq<Seq<char>> {
    path_segments(path).filter(|piece: Seq<char>| piece.len() > 0 && piece != seq!['.'])
}

/// The final component of a path as `std::path::Path::file_name` documents
/// it: the last named component, nothing when there is none (the root, an
/// empty path, `.`) or when it is `..`.
pub open spec fn path_file_name(path: Seq<char>) -> Option<Seq<char>> {
    let components = path_components(path);
    if components.len() == 0 || components.last() == seq!['.', '.'] {
        None
    } else {
        Some(components.last())
    }
}

/// `std::path::Path::file_name` of a path given as text, converted back to
/// text (a piece of valid UTF-8, so nothing is lost). Its result is claimed
/// to be `path_file_name` of the path, as std documents `file_name` and
/// `components` for Unix paths.
#[verifier::external_body]
fn file_name_of(path: &str) -> (name: Option<String>)
    ensures
        opt_text(name) == path_file_name(path@),
{
    match std::path::Path::new(path).file_name() {
        Some(n) => Some(n.to_string_lossy().into_owned()),
        None => None,
    }
}

/// The placeholder application name `<unknown>`.
pub open spec fn unknown_app() -> Seq<char> {
    seq!['<', 'u', 'n', 'k', 'n', 'o', 'w', 'n', '>']
}

/// The application a window belongs to: its `WM_CLASS` class, else the file
/// name of its executable, else its `WM_CLASS` instance, else `<unknown>`.
pub open spec fn app_id_of(window: WindowView) -> Seq<char> {
    match window.wm_class {
        Some(class) => class,
        None => match (match window.executable {
            Some(path) => path_file_name(path),
            None => None,
        }) {
            Some(name) => name,
            None => match window.wm_instance {
                Some(instance) => instance,
                None => unknown_app(),
            },
        },
    }
}

fn clone_text(o: &Option<String>) -> (c: Option<String>)
    ensures
        opt_text(c) == opt_text(*o),
{
    match o {
        Some(s) => Some(s.clone()),
        None => None,
    }
}

/// The text `<unknown>`.
pub fn unknown_app_text() -> (text: String)
    ensures
        text@ == unknown_app(),
{
    let literal = "<unknown>";
    proof {
        reveal_strlit("<unknown>");
    }
    let text = literal.to_owned();
    assert(text@ =~= unknown_app());
    text
}

impl WindowInfo {
    /// The application identifier of the window (see `app_id_of`).
    pub fn app_id(&self) -> (id: String)
        ensures
            id@ == app_id_of(self@),
    {
        match &self.wm_class {
            Some(class) => class.clone(),
            None => {
                let from_executable = match &self.executable {
                    Some(path) => file_name_of(path.as_str()),
                    None => None,
                };
                match from_executable {
                    Some(name) => name,
                    None => match &self.wm_instance {
                        Some(instance) => instance.clone(),
                        None => unknown_app_text(),
                    },
                }
            },
        }
    }

    /// A copy of the window with the same value.
    pub fn duplicate(&self) -> (copy: WindowInfo)
        ensures
            copy@ == self@,
    {
        WindowInfo {
            window_id: self.window_id,
            title: clone_text(&self.title),
            wm_instance: clone_text(&self.wm_instance),
            wm_class: clone_text(&self.wm_class),
            pid: self.pid,
            executable: clone_text(&self.executable),
        }
    }

    /// The two descriptions agree in every field.
    pub fn same_info(&self, other: &WindowInfo) -> (same: bool)
        ensures
            same == (self@ == other@),
    {
        self.window_id == other.window_id && option_equal(&self.title, &other.title)
            && option_equal(&self.wm_instance, &other.wm_instance) && option_equal(
            &self.wm_class,
            &other.wm_class,
        ) && self.pid == other.pid && option_equal(&self.executable, &other.executable)
    }
}

/// A copy of an optional window with the same value.
pub fn duplicate_window(window: &Option<WindowInfo>) -> (copy: Option<WindowInfo>)
    ensures
        window_view(copy) == window_view(*window),
{
    match window {
        Some(w) => Some(w.duplicate()),
        None => None,
    }
}

/// Two optional windows describe the same description, field by field.
pub fn same_window_info(left: &Option<WindowInfo>, right: &Option<WindowInfo>) -> (same: bool)
    ensures
        same == (window_view(*left) == window_view(*right)),
{
    match (left, right) {
        (Some(a), Some(b)) => a.same_info(b),
        (None, None) => true,
        _ => false,
    }
}

/// Whether the user is at the machine.
#[derive(Clone, Copy, Debug, PartialEq, Eq, Structural)]
pub enum ActivityState {
    Active,
    Idle,
}

/// The name under which a state is stored and shown.
pub open spec fn state_name(state: ActivityState) -> Seq<char> {
    match state {
        ActivityState::Active => seq!['a', 'c', 't', 'i', 'v', 'e'],
        ActivityState::Idle => seq!['i', 'd', 'l', 'e'],
    }
}

impl ActivityState {
    /// `active` or `idle`.
    pub fn as_str(self) -> (name: &'static str)
        ensures
            name@ == state_name(self),
    {
        match self {
            ActivityState::Active => {
                let name = "active";
                proof {
                    reveal_strlit("active");
                }
                name
            },
            ActivityState::Idle => {
                let name = "idle";
                proof {
                    reveal_strlit("idle");
                }
                name
            },
        }
    }
}

/// Both are windows with the same X11 id, or both are no window.
pub open spec fn same_window_spec(left: Option<WindowView>, right: Option<WindowView>) -> bool {
    match (left, right) {
        (Some(a), Some(b)) => a.window_id == b.window_id,
        (None, None) => true,
        _ => false,
    }
}

/// Compares two optional windows by X11 window id.
pub fn same_window(left: &Option<WindowInfo>, right: &Option<WindowInfo>) -> (same: bool)
    ensures
        same == same_window_spec(window_view(*left), window_view(*right)),
{
    match (left, right) {
        (Some(a), Some(b)) => a.window_id == b.window_id,
        (None, None) => true,
        _ => false,
    }
}

/// A reading of both clocks: the wall clock and the monotonic clock, the
/// latter in nanoseconds from an arbitrary origin.
#[derive(Debug, Clone, Copy, PartialEq, Eq, Structural)]
pub struct Clock {
    pub wall: WallTime,
    pub mono: u128,
}

/// An interval the tracker has opened and not yet finished. `started_mono`
/// is its start on the monotonic clock, in nanoseconds.
pub struct OpenInterval {
    pub id: IntervalId,
    pub state: ActivityState,
    pub window: Option<WindowInfo>,
    pub started_wall: WallTime,
    pub started_mono: u128,
}

/// What the tracker reports about intervals, in the order it happens.
#[derive(Debug)]
pub enum ActivityEvent {
    IntervalStarted {
        interval_id: IntervalId,
        state: ActivityState,
        window: Option<WindowInfo>,
        started_at: WallTime,
        reason: String,
    },
    IntervalFinished {
        interval_id: IntervalId,
        state: ActivityState,
        window: Option<WindowInfo>,
        started_at: WallTime,
        ended_at: WallTime,
        duration_nanos: u128,
        reason: String,
    },
    WindowMetadataChanged { interval_id: IntervalId, window: WindowInfo, observed_at: WallTime },
    Status(String),
}

/// The value of an `ActivityEvent`.
pub enum EventView {
    Started {
        interval_id: IntervalId,
        state: ActivityState,
        window: Option<WindowView>,
        started_at: WallTime,
        reason: Seq<char>,
    },
    Finished {
        interval_id: IntervalId,
        state: ActivityState,
        window: Option<WindowView>,
        started_at: WallTime,
        ended_at: WallTime,
        duration_nanos: u128,
        reason: Seq<char>,
    },
    Metadata { interval_id: IntervalId, window: WindowView, observed_at: WallTime },
    Status(Seq<char>),
}

impl View for ActivityEvent {
    type V = EventView;

    open spec fn view(&self) -> EventView {
        match self {
            ActivityEvent::IntervalStarted { interval_id, state, window, started_at, reason } =>
                EventView::Started {
                interval_id: *interval_id,
                state: *state,
                window: window_view(*window),
                started_at: *started_at,
                reason: reason@,
            },
            ActivityEvent::IntervalFinished {
                interval_id,
                state,
                window,
                started_at,
                ended_at,
                duration_nanos,
                reason,
            } => EventView::Finished {
                interval_id: *interval_id,
                state: *state,
                window: window_view(*window),
                started_at: *started_at,
                ended_at: *ended_at,
                duration_nanos: *duration_nanos,
                reason: reason@,
            },
            ActivityEvent::WindowMetadataChanged { interval_id, window, observed_at } =>
                EventView::Metadata {
                interval_id: *interval_id,
                window: window@,
                observed_at: *observed_at,
            },
            ActivityEvent::Status(message) => EventView::Status(message@),
        }
    }
}

/// The value of an open interval.
pub struct IntervalView {
    pub id: IntervalId,
    pub state: ActivityState,
    pub window: Option<WindowView>,
    pub started_wall: WallTime,
    pub started_mono: u128,
}

impl View for OpenInterval {
    type V = IntervalView;

    open spec fn view(&self) -> IntervalView {
        IntervalView {
            id: self.id,
            state: self.state,
            window: window_view(self.window),
            started_wall: self.started_wall,
            started_mono: self.started_mono,
        }
    }
}

/// The event that announces an interval.
pub open spec fn started_view(interval: IntervalView, reason: Seq<char>) -> EventView {
    EventView::Started {
        interval_id: interval.id,
        state: interval.state,
        window: interval.window,
        started_at: interval.started_wall,
        reason: reason,
    }
}

/// The event that closes an interval at wall time `ended_at`, when the
/// monotonic clock reads `now_mono`.
pub open spec fn finished_view(
    interval: IntervalView,
    reason: Seq<char>,
    ended_at: WallTime,
    now_mono: u128,
) -> EventView {
    EventView::Finished {
        interval_id: interval.id,
        state: interval.state,
        window: interval.window,
        started_at: interval.started_wall,
        ended_at: ended_at,
        duration_nanos: elapsed_nanos(interval.started_mono, now_mono),
        reason: reason,
    }
}

/// The monotonic time from `start` to `now`, or zero when `now` is earlier.
pub open spec fn elapsed_nanos(start: u128, now: u128) -> u128 {
    if now >= start {
        (now - start) as u128
    } else {
        0
    }
}

impl OpenInterval {
    /// The event that announces this interval.
    pub fn started_event(&self, reason: &str) -> (event: ActivityEvent)
        ensures
            event@ == started_view(self@, reason@),
    {
        ActivityEvent::IntervalStarted {
            interval_id: self.id,
            state: self.state,
            window: duplicate_window(&self.window),
            started_at: self.started_wall,
            reason: reason.to_owned(),
        }
    }

    /// The event that closes this interval at wall time `ended_at`, when the
    /// monotonic clock reads `now_mono`.
    pub fn finish_event(self, reason: &str, ended_at: WallTime, now_mono: u128) -> (event:
        ActivityEvent)
        ensures
            event@ == finished_view(self@, reason@, ended_at, now_mono),
    {
        let duration_nanos = if now_mono >= self.started_mono {
            now_mono - self.started_mono
        } else {
            0
        };
        ActivityEvent::IntervalFinished {
            interval_id: self.id,
            state: self.state,
            window: self.window,
            started_at: self.started_wall,
            ended_at,
            duration_nanos,
            reason: reason.to_owned(),
        }
    }
}

} // verus!
