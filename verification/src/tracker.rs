//! The tracker's decisions: when an interval ends and the next begins, and
//! which window-title changes are reported. The program around the library
//! reads X11 and the clocks, hands the readings to these functions, and
//! sends the events they return.

use vstd::prelude::*;
use crate::model::{
    ActivityEvent, ActivityState, Clock, EventView, IntervalView, OpenInterval, WindowInfo,
    WindowView, elapsed_nanos, finished_view, same_window, same_window_spec, started_view,
    window_view,
};

verus! {

/// The tracker's timing settings, in nanoseconds.
#[derive(Debug, Clone, Copy)]
pub struct TrackerConfig {
    pub idle_threshold: u128,
    pub sample_interval: u128,
    pub title_change_min_interval: u128,
}

/// A window-title change waiting to be reported.
pub struct PendingTitleUpdate {
    pub interval_id: u64,
    pub window: WindowInfo,
}

/// The value of a title update: its interval and window.
pub open spec fn update_view(update: Option<PendingTitleUpdate>) -> Option<(u64, WindowView)> {
    match update {
        Some(u) => Some((u.interval_id, u.window@)),
        None => None,
    }
}

/// Limits title-change reports to one per minimum interval and keeps the
/// latest change that had to wait. Times are monotonic nanoseconds.
pub struct TitleUpdateThrottle {
    minimum_interval: u128,
    last_emitted_at: Option<u128>,
    pending: Option<PendingTitleUpdate>,
}

/// The value of a throttle.
pub struct ThrottleView {
    pub minimum_interval: u128,
    pub last_emitted_at: Option<u128>,
    pub pending: Option<(u64, WindowView)>,
}

impl View for TitleUpdateThrottle {
    type V = ThrottleView;

    closed spec fn view(&self) -> ThrottleView {
        ThrottleView {
            minimum_interval: self.minimum_interval,
            last_emitted_at: self.last_emitted_at,
            pending: update_view(self.pending),
        }
    }
}

/// A throttle that has reported nothing yet.
pub open spec fn fresh_throttle(minimum_interval: u128) -> ThrottleView {
    ThrottleView { minimum_interval, last_emitted_at: None, pending: None }
}

/// A change seen at `now` may be reported at once: nothing was reported
/// since the last reset, or the minimum interval has passed since then.
pub open spec fn push_due(t: ThrottleView, now: u128) -> bool {
    match t.last_emitted_at {
        None => true,
        Some(last) => elapsed_nanos(last, now) >= t.minimum_interval,
    }
}

/// A change pushed at `now`: reported at once when due (the report time is
/// remembered and an older waiting change is dropped, being superseded),
/// otherwise kept as the waiting change in place of any earlier one.
pub open spec fn push_spec(t: ThrottleView, interval_id: u64, window: WindowView, now: u128) -> (
    ThrottleView,
    Option<(u64, WindowView)>,
) {
    if push_due(t, now) {
        (
            ThrottleView { last_emitted_at: Some(now), pending: None, ..t },
            Some((interval_id, window)),
        )
    } else {
        (ThrottleView { pending: Some((interval_id, window)), ..t }, None)
    }
}

/// A flush at `now`: within the minimum interval of the last report nothing
/// happens; otherwise the waiting change, if any, is reported now.
pub open spec fn flush_spec(t: ThrottleView, now: u128) -> (ThrottleView, Option<(u64, WindowView)>) {
    if t.last_emitted_at is Some && elapsed_nanos(t.last_emitted_at->0, now) < t.minimum_interval {
        (t, None)
    } else {
        match t.pending {
            None => (t, None),
            Some(p) => (ThrottleView { last_emitted_at: Some(now), pending: None, ..t }, Some(p)),
        }
    }
}

impl TitleUpdateThrottle {
    /// A throttle with the given minimum interval that has reported nothing.
    pub fn new(minimum_interval: u128) -> (throttle: Self)
        ensures
            throttle@ == fresh_throttle(minimum_interval),
    {
        TitleUpdateThrottle { minimum_interval, last_emitted_at: None, pending: None }
    }

    /// Forgets the last report and the waiting change.
    pub fn reset(&mut self)
        ensures
            final(self)@ == fresh_throttle(old(self)@.minimum_interval),
    {
        self.last_emitted_at = None;
        self.pending = None;
    }

    /// Offers a change seen at `now`; returns it when it is to be reported
    /// at once (see `push_spec`).
    pub fn push(&mut self, interval_id: u64, window: WindowInfo, now: u128) -> (update: Option<
        PendingTitleUpdate,
    >)
        ensures
            (final(self)@, update_view(update)) == push_spec(old(self)@, interval_id, window@, now),
    {
        let due = match self.last_emitted_at {
            None => true,
            Some(last) => {
                let since = if now >= last {
                    now - last
                } else {
                    0
                };
                since >= self.minimum_interval
            },
        };
        if due {
            self.last_emitted_at = Some(now);
            self.pending = None;
            return Some(PendingTitleUpdate { interval_id, window });
        }
        self.pending = Some(PendingTitleUpdate { interval_id, window });
        None
    }

    /// Reports the waiting change once the minimum interval has passed since
    /// the last report (see `flush_spec`).
    pub fn flush(&mut self, now: u128) -> (update: Option<PendingTitleUpdate>)
        ensures
            (final(self)@, update_view(update)) == flush_spec(old(self)@, now),
    {
        match self.last_emitted_at {
            Some(last) => {
                let since = if now >= last {
                    now - last
                } else {
                    0
                };
                if since < self.minimum_interval {
                    return None;
                }
            },
            None => {},
        }
        match self.pending.take() {
            None => None,
            Some(pending) => {
                self.last_emitted_at = Some(now);
                Some(pending)
            },
        }
    }
}

/// A change that had to wait is reported by the first flush at least the
/// minimum interval after the report that made it wait.
pub proof fn law_waiting_change_is_flushed(
    t: ThrottleView,
    interval_id: u64,
    window: WindowView,
    pushed_at: u128,
    flushed_at: u128,
)
    requires
        !push_due(t, pushed_at),
        flushed_at >= t.last_emitted_at->0 + t.minimum_interval,
    ensures
        flush_spec(push_spec(t, interval_id, window, pushed_at).0, flushed_at).1 == Some(
            (interval_id, window),
        ),
{
}

/// Reports are spaced: whenever a push or a flush reports a change at a time
/// not earlier than the last report, at least the minimum interval has
/// passed since that report.
pub proof fn law_reports_are_spaced(t: ThrottleView, interval_id: u64, window: WindowView, now: u128)
    requires
        t.last_emitted_at is Some,
        now >= t.last_emitted_at->0,
    ensures
        push_spec(t, interval_id, window, now).1 is Some ==> now - t.last_emitted_at->0
            >= t.minimum_interval,
        flush_spec(t, now).1 is Some ==> now - t.last_emitted_at->0 >= t.minimum_interval,
{
}

/// A change reported at once supersedes any change that was waiting: no
/// later flush reports the older title.
pub proof fn law_reported_change_supersedes_waiting(
    t: ThrottleView,
    interval_id: u64,
    window: WindowView,
    now: u128,
    later: u128,
)
    requires
        push_due(t, now),
    ensures
        flush_spec(push_spec(t, interval_id, window, now).0, later).1 is None,
{
}

/// The first change after a reset, or after the throttle was made, is
/// reported at once.
pub proof fn law_first_change_is_reported(minimum_interval: u128, interval_id: u64, window: WindowView, now: u128)
    ensures
        push_spec(fresh_throttle(minimum_interval), interval_id, window, now).1 == Some(
            (interval_id, window),
        ),
{
}

/// One call on a throttle, `push` or `flush`, with its arguments. Both
/// methods ensure exactly the transition `apply_call` gives, so a run of
/// calls is what a sequence of those method calls does.
pub enum ThrottleCall {
    Push(u64, WindowView, u128),
    Flush(u128),
}

/// The time of a call.
pub open spec fn call_time(call: ThrottleCall) -> u128 {
    match call {
        ThrottleCall::Push(_, _, now) => now,
        ThrottleCall::Flush(now) => now,
    }
}

/// One call's effect and report.
pub open spec fn apply_call(t: ThrottleView, call: ThrottleCall) -> (ThrottleView, Option<(u64, WindowView)>) {
    match call {
        ThrottleCall::Push(id, w, now) => push_spec(t, id, w, now),
        ThrottleCall::Flush(now) => flush_spec(t, now),
    }
}

/// The throttle after the calls, in order.
pub open spec fn run_calls(t: ThrottleView, calls: Seq<ThrottleCall>) -> ThrottleView
    decreases calls.len(),
{
    if calls.len() == 0 {
        t
    } else {
        apply_call(run_calls(t, calls.drop_last()), calls.last()).0
    }
}

/// The times of the calls that reported a change, in order.
pub open spec fn report_times(t: ThrottleView, calls: Seq<ThrottleCall>) -> Seq<u128>
    decreases calls.len(),
{
    if calls.len() == 0 {
        Seq::empty()
    } else {
        let before = report_times(t, calls.drop_last());
        if apply_call(run_calls(t, calls.drop_last()), calls.last()).1 is Some {
            before.push(call_time(calls.last()))
        } else {
            before
        }
    }
}

/// Over any sequence of pushes and flushes with non-decreasing times (and no
/// reset), reports are at least the minimum interval apart, and the first
/// one is that far from the report before the sequence, if there was one.
pub proof fn law_reports_are_spaced_over_calls(t: ThrottleView, calls: Seq<ThrottleCall>)
    requires
        forall|i: int, j: int|
            0 <= i < j < calls.len() ==> call_time(#[trigger] calls[i]) <= call_time(#[trigger] calls[j]),
        forall|i: int|
            0 <= i < calls.len() && t.last_emitted_at is Some ==> t.last_emitted_at->0 <= call_time(
                #[trigger] calls[i],
            ),
    ensures
        forall|i: int|
            0 <= i < report_times(t, calls).len() - 1 ==> #[trigger] report_times(t, calls)[i + 1]
                - report_times(t, calls)[i] >= t.minimum_interval,
        report_times(t, calls).len() > 0 && t.last_emitted_at is Some ==> report_times(t, calls)[0]
            - t.last_emitted_at->0 >= t.minimum_interval,
        report_times(t, calls).len() > 0 ==> run_calls(t, calls).last_emitted_at == Some(
            report_times(t, calls).last(),
        ),
        report_times(t, calls).len() == 0 ==> run_calls(t, calls).last_emitted_at == t.last_emitted_at,
        calls.len() > 0 && run_calls(t, calls).last_emitted_at is Some ==> run_calls(
            t,
            calls,
        ).last_emitted_at->0 <= call_time(calls.last()),
        run_calls(t, calls).minimum_interval == t.minimum_interval,
    decreases calls.len(),
{
    if calls.len() > 0 {
        let prefix = calls.drop_last();
        assert forall|i: int, j: int| 0 <= i < j < prefix.len() implies call_time(#[trigger] prefix[i])
            <= call_time(#[trigger] prefix[j]) by {
            assert(prefix[i] == calls[i] && prefix[j] == calls[j]);
        }
        assert forall|i: int| 0 <= i < prefix.len() && t.last_emitted_at is Some implies t.last_emitted_at->0
            <= call_time(#[trigger] prefix[i]) by {
            assert(prefix[i] == calls[i]);
        }
        law_reports_are_spaced_over_calls(t, prefix);
        let before = run_calls(t, prefix);
        let c = calls.last();
        let tau = call_time(c);
        if prefix.len() > 0 {
            assert(call_time(prefix.last()) <= tau) by {
                assert(prefix.last() == calls[calls.len() - 2]);
            }
        } else {
            if t.last_emitted_at is Some {
                assert(t.last_emitted_at->0 <= call_time(calls[0]));
            }
        }
        let rp = report_times(t, prefix);
        let r = report_times(t, calls);
        if apply_call(before, c).1 is Some {
            assert(r == rp.push(tau));
            assert forall|i: int| 0 <= i < r.len() - 1 implies #[trigger] r[i + 1] - r[i] >= t.minimum_interval by {
                if i + 1 < rp.len() {
                    assert(r[i] == rp[i] && r[i + 1] == rp[i + 1]);
                } else {
                    assert(r[i] == rp.last());
                }
            }
        } else {
            assert(r == rp);
        }
    }
}

/// Why the tracker stops.
#[derive(Debug, Clone, Copy, PartialEq, Eq, Structural)]
pub enum TrackerError {
    /// Every interval id has been used.
    IdsExhausted,
}

impl TrackerError {
    /// The message shown for the error.
    pub fn message(&self) -> (text: String)
        ensures
            text@ == "interval identifier space exhausted"@,
    {
        "interval identifier space exhausted".to_owned()
    }
}

/// The decisions of the activity tracker: the focused window it knows of,
/// the interval it has open, the next interval id and the title throttle.
pub struct Tracker {
    config: TrackerConfig,
    current_window: Option<WindowInfo>,
    interval: Option<OpenInterval>,
    next_interval_id: u64,
    title_updates: TitleUpdateThrottle,
}

/// The value of a tracker.
pub struct TrackerView {
    pub config: TrackerConfig,
    pub current_window: Option<WindowView>,
    pub interval: Option<IntervalView>,
    pub next_interval_id: u64,
    pub title_updates: ThrottleView,
}

/// The value of an optional open interval.
pub open spec fn interval_view(interval: Option<OpenInterval>) -> Option<IntervalView> {
    match interval {
        Some(i) => Some(i@),
        None => None,
    }
}

/// The values of a sequence of events.
pub open spec fn events_view(events: Seq<ActivityEvent>) -> Seq<EventView> {
    events.map_values(|e: ActivityEvent| e@)
}

/// The value of an optional event.
pub open spec fn event_view(event: Option<ActivityEvent>) -> Option<EventView> {
    match event {
        Some(e) => Some(e@),
        None => None,
    }
}

impl View for Tracker {
    type V = TrackerView;

    closed spec fn view(&self) -> TrackerView {
        TrackerView {
            config: self.config,
            current_window: window_view(self.current_window),
            interval: interval_view(self.interval),
            next_interval_id: self.next_interval_id,
            title_updates: self.title_updates@,
        }
    }
}

/// The tracker's invariant: ids start at 1 and the open interval's id was
/// handed out before the next one.
pub open spec fn tracker_wf(t: TrackerView) -> bool {
    &&& t.next_interval_id >= 1
    &&& t.interval is Some ==> t.interval->0.id < t.next_interval_id
    &&& t.title_updates.minimum_interval == t.config.title_change_min_interval
}

/// A tracker that has seen nothing yet.
pub open spec fn initial_tracker(config: TrackerConfig) -> TrackerView {
    TrackerView {
        config,
        current_window: None,
        interval: None,
        next_interval_id: 1,
        title_updates: fresh_throttle(config.title_change_min_interval),
    }
}

/// Closing the open interval, if any, at `now`.
pub open spec fn finish_spec(t: TrackerView, reason: Seq<char>, now: Clock) -> (
    TrackerView,
    Option<EventView>,
) {
    match t.interval {
        Some(i) => (
            TrackerView { interval: None, ..t },
            Some(finished_view(i, reason, now.wall, now.mono)),
        ),
        None => (t, None),
    }
}

/// The open interval already records `state` for `window`: same state and,
/// when active, the same window.
pub open spec fn keeps_interval(t: TrackerView, state: ActivityState, window: Option<WindowView>) -> bool {
    &&& t.interval is Some
    &&& t.interval->0.state == state
    &&& (state == ActivityState::Idle || same_window_spec(t.interval->0.window, window))
}

/// The interval opened for `state` and `window` at `now` with the next id.
pub open spec fn opened_interval(
    t: TrackerView,
    state: ActivityState,
    window: Option<WindowView>,
    now: Clock,
) -> IntervalView {
    IntervalView {
        id: t.next_interval_id,
        state,
        window,
        started_wall: now.wall,
        started_mono: now.mono,
    }
}

/// Bringing the open interval in line with `state` and `window`: nothing
/// changes when it already records them; otherwise it is finished and a new
/// interval opened with the next id, unless the ids are used up.
pub open spec fn reconcile_spec(
    t: TrackerView,
    state: ActivityState,
    window: Option<WindowView>,
    reason: Seq<char>,
    now: Clock,
) -> (TrackerView, Seq<EventView>, Result<(), TrackerError>) {
    if keeps_interval(t, state, window) {
        (t, Seq::empty(), Ok(()))
    } else {
        let (t1, finished) = finish_spec(t, reason, now);
        let events = match finished {
            Some(e) => seq![e],
            None => Seq::empty(),
        };
        if t1.next_interval_id == u64::MAX {
            (t1, events, Err(TrackerError::IdsExhausted))
        } else {
            let opened = opened_interval(t1, state, window, now);
            (
                TrackerView {
                    interval: Some(opened),
                    next_interval_id: (t1.next_interval_id + 1) as u64,
                    ..t1
                },
                events.push(started_view(opened, reason)),
                Ok(()),
            )
        }
    }
}

/// A reading is the open interval's own: the same state and, when active,
/// a window with the same X11 window id (or no window on both sides).
pub open spec fn reading_matches(interval: IntervalView, state: ActivityState, window: Option<WindowView>) -> bool {
    &&& interval.state == state
    &&& (state == ActivityState::Idle || match (interval.window, window) {
        (Some(a), Some(b)) => a.window_id == b.window_id,
        (None, None) => true,
        _ => false,
    })
}

/// Reconciling keeps the open interval exactly when the reading is its own
/// (`reading_matches`: for an active reading, the window with the same X11
/// window id); then nothing is sent. Otherwise the open interval, if any,
/// is finished and a new one is started for the reading with the next id:
/// the events are that finish (naming the old interval) and then that start
/// (naming the new window), and the new interval is the open one.
pub proof fn law_reconcile_follows_the_window_id(
    t: TrackerView,
    state: ActivityState,
    window: Option<WindowView>,
    reason: Seq<char>,
    now: Clock,
)
    requires
        tracker_wf(t),
        t.next_interval_id < u64::MAX,
    ensures
        ({
            let (after, events, outcome) = reconcile_spec(t, state, window, reason, now);
            let kept = t.interval is Some && reading_matches(t.interval->0, state, window);
            &&& outcome is Ok
            &&& kept ==> events.len() == 0 && after == t
            &&& !kept ==> {
                &&& events.len() == if t.interval is Some { 2int } else { 1int }
                &&& t.interval is Some ==> (events[0] is Finished && events[0]->Finished_interval_id
                    == t.interval->0.id && events[0]->Finished_window == t.interval->0.window)
                &&& events.last() is Started
                &&& events.last()->Started_interval_id == t.next_interval_id
                &&& events.last()->Started_state == state
                &&& events.last()->Started_window == window
                &&& after.interval is Some
                &&& after.interval->0.id == t.next_interval_id
                &&& after.interval->0.state == state
                &&& after.interval->0.window == window
                &&& after.next_interval_id == t.next_interval_id + 1
            }
        }),
{
    let (after, events, outcome) = reconcile_spec(t, state, window, reason, now);
    if t.interval is Some {
        let i = t.interval->0;
        assert(keeps_interval(t, state, window) == reading_matches(i, state, window));
    }
}

/// Interval ids only grow: a reconciliation that opens an interval gives it
/// the next id and moves the next id past it, and none is handed out twice.
pub proof fn law_interval_ids_increase(
    t: TrackerView,
    state: ActivityState,
    window: Option<WindowView>,
    reason: Seq<char>,
    now: Clock,
)
    requires
        tracker_wf(t),
    ensures
        ({
            let (after, events, _) = reconcile_spec(t, state, window, reason, now);
            &&& after.next_interval_id >= t.next_interval_id
            &&& tracker_wf(after)
            &&& forall|i: int|
                0 <= i < events.len() && #[trigger] events[i] is Started ==> events[i]->Started_interval_id
                    == t.next_interval_id && after.next_interval_id
                    == events[i]->Started_interval_id + 1
        }),
{
    let (after, events, _) = reconcile_spec(t, state, window, reason, now);
    if !keeps_interval(t, state, window) {
        let (t1, finished) = finish_spec(t, reason, now);
        assert forall|i: int|
            0 <= i < events.len() && #[trigger] events[i] is Started implies events[i]->Started_interval_id
                == t.next_interval_id && after.next_interval_id == events[i]->Started_interval_id
                + 1 by {
            match finished {
                Some(e) => {
                    assert(e is Finished);
                },
                None => {},
            }
        }
    }
}

/// The state an idle reading stands for: idle once the user has been away
/// for at least the threshold.
pub open spec fn idle_state_spec(config: TrackerConfig, idle: Option<u128>) -> ActivityState {
    match idle {
        Some(i) => if i >= config.idle_threshold {
            ActivityState::Idle
        } else {
            ActivityState::Active
        },
        None => ActivityState::Active,
    }
}

/// Taking a newly read focused window: a transient missing window is
/// ignored when asked, the same window (by id) changes nothing, and another
/// window replaces the known one and resets the title throttle. The flag
/// says whether the window was replaced.
pub open spec fn adopt_spec(t: TrackerView, window: Option<WindowView>, ignore_transient_none: bool) -> (
    TrackerView,
    bool,
) {
    if ignore_transient_none && window is None {
        (t, false)
    } else if same_window_spec(t.current_window, window) {
        (t, false)
    } else {
        (
            TrackerView {
                current_window: window,
                title_updates: fresh_throttle(t.title_updates.minimum_interval),
                ..t
            },
            true,
        )
    }
}

/// The tracker follows the title of this window: it is the focused one.
pub open spec fn watches(t: TrackerView, window_id: u32) -> bool {
    t.current_window is Some && t.current_window->0.window_id == window_id
}

/// The event of a title update reported at `now`.
pub open spec fn update_event(update: Option<(u64, WindowView)>, now: Clock) -> Option<EventView> {
    match update {
        Some(u) => Some(EventView::Metadata { interval_id: u.0, window: u.1, observed_at: now.wall }),
        None => None,
    }
}

/// Taking freshly read metadata of a window: ignored unless it is the
/// focused window, unchanged, and an interval is open; otherwise it becomes
/// the known window and is offered to the throttle under the open
/// interval's id.
pub open spec fn metadata_spec(t: TrackerView, updated: WindowView, now: Clock) -> (
    TrackerView,
    Option<EventView>,
) {
    if !watches(t, updated.window_id) || t.current_window == Some(updated) || t.interval is None {
        (t, None)
    } else {
        let (throttle, update) = push_spec(t.title_updates, t.interval->0.id, updated, now.mono);
        (
            TrackerView { current_window: Some(updated), title_updates: throttle, ..t },
            update_event(update, now),
        )
    }
}

/// Reporting a waiting title change once the throttle allows it.
pub open spec fn tracker_flush_spec(t: TrackerView, now: Clock) -> (TrackerView, Option<EventView>) {
    let (throttle, update) = flush_spec(t.title_updates, now.mono);
    (TrackerView { title_updates: throttle, ..t }, update_event(update, now))
}

fn update_to_event(update: Option<PendingTitleUpdate>, now: Clock) -> (event: Option<ActivityEvent>)
    ensures
        event_view(event) == update_event(update_view(update), now),
{
    match update {
        Some(u) => Some(
            ActivityEvent::WindowMetadataChanged {
                interval_id: u.interval_id,
                window: u.window,
                observed_at: now.wall,
            },
        ),
        None => None,
    }
}

impl Tracker {
    /// A tracker that knows of no window and has no open interval.
    pub fn new(config: TrackerConfig) -> (tracker: Tracker)
        ensures
            tracker@ == initial_tracker(config),
            tracker_wf(tracker@),
    {
        Tracker {
            config,
            current_window: None,
            interval: None,
            next_interval_id: 1,
            title_updates: TitleUpdateThrottle::new(config.title_change_min_interval),
        }
    }

    /// The timing settings.
    pub fn config(&self) -> (config: TrackerConfig)
        ensures
            config == self@.config,
    {
        self.config
    }

    /// The focused window the tracker knows of.
    pub fn current_window(&self) -> (window: Option<WindowInfo>)
        ensures
            window_view(window) == self@.current_window,
    {
        crate::model::duplicate_window(&self.current_window)
    }

    /// Takes the focused window read at startup.
    pub fn set_current_window(&mut self, window: Option<WindowInfo>)
        ensures
            final(self)@ == (TrackerView { current_window: window_view(window), ..old(self)@ }),
    {
        self.current_window = window;
    }

    /// Closes the open interval, if any, and returns its finish event.
    pub fn finish_interval(&mut self, reason: &str, now: Clock) -> (event: Option<ActivityEvent>)
        ensures
            (final(self)@, event_view(event)) == finish_spec(old(self)@, reason@, now),
            tracker_wf(old(self)@) ==> tracker_wf(final(self)@),
    {
        match self.interval.take() {
            Some(interval) => Some(interval.finish_event(reason, now.wall, now.mono)),
            None => None,
        }
    }

    /// Brings the open interval in line with `state` and `window` (see
    /// `reconcile_spec`); returns the events to send, in order.
    pub fn reconcile(
        &mut self,
        state: ActivityState,
        window: Option<WindowInfo>,
        reason: &str,
        now: Clock,
    ) -> (step: (Vec<ActivityEvent>, Result<(), TrackerError>))
        ensures
            ({
                let (t, events, outcome) = reconcile_spec(
                    old(self)@,
                    state,
                    window_view(window),
                    reason@,
                    now,
                );
                &&& final(self)@ == t
                &&& events_view(step.0@) == events
                &&& step.1 == outcome
            }),
            tracker_wf(old(self)@) ==> tracker_wf(final(self)@),
    {
        let ghost wv = window_view(window);
        let mut events: Vec<ActivityEvent> = Vec::new();
        match &self.interval {
            Some(interval) => {
                let same = interval.state == state && (state == ActivityState::Idle
                    || same_window(&interval.window, &window));
                if same {
                    assert(events_view(events@) =~= Seq::<EventView>::empty());
                    return (events, Ok(()));
                }
            },
            None => {},
        }
        let finished = self.finish_interval(reason, now);
        match finished {
            Some(e) => {
                events.push(e);
            },
            None => {},
        }
        let ghost after_finish = events@;
        assert(events_view(events@) =~= match event_view(finished) {
            Some(e) => seq![e],
            None => Seq::<EventView>::empty(),
        });
        if self.next_interval_id == u64::MAX {
            return (events, Err(TrackerError::IdsExhausted));
        }
        let opened = OpenInterval {
            id: self.next_interval_id,
            state,
            window,
            started_wall: now.wall,
            started_mono: now.mono,
        };
        assert(opened@ == opened_interval(self@, state, wv, now));
        self.next_interval_id = self.next_interval_id + 1;
        let started = opened.started_event(reason);
        events.push(started);
        assert(events_view(events@) =~= events_view(after_finish).push(started@));
        self.interval = Some(opened);
        (events, Ok(()))
    }

    /// The state an idle reading stands for (see `idle_state_spec`).
    pub fn idle_state(&self, idle: Option<u128>) -> (state: ActivityState)
        ensures
            state == idle_state_spec(self@.config, idle),
    {
        match idle {
            Some(i) => if i >= self.config.idle_threshold {
                ActivityState::Idle
            } else {
                ActivityState::Active
            },
            None => ActivityState::Active,
        }
    }

    /// Reconciles the open interval with `state` and the known focused window.
    pub fn reconcile_current(&mut self, state: ActivityState, reason: &str, now: Clock) -> (step: (
        Vec<ActivityEvent>,
        Result<(), TrackerError>,
    ))
        ensures
            ({
                let (t, events, outcome) = reconcile_spec(
                    old(self)@,
                    state,
                    old(self)@.current_window,
                    reason@,
                    now,
                );
                &&& final(self)@ == t
                &&& events_view(step.0@) == events
                &&& step.1 == outcome
            }),
            tracker_wf(old(self)@) ==> tracker_wf(final(self)@),
    {
        let window = crate::model::duplicate_window(&self.current_window);
        self.reconcile(state, window, reason, now)
    }

    /// Takes a newly read focused window (see `adopt_spec`); true when it
    /// replaced the known one, after which the caller watches its title and
    /// reconciles.
    pub fn adopt_active_window(&mut self, window: Option<WindowInfo>, ignore_transient_none: bool) -> (changed: bool)
        ensures
            (final(self)@, changed) == adopt_spec(old(self)@, window_view(window), ignore_transient_none),
            tracker_wf(old(self)@) ==> tracker_wf(final(self)@),
    {
        if ignore_transient_none && window.is_none() {
            return false;
        }
        if same_window(&self.current_window, &window) {
            return false;
        }
        self.current_window = window;
        self.title_updates.reset();
        true
    }

    /// The tracker follows the title of this window.
    pub fn watches_title_of(&self, window_id: u32) -> (watched: bool)
        ensures
            watched == watches(self@, window_id),
    {
        match &self.current_window {
            Some(w) => w.window_id == window_id,
            None => false,
        }
    }

    /// Takes freshly read metadata of a window (see `metadata_spec`);
    /// returns the title update to send, if any.
    pub fn refresh_window_metadata(&mut self, updated: WindowInfo, now: Clock) -> (event: Option<
        ActivityEvent,
    >)
        ensures
            (final(self)@, event_view(event)) == metadata_spec(old(self)@, updated@, now),
            tracker_wf(old(self)@) ==> tracker_wf(final(self)@),
    {
        let unchanged = match &self.current_window {
            None => true,
            Some(current) => current.window_id != updated.window_id || current.same_info(&updated),
        };
        if unchanged {
            return None;
        }
        let interval_id = match &self.interval {
            None => {
                return None;
            },
            Some(interval) => interval.id,
        };
        self.current_window = Some(updated.duplicate());
        let update = self.title_updates.push(interval_id, updated, now.mono);
        update_to_event(update, now)
    }

    /// Reports a waiting title change once the throttle allows it.
    pub fn flush_pending_title_update(&mut self, now: Clock) -> (event: Option<ActivityEvent>)
        ensures
            (final(self)@, event_view(event)) == tracker_flush_spec(old(self)@, now),
            tracker_wf(old(self)@) ==> tracker_wf(final(self)@),
    {
        let update = self.title_updates.flush(now.mono);
        update_to_event(update, now)
    }
}

/// One call on a tracker, with its arguments: `reconcile`,
/// `reconcile_current`, `finish_interval`, `adopt_active_window`,
/// `set_current_window`, `refresh_window_metadata` or
/// `flush_pending_title_update`. Each of those methods ensures
/// exactly the transition `apply_step` gives for its step, so a run of
/// steps is what a sequence of those calls does.
pub enum TrackerStep {
    Reconcile(ActivityState, Option<WindowView>, Seq<char>, Clock),
    ReconcileCurrent(ActivityState, Seq<char>, Clock),
    Finish(Seq<char>, Clock),
    Adopt(Option<WindowView>, bool),
    SetWindow(Option<WindowView>),
    Metadata(WindowView, Clock),
    Flush(Clock),
}

/// The tracker after one step, and the events the step sends.
pub open spec fn apply_step(t: TrackerView, step: TrackerStep) -> (TrackerView, Seq<EventView>) {
    match step {
        TrackerStep::Reconcile(state, window, reason, now) => {
            let (after, events, _) = reconcile_spec(t, state, window, reason, now);
            (after, events)
        },
        TrackerStep::ReconcileCurrent(state, reason, now) => {
            let (after, events, _) = reconcile_spec(t, state, t.current_window, reason, now);
            (after, events)
        },
        TrackerStep::Finish(reason, now) => {
            let (after, event) = finish_spec(t, reason, now);
            (after, optional_events(event))
        },
        TrackerStep::Adopt(window, ignore) => (adopt_spec(t, window, ignore).0, Seq::empty()),
        TrackerStep::SetWindow(window) => (TrackerView { current_window: window, ..t }, Seq::empty()),
        TrackerStep::Metadata(updated, now) => {
            let (after, event) = metadata_spec(t, updated, now);
            (after, optional_events(event))
        },
        TrackerStep::Flush(now) => {
            let (after, event) = tracker_flush_spec(t, now);
            (after, optional_events(event))
        },
    }
}

/// No event or one.
pub open spec fn optional_events(event: Option<EventView>) -> Seq<EventView> {
    match event {
        Some(e) => seq![e],
        None => Seq::empty(),
    }
}

/// The tracker after the steps, and all events they send, in order.
pub open spec fn run_steps(t: TrackerView, steps: Seq<TrackerStep>) -> (TrackerView, Seq<EventView>)
    decreases steps.len(),
{
    if steps.len() == 0 {
        (t, Seq::empty())
    } else {
        let (before, sent) = run_steps(t, steps.drop_last());
        let (after, events) = apply_step(before, steps.last());
        (after, sent + events)
    }
}

/// What a reader of the event stream knows: the open interval, the id the
/// next start must carry, and whether the stream has kept the rules so far.
pub open spec fn stream_step(state: (Option<u64>, int, bool), event: EventView) -> (Option<u64>, int, bool) {
    match event {
        EventView::Started { interval_id, .. } => if state.0 is None && interval_id == state.1 {
            (Some(interval_id), state.1 + 1, state.2)
        } else {
            (state.0, state.1, false)
        },
        EventView::Finished { interval_id, .. } => if state.0 == Some(interval_id) {
            (None, state.1, state.2)
        } else {
            (state.0, state.1, false)
        },
        _ => state,
    }
}

/// The reader's knowledge after the events.
pub open spec fn stream_from(state: (Option<u64>, int, bool), events: Seq<EventView>) -> (Option<u64>, int, bool)
    decreases events.len(),
{
    if events.len() == 0 {
        state
    } else {
        stream_step(stream_from(state, events.drop_last()), events.last())
    }
}

/// What the stream should say of a tracker.
pub open spec fn stream_of(t: TrackerView) -> (Option<u64>, int, bool) {
    (
        match t.interval {
            Some(i) => Some(i.id),
            None => None,
        },
        t.next_interval_id as int,
        true,
    )
}

proof fn lemma_stream_concat(state: (Option<u64>, int, bool), a: Seq<EventView>, b: Seq<EventView>)
    ensures
        stream_from(state, a + b) == stream_from(stream_from(state, a), b),
    decreases b.len(),
{
    if b.len() == 0 {
        assert(a + b =~= a);
    } else {
        lemma_stream_concat(state, a, b.drop_last());
        assert((a + b).drop_last() =~= a + b.drop_last());
        assert((a + b).last() == b.last());
    }
}

proof fn lemma_step_stream(t: TrackerView, step: TrackerStep)
    requires
        tracker_wf(t),
    ensures
        stream_from(stream_of(t), apply_step(t, step).1) == stream_of(apply_step(t, step).0),
        tracker_wf(apply_step(t, step).0),
{
    reveal_with_fuel(stream_from, 3);
    let events = apply_step(t, step).1;
    match step {
        TrackerStep::Reconcile(state, window, reason, now) => {
            lemma_reconcile_stream(t, state, window, reason, now);
        },
        TrackerStep::ReconcileCurrent(state, reason, now) => {
            lemma_reconcile_stream(t, state, t.current_window, reason, now);
        },
        _ => {
            if events.len() == 1 {
                assert(events.drop_last() =~= Seq::<EventView>::empty());
            }
        },
    }
}

proof fn lemma_reconcile_stream(
    t: TrackerView,
    state: ActivityState,
    window: Option<WindowView>,
    reason: Seq<char>,
    now: Clock,
)
    requires
        tracker_wf(t),
    ensures
        ({
            let (after, events, _) = reconcile_spec(t, state, window, reason, now);
            stream_from(stream_of(t), events) == stream_of(after) && tracker_wf(after)
        }),
{
    reveal_with_fuel(stream_from, 3);
    let (after, events, _) = reconcile_spec(t, state, window, reason, now);
    if !keeps_interval(t, state, window) {
        let (t1, finished) = finish_spec(t, reason, now);
        if events.len() == 2 {
            assert(events.drop_last().drop_last() =~= Seq::<EventView>::empty());
        } else if events.len() == 1 {
            assert(events.drop_last() =~= Seq::<EventView>::empty());
        }
    }
}

/// Over a tracker's whole life, from `Tracker::new` through any sequence of
/// steps, its events keep the interval rules: starts carry the ids 1, 2, 3,
/// ... in order, a start comes only when no interval is open, and every
/// finish names the interval that is open. The reader's view at the end is
/// the tracker's open interval and next id.
pub proof fn law_lifetime_interval_stream(config: TrackerConfig, steps: Seq<TrackerStep>)
    ensures
        stream_from((None, 1, true), run_steps(initial_tracker(config), steps).1) == stream_of(
            run_steps(initial_tracker(config), steps).0,
        ),
        tracker_wf(run_steps(initial_tracker(config), steps).0),
    decreases steps.len(),
{
    if steps.len() > 0 {
        law_lifetime_interval_stream(config, steps.drop_last());
        let (before, sent) = run_steps(initial_tracker(config), steps.drop_last());
        lemma_step_stream(before, steps.last());
        lemma_stream_concat((None, 1, true), sent, apply_step(before, steps.last()).1);
    }
}

} // verus!
