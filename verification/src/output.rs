//! The daemon's console lines: one per event, and the window description
//! that the probe prints.

use vstd::prelude::*;
use crate::model::{
    ActivityEvent, ActivityState, EventView, WallTime, WindowInfo, WindowView, app_id_of, state_name,
};
use crate::report::opt_text;
use crate::time::{is_local_representable, local_representable, rfc3339_shape};
use crate::text::{digits, hex_digits, push_hex, push_unsigned, quoted, quoted_option, quoted_terminal, escape_terminal, escaped};

verus! {

/// `quoted_option`'s text: the value single-quoted for the terminal, or `None`.
pub open spec fn quoted_text(value: Option<Seq<char>>) -> Seq<char> {
    match value {
        Some(v) => quoted_terminal(v, '\''),
        None => seq!['N', 'o', 'n', 'e'],
    }
}

fn quote_opt(value: &Option<String>) -> (text: String)
    ensures
        text@ == quoted_text(opt_text(*value)),
{
    match value {
        Some(v) => quoted_option(Some(v.as_str())),
        None => quoted_option(None),
    }
}

/// The probe's description of a window, one field per line.
pub open spec fn window_text(w: WindowView) -> Seq<char> {
    "window id : 0x"@ + hex_digits(w.window_id as nat) + "\napp id    : "@ + escaped(app_id_of(w))
        + "\nWM_CLASS  : instance="@ + quoted_text(w.wm_instance) + ", class="@ + quoted_text(
        w.wm_class,
    ) + "\nPID       : "@ + match w.pid {
        Some(p) => digits(p as nat),
        None => "None"@,
    } + "\nexecutable: "@ + quoted_text(w.executable) + "\ntitle     : "@ + quoted_text(w.title)
}

/// Describes a window for the probe.
pub fn render_window(info: &WindowInfo) -> (text: String)
    ensures
        text@ == window_text(info@),
{
    let mut text = String::new();
    text.append("window id : 0x");
    push_hex(&mut text, info.window_id);
    text.append("\napp id    : ");
    text.append(escape_terminal(info.app_id().as_str()).as_str());
    text.append("\nWM_CLASS  : instance=");
    text.append(quote_opt(&info.wm_instance).as_str());
    text.append(", class=");
    text.append(quote_opt(&info.wm_class).as_str());
    text.append("\nPID       : ");
    match info.pid {
        Some(p) => push_unsigned(&mut text, p as u64),
        None => text.append("None"),
    }
    text.append("\nexecutable: ");
    text.append(quote_opt(&info.executable).as_str());
    text.append("\ntitle     : ");
    text.append(quote_opt(&info.title).as_str());
    assert(text@ =~= window_text(info@));
    text
}

/// The application of an optional window.
pub open spec fn app_of(window: Option<WindowView>) -> Option<Seq<char>> {
    match window {
        Some(w) => Some(app_id_of(w)),
        None => None,
    }
}

/// The console line of an event. `first` and `second` are the local-time
/// labels of its instants (the start and end of a finished interval) and
/// `duration` the label of a finished interval's length.
pub open spec fn event_text(
    event: EventView,
    first: Seq<char>,
    second: Seq<char>,
    duration: Seq<char>,
) -> Seq<char> {
    match event {
        EventView::Started { state, window, reason, .. } => if state == ActivityState::Active
            && window is Some {
            "START    "@ + first + "  active  app="@ + quoted_terminal(app_id_of(window->0), '\'')
                + " xid=0x"@ + hex_digits(window->0.window_id as nat) + "  title="@ + quoted_text(
                window->0.title,
            ) + "  reason="@ + reason
        } else {
            "START    "@ + first + "  "@ + state_name(state) + "  last_app="@ + quoted_text(
                app_of(window),
            ) + "  reason="@ + reason
        },
        EventView::Finished { state, window, reason, .. } => "INTERVAL "@ + first + " -> "@
            + second + "  duration="@ + duration + "s  state="@ + state_name(state) + "  app="@
            + quoted_text(app_of(window)) + " xid="@ + quoted_text(
            match window {
                Some(w) => Some("0x"@ + hex_digits(w.window_id as nat)),
                None => None,
            },
        ) + "  reason="@ + reason,
        EventView::Metadata { window, .. } => "WINDOW   "@ + first + "  metadata_changed  app="@
            + quoted_terminal(app_id_of(window), '\'') + " xid=0x"@ + hex_digits(window.window_id as nat)
            + "  title="@ + quoted_text(window.title),
        EventView::Status(message) => message,
    }
}

fn app_text(window: &Option<WindowInfo>) -> (app: Option<String>)
    ensures
        opt_text(app) == app_of(crate::model::window_view(*window)),
{
    match window {
        Some(w) => Some(w.app_id()),
        None => None,
    }
}

/// Writes the console line of an event from its time labels (see
/// `event_text`).
pub fn compose_event_line(event: &ActivityEvent, first: &str, second: &str, duration: &str) -> (line: String)
    ensures
        line@ == event_text(event@, first@, second@, duration@),
{
    let mut line = String::new();
    match event {
        ActivityEvent::IntervalStarted { state, window, reason, .. } => {
            line.append("START    ");
            line.append(first);
            match window {
                Some(w) => {
                    if *state == ActivityState::Active {
                        line.append("  active  app=");
                        line.append(quoted(w.app_id().as_str()).as_str());
                        line.append(" xid=0x");
                        push_hex(&mut line, w.window_id);
                        line.append("  title=");
                        line.append(quote_opt(&w.title).as_str());
                        line.append("  reason=");
                        line.append(reason.as_str());
                        assert(line@ =~= event_text(event@, first@, second@, duration@));
                        return line;
                    }
                },
                None => {},
            }
            line.append("  ");
            line.append(state.as_str());
            line.append("  last_app=");
            line.append(quote_opt(&app_text(window)).as_str());
            line.append("  reason=");
            line.append(reason.as_str());
        },
        ActivityEvent::IntervalFinished { state, window, reason, .. } => {
            line.append("INTERVAL ");
            line.append(first);
            line.append(" -> ");
            line.append(second);
            line.append("  duration=");
            line.append(duration);
            line.append("s  state=");
            line.append(state.as_str());
            line.append("  app=");
            line.append(quote_opt(&app_text(window)).as_str());
            line.append(" xid=");
            let xid = match window {
                Some(w) => {
                    let mut x = "0x".to_owned();
                    push_hex(&mut x, w.window_id);
                    Some(x)
                },
                None => None,
            };
            line.append(quote_opt(&xid).as_str());
            line.append("  reason=");
            line.append(reason.as_str());
        },
        ActivityEvent::WindowMetadataChanged { window, .. } => {
            line.append("WINDOW   ");
            line.append(first);
            line.append("  metadata_changed  app=");
            line.append(quoted(window.app_id().as_str()).as_str());
            line.append(" xid=0x");
            push_hex(&mut line, window.window_id);
            line.append("  title=");
            line.append(quote_opt(&window.title).as_str());
        },
        ActivityEvent::Status(message) => {
            line.append(message.as_str());
        },
    }
    assert(line@ =~= event_text(event@, first@, second@, duration@));
    line
}

/// The instant in local time as RFC 3339 with whole seconds
/// (`DateTime::<Local>::to_rfc3339_opts(SecondsFormat::Secs, false)`), or
/// an empty text where `DateTime::from_timestamp` finds no instant (a
/// nanosecond count of a second or more). Which local time it is depends on
/// the time zone; its shape is what chrono's writer produces. Only
/// `local_representable` seconds are admitted: nearer the ends of chrono's
/// range the local time leaves it and the writer panics.
#[verifier::external_body]
fn format_time(time: WallTime) -> (text: String)
    requires
        local_representable(time.seconds as int),
    ensures
        text@.len() == 0 || rfc3339_shape(text@),
{
    match chrono::DateTime::from_timestamp(time.seconds, time.nanos) {
        Some(t) => t.with_timezone(&chrono::Local).to_rfc3339_opts(chrono::SecondsFormat::Secs, false),
        None => String::new(),
    }
}

/// The local time of an event's instant; empty for an instant too near the
/// ends of chrono's range to have one.
fn time_text(time: WallTime) -> (text: String)
    ensures
        text@.len() == 0 || rfc3339_shape(text@),
        !local_representable(time.seconds as int) ==> text@.len() == 0,
{
    if is_local_representable(time.seconds) {
        format_time(time)
    } else {
        String::new()
    }
}

/// A label of an event's instant: RFC 3339 local time, or empty.
pub open spec fn time_label(label: Seq<char>) -> bool {
    label.len() == 0 || rfc3339_shape(label)
}

/// The console line of an event, its instants shown in local time.
/// `duration` is the label of a finished interval's length.
pub fn event_line(event: &ActivityEvent, duration: &str) -> (line: String)
    ensures
        exists|first: Seq<char>, second: Seq<char>|
            time_label(first) && time_label(second) && line@ == #[trigger] event_text(
                event@,
                first,
                second,
                duration@,
            ),
{
    let (first, second) = match event {
        ActivityEvent::IntervalStarted { started_at, .. } => (time_text(*started_at), String::new()),
        ActivityEvent::IntervalFinished { started_at, ended_at, .. } => (
            time_text(*started_at),
            time_text(*ended_at),
        ),
        ActivityEvent::WindowMetadataChanged { observed_at, .. } => (
            time_text(*observed_at),
            String::new(),
        ),
        ActivityEvent::Status(_) => (String::new(), String::new()),
    };
    let line = compose_event_line(event, first.as_str(), second.as_str(), duration);
    assert(time_label(first@) && time_label(second@));
    line
}

/// What the X11 probe found.
#[derive(Debug)]
pub struct ProbeReport {
    pub session_type: String,
    pub display_name: String,
    pub screen_number: usize,
    pub root_window: u32,
    pub window_manager: Option<String>,
    pub active_window_supported: bool,
    pub xss_available: bool,
    pub idle_millis: Option<u32>,
    pub active_window: Option<WindowInfo>,
    pub warnings: Vec<&'static str>,
}

/// `true` or `false`.
pub open spec fn bool_text(b: bool) -> Seq<char> {
    if b {
        "true"@
    } else {
        "false"@
    }
}

/// Milliseconds as seconds with three decimals, as `{:.3}` shows them.
pub open spec fn millis_text(ms: u32) -> Seq<char> {
    digits((ms / 1000) as nat) + "."@ + digits3((ms % 1000) as nat)
}

/// Three decimal digits, with leading zeros.
pub open spec fn digits3(n: nat) -> Seq<char> {
    if n < 10 {
        "00"@ + digits(n)
    } else if n < 100 {
        "0"@ + digits(n)
    } else {
        digits(n)
    }
}

/// The lines of the warnings, each after a line break.
pub open spec fn warning_lines(warnings: Seq<Seq<char>>) -> Seq<char>
    decreases warnings.len(),
{
    if warnings.len() == 0 {
        Seq::empty()
    } else {
        warning_lines(warnings.drop_last()) + "\n- "@ + warnings.last()
    }
}

/// The probe's printout before its verdict.
pub open spec fn probe_head(
    session_type: Seq<char>,
    display_name: Seq<char>,
    screen_number: usize,
    root_window: u32,
    window_manager: Option<Seq<char>>,
    active_window_supported: bool,
    xss_available: bool,
    idle_millis: Option<u32>,
    active_window: Option<WindowView>,
) -> Seq<char> {
    "X11 probe\n---------\nXDG_SESSION_TYPE : "@ + escaped(session_type) + "\nDISPLAY          : "@
        + escaped(display_name) + "\nconnected display: "@ + escaped(display_name) + "\nscreen number    : "@ + digits(
        screen_number as nat,
    ) + "\nroot window      : 0x"@ + hex_digits(root_window as nat) + "\nwindow manager   : "@
        + match window_manager {
        Some(w) => escaped(w),
        None => "<unknown>"@,
    } + "\n_NET_ACTIVE_WINDOW supported: "@ + bool_text(active_window_supported)
        + "\nMIT-SCREEN-SAVER available  : "@ + bool_text(xss_available) + match idle_millis {
        Some(ms) => "\ncurrent idle time: "@ + millis_text(ms) + " s"@,
        None => Seq::empty(),
    } + "\n\nActive window\n-------------\n"@ + match active_window {
        Some(w) => window_text(w),
        None => "<none or metadata unavailable>"@,
    }
}

/// The probe's verdict after its printout, and its exit status: 0 without
/// warnings, else 1 with the warnings listed.
pub open spec fn probe_verdict(warnings: Seq<Seq<char>>) -> (Seq<char>, i32) {
    if warnings.len() == 0 {
        ("\n\nProbe result: OK"@, 0)
    } else {
        ("\n\nProbe result: WARNING"@ + warning_lines(warnings), 1)
    }
}

fn push_bool(text: &mut String, b: bool)
    ensures
        final(text)@ == old(text)@ + bool_text(b),
{
    if b {
        text.append("true");
    } else {
        text.append("false");
    }
}

fn push_millis(text: &mut String, ms: u32)
    ensures
        final(text)@ == old(text)@ + millis_text(ms),
{
    push_unsigned(text, (ms / 1000) as u64);
    text.append(".");
    let frac = ms % 1000;
    if frac < 10 {
        text.append("00");
    } else if frac < 100 {
        text.append("0");
    }
    push_unsigned(text, frac as u64);
    assert(final(text)@ =~= old(text)@ + millis_text(ms));
}

impl ProbeReport {
    fn head(&self) -> (text: String)
        ensures
            text@ == probe_head(
                self.session_type@,
                self.display_name@,
                self.screen_number,
                self.root_window,
                opt_text(self.window_manager),
                self.active_window_supported,
                self.xss_available,
                self.idle_millis,
                crate::model::window_view(self.active_window),
            ),
    {
        let mut text = String::new();
        text.append("X11 probe\n---------\nXDG_SESSION_TYPE : ");
        text.append(escape_terminal(self.session_type.as_str()).as_str());
        text.append("\nDISPLAY          : ");
        text.append(escape_terminal(self.display_name.as_str()).as_str());
        text.append("\nconnected display: ");
        text.append(escape_terminal(self.display_name.as_str()).as_str());
        text.append("\nscreen number    : ");
        push_unsigned(&mut text, self.screen_number as u64);
        text.append("\nroot window      : 0x");
        push_hex(&mut text, self.root_window);
        text.append("\nwindow manager   : ");
        match &self.window_manager {
            Some(w) => text.append(escape_terminal(w.as_str()).as_str()),
            None => text.append("<unknown>"),
        }
        text.append("\n_NET_ACTIVE_WINDOW supported: ");
        push_bool(&mut text, self.active_window_supported);
        text.append("\nMIT-SCREEN-SAVER available  : ");
        push_bool(&mut text, self.xss_available);
        match self.idle_millis {
            Some(ms) => {
                text.append("\ncurrent idle time: ");
                push_millis(&mut text, ms);
                text.append(" s");
            },
            None => {},
        }
        text.append("\n\nActive window\n-------------\n");
        match &self.active_window {
            Some(w) => text.append(render_window(w).as_str()),
            None => text.append("<none or metadata unavailable>"),
        }
        assert(text@ =~= probe_head(
            self.session_type@,
            self.display_name@,
            self.screen_number,
            self.root_window,
            opt_text(self.window_manager),
            self.active_window_supported,
            self.xss_available,
            self.idle_millis,
            crate::model::window_view(self.active_window),
        ));
        text
    }

    /// The probe's printout (lines separated by line breaks) and exit status.
    pub fn render(&self) -> (out: (String, i32))
        ensures
            out.0@ == probe_head(
                self.session_type@,
                self.display_name@,
                self.screen_number,
                self.root_window,
                opt_text(self.window_manager),
                self.active_window_supported,
                self.xss_available,
                self.idle_millis,
                crate::model::window_view(self.active_window),
            ) + probe_verdict(self.warnings@.map_values(|w: &'static str| w@)).0,
            out.1 == probe_verdict(self.warnings@.map_values(|w: &'static str| w@)).1,
    {
        let mut text = self.head();
        let ghost head = text@;
        let ghost wv = self.warnings@.map_values(|w: &'static str| w@);
        if self.warnings.len() == 0 {
            text.append("\n\nProbe result: OK");
            (text, 0)
        } else {
            text.append("\n\nProbe result: WARNING");
            let ghost start = text@;
            let mut i: usize = 0;
            while i < self.warnings.len()
                invariant
                    i <= self.warnings.len(),
                    wv == self.warnings@.map_values(|w: &'static str| w@),
                    text@ == start + warning_lines(wv.take(i as int)),
                decreases self.warnings.len() - i,
            {
                text.append("\n- ");
                text.append(self.warnings[i]);
                assert(wv.take(i + 1).drop_last() =~= wv.take(i as int));
                assert(text@ =~= start + warning_lines(wv.take(i + 1)));
                i = i + 1;
            }
            assert(wv.take(self.warnings.len() as int) =~= wv);
            assert(text@ =~= head + probe_verdict(wv).0);
            (text, 1)
        }
    }
}

} // verus!
