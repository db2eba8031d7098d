//! The settings the command line gives: where the database is, the
//! tracker's timing, and what a title test expects.

use vstd::prelude::*;
use crate::paths::{PathError, opt_str, state_database_file, state_database_path};
use crate::report::opt_text;
use crate::time::{CalendarDate, RangeError, TimeRange, chosen_date, range_outcome, time_range_from_today};
use crate::tracker::TrackerConfig;

verus! {

/// The `daemon` subcommand's settings; durations are in nanoseconds.
#[derive(Debug, Clone)]
pub struct DaemonArgs {
    pub database: Option<String>,
    pub idle_threshold: u128,
    pub sample_interval: u128,
    pub title_change_min_interval: u128,
    pub no_idle: bool,
}

/// The database path: the given one, else the default one.
pub open spec fn chosen_database(
    database: Option<Seq<char>>,
    xdg_state_home: Option<Seq<char>>,
    home: Option<Seq<char>>,
) -> Option<Seq<char>> {
    match database {
        Some(d) => Some(d),
        None => state_database_file(xdg_state_home, home),
    }
}

/// The database path from an optional given path and the environment values
/// `XDG_STATE_HOME` and `HOME`.
pub fn database_path(database: &Option<String>, xdg_state_home: Option<&str>, home: Option<&str>) -> (path: Result<String, PathError>)
    ensures
        match path {
            Ok(p) => chosen_database(opt_text(*database), opt_str(xdg_state_home), opt_str(home))
                == Some(p@),
            Err(e) => e == PathError::StateHomeUnset && chosen_database(
                opt_text(*database),
                opt_str(xdg_state_home),
                opt_str(home),
            ) is None,
        },
{
    match database {
        Some(d) => Ok(d.clone()),
        None => state_database_path(xdg_state_home, home),
    }
}

impl DaemonArgs {
    /// The database path (see `database_path`).
    pub fn database_path(&self, xdg_state_home: Option<&str>, home: Option<&str>) -> (path: Result<String, PathError>)
        ensures
            match path {
                Ok(p) => chosen_database(opt_text(self.database), opt_str(xdg_state_home), opt_str(home))
                    == Some(p@),
                Err(e) => e == PathError::StateHomeUnset && chosen_database(
                    opt_text(self.database),
                    opt_str(xdg_state_home),
                    opt_str(home),
                ) is None,
            },
    {
        database_path(&self.database, xdg_state_home, home)
    }

    /// Idle detection is on unless `--no-idle` was given.
    pub fn track_idle(&self) -> (on: bool)
        ensures
            on == !self.no_idle,
    {
        !self.no_idle
    }

    /// The tracker's timing settings.
    pub fn tracker_config(&self) -> (config: TrackerConfig)
        ensures
            config.idle_threshold == self.idle_threshold,
            config.sample_interval == self.sample_interval,
            config.title_change_min_interval == self.title_change_min_interval,
    {
        TrackerConfig {
            idle_threshold: self.idle_threshold,
            sample_interval: self.sample_interval,
            title_change_min_interval: self.title_change_min_interval,
        }
    }
}

/// The longest `std::time::Duration`, in nanoseconds.
pub open spec fn max_duration_nanos() -> int {
    u64::MAX * 1_000_000_000 + 999_999_999
}

/// Whether `nix::poll::PollTimeout::try_from` accepts a duration of
/// `seconds` and `nanos`. The crate's source converts the duration's whole
/// milliseconds to `i32` and fails when they exceed `i32::MAX`.
#[verifier::external_body]
fn poll_timeout_accepts(seconds: u64, nanos: u32) -> (accepted: bool)
    requires
        nanos < 1_000_000_000,
    ensures
        accepted == ((seconds * 1_000_000_000 + nanos) / 1_000_000 <= i32::MAX),
{
    nix::poll::PollTimeout::try_from(std::time::Duration::new(seconds, nanos)).is_ok()
}

/// Why a sample interval is refused.
#[derive(Debug, Clone, Copy, PartialEq, Eq, Structural)]
pub enum SampleIntervalError {
    Zero,
    TooLong,
}

/// The message shown for a refused sample interval.
pub open spec fn sample_message(error: SampleIntervalError) -> Seq<char> {
    match error {
        SampleIntervalError::Zero => "sample interval must be positive after conversion to nanoseconds"@,
        SampleIntervalError::TooLong => "sample interval exceeds the polling limit"@,
    }
}

impl SampleIntervalError {
    /// The message shown for the error.
    pub fn message(&self) -> (text: String)
        ensures
            text@ == sample_message(*self),
    {
        match self {
            SampleIntervalError::Zero => "sample interval must be positive after conversion to nanoseconds".to_owned(),
            SampleIntervalError::TooLong => "sample interval exceeds the polling limit".to_owned(),
        }
    }
}

/// A sample interval must be positive and fit `poll`'s millisecond timeout.
pub fn check_sample_interval(nanos: u128) -> (checked: Result<(), SampleIntervalError>)
    requires
        nanos <= max_duration_nanos(),
    ensures
        checked == if nanos == 0 {
            Err(SampleIntervalError::Zero)
        } else if nanos / 1_000_000 > i32::MAX {
            Err(SampleIntervalError::TooLong)
        } else {
            Ok::<(), SampleIntervalError>(())
        },
{
    if nanos == 0 {
        return Err(SampleIntervalError::Zero);
    }
    let seconds: u64 = (nanos / 1_000_000_000) as u64;
    let rest: u32 = (nanos % 1_000_000_000) as u32;
    assert(seconds * 1_000_000_000 + rest == nanos);
    if poll_timeout_accepts(seconds, rest) {
        Ok(())
    } else {
        Err(SampleIntervalError::TooLong)
    }
}

/// The `title-test` subcommand's arguments.
#[derive(Debug, Clone)]
pub struct TitleTestArgs {
    pub app_id: String,
    pub title: String,
    pub expect: Option<String>,
}

/// The verdict line of a title test and its exit code: no line and 0
/// without an expectation, `PASS` and 0 when the result is the expected
/// title, otherwise `FAIL` with the expected title and 1.
pub open spec fn expectation_verdict(expect: Option<Seq<char>>, result: Seq<char>) -> (Option<Seq<char>>, i32) {
    match expect {
        None => (None, 0),
        Some(e) => if e == result {
            (Some("Expectation: PASS"@), 0)
        } else {
            (Some("Expectation: FAIL (expected \""@ + e + "\")"@), 1)
        },
    }
}

impl TitleTestArgs {
    /// The verdict on a normalized `result` (see `expectation_verdict`).
    pub fn verdict(&self, result: &str) -> (verdict: (Option<String>, i32))
        ensures
            (opt_text(verdict.0), verdict.1) == expectation_verdict(opt_text(self.expect), result@),
    {
        match &self.expect {
            None => (None, 0),
            Some(e) => {
                let wanted = result.to_owned();
                if e.eq(&wanted) {
                    (Some("Expectation: PASS".to_owned()), 0)
                } else {
                    let mut line = "Expectation: FAIL (expected \"".to_owned();
                    line.append(e.as_str());
                    line.append("\")");
                    assert(line@ =~= "Expectation: FAIL (expected \""@ + e@ + "\")"@);
                    (Some(line), 1)
                }
            },
        }
    }
}

/// The date selection shared by `report` and `workflow`.
#[derive(Debug, Clone)]
pub struct SelectionArgs {
    pub database: Option<String>,
    pub since: Option<CalendarDate>,
    pub until: Option<CalendarDate>,
}

impl SelectionArgs {
    /// The database path (see `database_path`).
    pub fn database_path(&self, xdg_state_home: Option<&str>, home: Option<&str>) -> (path: Result<String, PathError>)
        ensures
            match path {
                Ok(p) => chosen_database(opt_text(self.database), opt_str(xdg_state_home), opt_str(home))
                    == Some(p@),
                Err(e) => e == PathError::StateHomeUnset && chosen_database(
                    opt_text(self.database),
                    opt_str(xdg_state_home),
                    opt_str(home),
                ) is None,
            },
    {
        database_path(&self.database, xdg_state_home, home)
    }

    /// The selected time range, missing dates meaning today.
    pub fn time_range(&self) -> (range: Result<TimeRange, RangeError>)
        ensures
            exists|today: CalendarDate|
                #[trigger] range_outcome(chosen_date(self.since, today), chosen_date(self.until, today), range),
    {
        time_range_from_today(self.since, self.until)
    }
}

/// The `report` subcommand's arguments.
#[derive(Debug, Clone)]
pub struct ReportArgs {
    pub selection: SelectionArgs,
    pub no_tree: bool,
    pub no_group_titles: bool,
    pub verbose: bool,
    pub no_ansi: bool,
}

/// How a report is shown.
#[derive(Debug, Clone, Copy, PartialEq, Eq, Structural)]
pub struct ReportOptions {
    pub tree: bool,
    pub group_titles: bool,
    pub no_ansi: bool,
    pub verbose: bool,
}

impl ReportArgs {
    /// The report's options: the title tree and grouping are on unless
    /// switched off.
    pub fn options(&self) -> (options: ReportOptions)
        ensures
            options == (ReportOptions {
                tree: !self.no_tree,
                group_titles: !self.no_group_titles,
                no_ansi: self.no_ansi,
                verbose: self.verbose,
            }),
    {
        ReportOptions {
            tree: !self.no_tree,
            group_titles: !self.no_group_titles,
            no_ansi: self.no_ansi,
            verbose: self.verbose,
        }
    }
}

/// The `workflow` subcommand's arguments.
#[derive(Debug, Clone)]
pub struct WorkflowArgs {
    pub selection: SelectionArgs,
    pub no_ansi: bool,
    pub verbose: bool,
    pub json: bool,
}

} // verus!
