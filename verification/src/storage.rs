//! What the activity database receives: intervals held open until their
//! finish arrives, the rows a finished interval becomes, and the schema
//! versions a database may carry.

use vstd::prelude::*;
use std::collections::HashMap;
use crate::model::{
    ActivityEvent, ActivityState, EventView, WallTime, WindowInfo, WindowView, app_id_of,
    duplicate_window, same_window_info, unknown_app, window_view,
};
use crate::report::opt_text;
use crate::text::{decimal, digits, push_decimal, push_unsigned};

verus! {

broadcast use {
    vstd::std_specs::hash::group_hash_axioms,
    vstd::std_specs::hash::axiom_u64_obeys_hash_table_key_model,
};

/// A title or class change seen while an interval was open.
pub struct PendingMetadata {
    pub window: WindowInfo,
    pub observed_at: WallTime,
}

/// A started interval whose finish has not arrived yet.
pub struct PendingInterval {
    pub state: ActivityState,
    pub window: Option<WindowInfo>,
    pub started_at: WallTime,
    pub start_reason: String,
    pub metadata: Vec<PendingMetadata>,
}

/// The value of a pending interval.
pub struct PendingView {
    pub state: ActivityState,
    pub window: Option<WindowView>,
    pub started_at: WallTime,
    pub start_reason: Seq<char>,
    pub metadata: Seq<(WindowView, WallTime)>,
}

impl View for PendingInterval {
    type V = PendingView;

    open spec fn view(&self) -> PendingView {
        PendingView {
            state: self.state,
            window: window_view(self.window),
            started_at: self.started_at,
            start_reason: self.start_reason@,
            metadata: self.metadata@.map_values(|m: PendingMetadata| (m.window@, m.observed_at)),
        }
    }
}

/// Why an event cannot be recorded, or why a database cannot be used.
#[derive(Debug, Clone, Copy, PartialEq, Eq, Structural)]
pub enum StorageError {
    DuplicateStart(u64),
    UnknownMetadata(u64),
    UnknownFinish(u64),
    FinishMismatch(u64),
    IdOutOfRange(u64),
    UnsupportedSchema(i64),
    UnreadableSchema(i64),
}

/// The message shown for a storage error.
pub open spec fn storage_message(error: StorageError) -> Seq<char> {
    match error {
        StorageError::DuplicateStart(id) => "duplicate interval start for local id "@ + digits(
            id as nat,
        ),
        StorageError::UnknownMetadata(id) => "metadata references unknown local interval id "@
            + digits(id as nat),
        StorageError::UnknownFinish(id) => "finish references unknown local interval id "@
            + digits(id as nat),
        StorageError::FinishMismatch(id) => "finish does not match start for local interval id "@
            + digits(id as nat),
        StorageError::IdOutOfRange(_) => "local interval identifier exceeds SQLite integer range"@,
        StorageError::UnsupportedSchema(v) => "unsupported database schema version "@ + decimal(
            v as int,
        ),
        StorageError::UnreadableSchema(v) =>
            "unsupported or uninitialized database schema version "@ + decimal(v as int)
            + "; reporting requires version 1"@,
    }
}

impl StorageError {
    /// The message shown for the error.
    pub fn message(&self) -> (text: String)
        ensures
            text@ == storage_message(*self),
    {
        let mut text = String::new();
        match self {
            StorageError::DuplicateStart(id) => {
                text.append("duplicate interval start for local id ");
                push_unsigned(&mut text, *id);
            },
            StorageError::UnknownMetadata(id) => {
                text.append("metadata references unknown local interval id ");
                push_unsigned(&mut text, *id);
            },
            StorageError::UnknownFinish(id) => {
                text.append("finish references unknown local interval id ");
                push_unsigned(&mut text, *id);
            },
            StorageError::FinishMismatch(id) => {
                text.append("finish does not match start for local interval id ");
                push_unsigned(&mut text, *id);
            },
            StorageError::IdOutOfRange(_) => {
                text.append("local interval identifier exceeds SQLite integer range");
            },
            StorageError::UnsupportedSchema(v) => {
                text.append("unsupported database schema version ");
                push_decimal(&mut text, *v);
            },
            StorageError::UnreadableSchema(v) => {
                text.append("unsupported or uninitialized database schema version ");
                push_decimal(&mut text, *v);
                text.append("; reporting requires version 1");
            },
        }
        assert(text@ =~= storage_message(*self));
        text
    }
}

/// What opening a database for writing does with the schema version it finds.
#[derive(Debug, Clone, Copy, PartialEq, Eq, Structural)]
pub enum SchemaAction {
    /// Version 0: a new database; the schema is created.
    Create,
    /// Version 1: the schema is in place.
    Ready,
}

/// Decides on a database's `user_version` when opening it for writing:
/// 0 creates the schema, 1 is ready, any other version is refused.
pub fn schema_action(version: i64) -> (action: Result<SchemaAction, StorageError>)
    ensures
        action == if version == 0 {
            Ok::<SchemaAction, StorageError>(SchemaAction::Create)
        } else if version == 1 {
            Ok(SchemaAction::Ready)
        } else {
            Err(StorageError::UnsupportedSchema(version))
        },
{
    if version == 0 {
        Ok(SchemaAction::Create)
    } else if version == 1 {
        Ok(SchemaAction::Ready)
    } else {
        Err(StorageError::UnsupportedSchema(version))
    }
}

/// Decides on a database's `user_version` when opening it for reports:
/// only version 1 can be read.
pub fn check_report_schema(version: i64) -> (checked: Result<(), StorageError>)
    ensures
        checked == if version == 1 {
            Ok::<(), StorageError>(())
        } else {
            Err(StorageError::UnreadableSchema(version))
        },
{
    if version == 1 {
        Ok(())
    } else {
        Err(StorageError::UnreadableSchema(version))
    }
}

/// A finished interval as one `activity_interval` row.
pub struct IntervalRow {
    pub tracker_interval_id: i64,
    pub state: ActivityState,
    pub started_at: i64,
    pub ended_at: i64,
    pub start_reason: String,
    pub end_reason: String,
    pub initial_window_id: Option<i64>,
    pub initial_title: Option<String>,
    pub initial_wm_instance: Option<String>,
    pub initial_wm_class: Option<String>,
    pub initial_pid: Option<i64>,
    pub initial_executable: Option<String>,
    pub app_id: String,
}

/// One observed metadata change as a `window_metadata_change` row (the
/// database supplies the interval's row id).
pub struct MetadataRow {
    pub observed_at: i64,
    pub window_id: i64,
    pub title: Option<String>,
    pub wm_instance: Option<String>,
    pub wm_class: Option<String>,
    pub pid: Option<i64>,
    pub executable: Option<String>,
    pub app_id: String,
}

/// The rows a finished interval is stored as, in insertion order.
pub struct CompletedInterval {
    pub interval: IntervalRow,
    pub metadata: Vec<MetadataRow>,
}

/// The value of an interval row.
pub struct IntervalRowView {
    pub tracker_interval_id: i64,
    pub state: ActivityState,
    pub started_at: i64,
    pub ended_at: i64,
    pub start_reason: Seq<char>,
    pub end_reason: Seq<char>,
    pub initial_window_id: Option<i64>,
    pub initial_title: Option<Seq<char>>,
    pub initial_wm_instance: Option<Seq<char>>,
    pub initial_wm_class: Option<Seq<char>>,
    pub initial_pid: Option<i64>,
    pub initial_executable: Option<Seq<char>>,
    pub app_id: Seq<char>,
}

/// The value of a metadata row.
pub struct MetadataRowView {
    pub observed_at: i64,
    pub window_id: i64,
    pub title: Option<Seq<char>>,
    pub wm_instance: Option<Seq<char>>,
    pub wm_class: Option<Seq<char>>,
    pub pid: Option<i64>,
    pub executable: Option<Seq<char>>,
    pub app_id: Seq<char>,
}

/// The value of the rows of a finished interval.
pub struct CompletedView {
    pub interval: IntervalRowView,
    pub metadata: Seq<MetadataRowView>,
}

impl View for IntervalRow {
    type V = IntervalRowView;

    open spec fn view(&self) -> IntervalRowView {
        IntervalRowView {
            tracker_interval_id: self.tracker_interval_id,
            state: self.state,
            started_at: self.started_at,
            ended_at: self.ended_at,
            start_reason: self.start_reason@,
            end_reason: self.end_reason@,
            initial_window_id: self.initial_window_id,
            initial_title: opt_text(self.initial_title),
            initial_wm_instance: opt_text(self.initial_wm_instance),
            initial_wm_class: opt_text(self.initial_wm_class),
            initial_pid: self.initial_pid,
            initial_executable: opt_text(self.initial_executable),
            app_id: self.app_id@,
        }
    }
}

impl View for MetadataRow {
    type V = MetadataRowView;

    open spec fn view(&self) -> MetadataRowView {
        MetadataRowView {
            observed_at: self.observed_at,
            window_id: self.window_id,
            title: opt_text(self.title),
            wm_instance: opt_text(self.wm_instance),
            wm_class: opt_text(self.wm_class),
            pid: self.pid,
            executable: opt_text(self.executable),
            app_id: self.app_id@,
        }
    }
}

impl View for CompletedInterval {
    type V = CompletedView;

    open spec fn view(&self) -> CompletedView {
        CompletedView {
            interval: self.interval@,
            metadata: self.metadata@.map_values(|r: MetadataRow| r@),
        }
    }
}

/// The row of an interval that started as `pending` and ended at `ended_at`.
pub open spec fn interval_row(
    id: u64,
    pending: PendingView,
    ended_at: WallTime,
    end_reason: Seq<char>,
) -> IntervalRowView {
    IntervalRowView {
        tracker_interval_id: id as i64,
        state: pending.state,
        started_at: pending.started_at.seconds,
        ended_at: ended_at.seconds,
        start_reason: pending.start_reason,
        end_reason: end_reason,
        initial_window_id: match pending.window {
            Some(w) => Some(w.window_id as i64),
            None => None,
        },
        initial_title: match pending.window {
            Some(w) => w.title,
            None => None,
        },
        initial_wm_instance: match pending.window {
            Some(w) => w.wm_instance,
            None => None,
        },
        initial_wm_class: match pending.window {
            Some(w) => w.wm_class,
            None => None,
        },
        initial_pid: match pending.window {
            Some(w) => match w.pid {
                Some(p) => Some(p as i64),
                None => None,
            },
            None => None,
        },
        initial_executable: match pending.window {
            Some(w) => w.executable,
            None => None,
        },
        app_id: match pending.window {
            Some(w) => app_id_of(w),
            None => unknown_app(),
        },
    }
}

/// The row of one metadata change.
pub open spec fn metadata_row(change: (WindowView, WallTime)) -> MetadataRowView {
    MetadataRowView {
        observed_at: change.1.seconds,
        window_id: change.0.window_id as i64,
        title: change.0.title,
        wm_instance: change.0.wm_instance,
        wm_class: change.0.wm_class,
        pid: match change.0.pid {
            Some(p) => Some(p as i64),
            None => None,
        },
        executable: change.0.executable,
        app_id: app_id_of(change.0),
    }
}

/// The rows of a finished interval: the interval first, then its metadata
/// changes in the order they were observed.
pub open spec fn completed_rows(
    id: u64,
    pending: PendingView,
    ended_at: WallTime,
    end_reason: Seq<char>,
) -> CompletedView {
    CompletedView {
        interval: interval_row(id, pending, ended_at, end_reason),
        metadata: pending.metadata.map_values(|c: (WindowView, WallTime)| metadata_row(c)),
    }
}

/// A finish agrees with its start in state, window and start time.
pub open spec fn finish_matches(
    pending: PendingView,
    state: ActivityState,
    window: Option<WindowView>,
    started_at: WallTime,
) -> bool {
    pending.state == state && pending.window == window && pending.started_at == started_at
}

/// The pending intervals after recording `event`. A start is entered (even
/// over an earlier start of the same id), a metadata change is appended to
/// its open interval, and a finish removes its interval whether or not it
/// matches the start.
pub open spec fn record_map(store: Map<u64, PendingView>, event: EventView) -> Map<
    u64,
    PendingView,
> {
    match event {
        EventView::Started { interval_id, state, window, started_at, reason } => store.insert(
            interval_id,
            PendingView {
                state,
                window,
                started_at,
                start_reason: reason,
                metadata: Seq::empty(),
            },
        ),
        EventView::Metadata { interval_id, window, observed_at } => if store.contains_key(
            interval_id,
        ) {
            store.insert(
                interval_id,
                PendingView {
                    metadata: store[interval_id].metadata.push((window, observed_at)),
                    ..store[interval_id]
                },
            )
        } else {
            store
        },
        EventView::Finished { interval_id, .. } => store.remove(interval_id),
        EventView::Status(_) => store,
    }
}

/// What recording `event` yields: nothing to store yet, the rows of a
/// finished interval, or the error that stops recording.
pub open spec fn record_result(store: Map<u64, PendingView>, event: EventView) -> Result<
    Option<CompletedView>,
    StorageError,
> {
    match event {
        EventView::Started { interval_id, .. } => if store.contains_key(interval_id) {
            Err(StorageError::DuplicateStart(interval_id))
        } else {
            Ok(None)
        },
        EventView::Metadata { interval_id, .. } => if store.contains_key(interval_id) {
            Ok(None)
        } else {
            Err(StorageError::UnknownMetadata(interval_id))
        },
        EventView::Finished {
            interval_id,
            state,
            window,
            started_at,
            ended_at,
            reason,
            ..
        } => if !store.contains_key(interval_id) {
            Err(StorageError::UnknownFinish(interval_id))
        } else if !finish_matches(store[interval_id], state, window, started_at) {
            Err(StorageError::FinishMismatch(interval_id))
        } else if interval_id > i64::MAX {
            Err(StorageError::IdOutOfRange(interval_id))
        } else {
            Ok(Some(completed_rows(interval_id, store[interval_id], ended_at, reason)))
        },
        EventView::Status(_) => Ok(None),
    }
}

/// The value of what `record` returns.
pub open spec fn record_outcome(result: Result<Option<CompletedInterval>, StorageError>) -> Result<
    Option<CompletedView>,
    StorageError,
> {
    match result {
        Ok(Some(c)) => Ok(Some(c@)),
        Ok(None) => Ok(None),
        Err(e) => Err(e),
    }
}

/// The intervals that have started and not finished, by tracker id.
pub struct PendingStore {
    pending: HashMap<u64, PendingInterval>,
}

impl View for PendingStore {
    type V = Map<u64, PendingView>;

    closed spec fn view(&self) -> Map<u64, PendingView> {
        self.pending@.map_values(|p: PendingInterval| p@)
    }
}

fn copy_text(o: &Option<String>) -> (c: Option<String>)
    ensures
        opt_text(c) == opt_text(*o),
{
    match o {
        Some(s) => Some(s.clone()),
        None => None,
    }
}

fn widen_pid(pid: Option<u32>) -> (wide: Option<i64>)
    ensures
        wide == match pid {
            Some(p) => Some(p as i64),
            None => None,
        },
{
    match pid {
        Some(p) => Some(p as i64),
        None => None,
    }
}

fn metadata_row_of(change: &PendingMetadata) -> (row: MetadataRow)
    ensures
        row@ == metadata_row((change.window@, change.observed_at)),
{
    MetadataRow {
        observed_at: change.observed_at.seconds,
        window_id: change.window.window_id as i64,
        title: copy_text(&change.window.title),
        wm_instance: copy_text(&change.window.wm_instance),
        wm_class: copy_text(&change.window.wm_class),
        pid: widen_pid(change.window.pid),
        executable: copy_text(&change.window.executable),
        app_id: change.window.app_id(),
    }
}

/// The rows of a finished interval.
fn completed_interval(id: u64, pending: &PendingInterval, ended_at: WallTime, end_reason: &str) -> (c: CompletedInterval)
    requires
        id <= i64::MAX,
    ensures
        c@ == completed_rows(id, pending@, ended_at, end_reason@),
{
    let app_id = match &pending.window {
        Some(w) => w.app_id(),
        None => crate::model::unknown_app_text(),
    };
    let interval = IntervalRow {
        tracker_interval_id: id as i64,
        state: pending.state,
        started_at: pending.started_at.seconds,
        ended_at: ended_at.seconds,
        start_reason: pending.start_reason.clone(),
        end_reason: end_reason.to_owned(),
        initial_window_id: match &pending.window {
            Some(w) => Some(w.window_id as i64),
            None => None,
        },
        initial_title: match &pending.window {
            Some(w) => copy_text(&w.title),
            None => None,
        },
        initial_wm_instance: match &pending.window {
            Some(w) => copy_text(&w.wm_instance),
            None => None,
        },
        initial_wm_class: match &pending.window {
            Some(w) => copy_text(&w.wm_class),
            None => None,
        },
        initial_pid: match &pending.window {
            Some(w) => widen_pid(w.pid),
            None => None,
        },
        initial_executable: match &pending.window {
            Some(w) => copy_text(&w.executable),
            None => None,
        },
        app_id,
    };
    let mut metadata: Vec<MetadataRow> = Vec::new();
    let mut i: usize = 0;
    while i < pending.metadata.len()
        invariant
            i <= pending.metadata.len(),
            metadata@.len() == i,
            forall|k: int|
                0 <= k < i ==> (#[trigger] metadata@[k])@ == metadata_row(
                    (pending.metadata@[k].window@, pending.metadata@[k].observed_at),
                ),
        decreases pending.metadata.len() - i,
    {
        let row = metadata_row_of(&pending.metadata[i]);
        metadata.push(row);
        i = i + 1;
    }
    let c = CompletedInterval { interval, metadata };
    assert(c@.interval == interval_row(id, pending@, ended_at, end_reason@));
    assert(c@.metadata =~= pending@.metadata.map_values(
        |x: (WindowView, WallTime)| metadata_row(x),
    ));
    c
}

impl PendingStore {
    /// A store with no pending interval.
    pub fn new() -> (store: PendingStore)
        ensures
            store@ == Map::<u64, PendingView>::empty(),
    {
        let store = PendingStore { pending: HashMap::new() };
        assert(store@ =~= Map::<u64, PendingView>::empty());
        store
    }

    /// The pending interval of an id has exactly the value `p@`.
    proof fn lemma_insert(self, after: Self, id: u64, p: PendingInterval)
        requires
            after.pending@ == self.pending@.insert(id, p),
        ensures
            after@ == self@.insert(id, p@),
    {
        assert(after@ =~= self@.insert(id, p@));
    }

    /// Records one event of the tracker: see `record_map` for what it does
    /// to the pending intervals and `record_result` for what it returns.
    pub fn record(&mut self, event: &ActivityEvent) -> (result: Result<
        Option<CompletedInterval>,
        StorageError,
    >)
        ensures
            final(self)@ == record_map(old(self)@, event@),
            record_outcome(result) == record_result(old(self)@, event@),
    {
        match event {
            ActivityEvent::IntervalStarted { interval_id, state, window, started_at, reason } => {
                let entry = PendingInterval {
                    state: *state,
                    window: duplicate_window(window),
                    started_at: *started_at,
                    start_reason: reason.clone(),
                    metadata: Vec::new(),
                };
                assert(entry@.metadata =~= Seq::<(WindowView, WallTime)>::empty());
                let ghost before = *self;
                let replaced = self.pending.insert(*interval_id, entry);
                proof {
                    before.lemma_insert(*self, *interval_id, entry);
                    assert(before@.contains_key(*interval_id) == before.pending@.contains_key(
                        *interval_id,
                    ));
                }
                match replaced {
                    Some(_) => Err(StorageError::DuplicateStart(*interval_id)),
                    None => Ok(None),
                }
            },
            ActivityEvent::WindowMetadataChanged { interval_id, window, observed_at } => {
                let ghost before = *self;
                match self.pending.remove(interval_id) {
                    None => {
                        assert(self.pending@ == before.pending@.remove(*interval_id));
                        assert(self@ =~= before@);
                        Err(StorageError::UnknownMetadata(*interval_id))
                    },
                    Some(mut entry) => {
                        let ghost removed = *self;
                        let ghost old_entry = entry;
                        entry.metadata.push(
                            PendingMetadata { window: window.duplicate(), observed_at: *observed_at },
                        );
                        assert(entry@.metadata =~= old_entry@.metadata.push(
                            (window@, *observed_at),
                        ));
                        self.pending.insert(*interval_id, entry);
                        assert(self.pending@ =~= before.pending@.insert(*interval_id, entry));
                        proof {
                            before.lemma_insert(*self, *interval_id, entry);
                        }
                        assert(before@[*interval_id] == old_entry@);
                        Ok(None)
                    },
                }
            },
            ActivityEvent::IntervalFinished {
                interval_id,
                state,
                window,
                started_at,
                ended_at,
                duration_nanos: _,
                reason,
            } => {
                let ghost before = *self;
                let removed = self.pending.remove(interval_id);
                assert(self@ =~= before@.remove(*interval_id));
                match removed {
                    None => Err(StorageError::UnknownFinish(*interval_id)),
                    Some(entry) => {
                        assert(before@[*interval_id] == entry@);
                        if entry.state != *state || !same_window_info(&entry.window, window)
                            || entry.started_at != *started_at {
                            Err(StorageError::FinishMismatch(*interval_id))
                        } else if *interval_id > 9_223_372_036_854_775_807u64 {
                            Err(StorageError::IdOutOfRange(*interval_id))
                        } else {
                            Ok(Some(completed_interval(*interval_id, &entry, *ended_at, reason.as_str())))
                        }
                    },
                }
            },
            ActivityEvent::Status(_) => Ok(None),
        }
    }
}

/// Only a finished interval yields rows to store: recording any other event
/// stores nothing, whether it is accepted or refused.
pub proof fn law_only_finished_intervals_are_stored(store: Map<u64, PendingView>, event: EventView)
    requires
        !(event is Finished),
    ensures
        !(record_result(store, event) matches Ok(Some(_))),
{
}

/// A finish that matches its start is stored as the start's data with the
/// finish's end, and the interval leaves the pending ones.
pub proof fn law_matching_finish_is_stored(
    store: Map<u64, PendingView>,
    id: u64,
    state: ActivityState,
    window: Option<WindowView>,
    started_at: WallTime,
    start_reason: Seq<char>,
    ended_at: WallTime,
    duration_nanos: u128,
    end_reason: Seq<char>,
)
    requires
        id <= i64::MAX,
        !store.contains_key(id),
    ensures
        ({
            let started = record_map(
                store,
                EventView::Started { interval_id: id, state, window, started_at, reason: start_reason },
            );
            let finish = EventView::Finished {
                interval_id: id,
                state,
                window,
                started_at,
                ended_at,
                duration_nanos,
                reason: end_reason,
            };
            &&& record_result(started, finish) matches Ok(Some(rows))
            &&& rows.interval.started_at == started_at.seconds
            &&& rows.interval.ended_at == ended_at.seconds
            &&& rows.interval.start_reason == start_reason
            &&& rows.interval.end_reason == end_reason
            &&& rows.metadata.len() == 0
            &&& record_map(started, finish) == store
        }),
{
    let started = record_map(
        store,
        EventView::Started { interval_id: id, state, window, started_at, reason: start_reason },
    );
    assert(started.remove(id) =~= store);
}

} // verus!
