//! How the tracker's events and the store of pending intervals fit
//! together: every interval the tracker closes was started in the store with
//! the same state, window and start time, so the store accepts what the
//! tracker sends, with one exception for delayed title updates.

use vstd::prelude::*;
use crate::model::{ActivityState, Clock, EventView, WindowView};
use crate::storage::{PendingView, record_map, record_result};
use crate::tracker::{
    TrackerView, adopt_spec, finish_spec, metadata_spec, reconcile_spec, tracker_flush_spec,
    tracker_wf,
};

verus! {

/// The store holds exactly the tracker's open interval, as it was started,
/// and its id fits the database's integer range.
pub open spec fn coupled(t: TrackerView, store: Map<u64, PendingView>) -> bool {
    match t.interval {
        Some(i) => {
            &&& store.dom() == set![i.id]
            &&& store[i.id].state == i.state
            &&& store[i.id].window == i.window
            &&& store[i.id].started_at == i.started_wall
            &&& i.id <= i64::MAX
        },
        None => store.dom() == Set::<u64>::empty(),
    }
}

/// Recording `events` in order into `store` meets no error.
pub open spec fn all_recorded(store: Map<u64, PendingView>, events: Seq<EventView>) -> bool
    decreases events.len(),
{
    if events.len() == 0 {
        true
    } else {
        record_result(store, events[0]) is Ok && all_recorded(
            record_map(store, events[0]),
            events.drop_first(),
        )
    }
}

/// The store after recording `events` in order.
pub open spec fn recorded_map(store: Map<u64, PendingView>, events: Seq<EventView>) -> Map<
    u64,
    PendingView,
>
    decreases events.len(),
{
    if events.len() == 0 {
        store
    } else {
        recorded_map(record_map(store, events[0]), events.drop_first())
    }
}

/// The store accepts the finish event of the open interval, and is empty
/// afterwards, as the tracker's interval is.
pub proof fn law_finish_is_recorded(
    t: TrackerView,
    store: Map<u64, PendingView>,
    reason: Seq<char>,
    now: Clock,
)
    requires
        tracker_wf(t),
        coupled(t, store),
    ensures
        ({
            let (after, event) = finish_spec(t, reason, now);
            match event {
                Some(e) => record_result(store, e) is Ok && coupled(after, record_map(store, e)),
                None => coupled(after, store),
            }
        }),
{
    let (after, event) = finish_spec(t, reason, now);
    if let Some(i) = t.interval {
        assert(store.dom().contains(i.id));
        let e = event->0;
        assert(record_map(store, e).dom() =~= Set::<u64>::empty());
    }
}

/// Every reconciliation's events are accepted by a store that holds the
/// tracker's open interval, and the store then holds the new open interval.
/// Ids must stay within the database's integer range.
pub proof fn law_reconcile_is_recorded(
    t: TrackerView,
    store: Map<u64, PendingView>,
    state: ActivityState,
    window: Option<WindowView>,
    reason: Seq<char>,
    now: Clock,
)
    requires
        tracker_wf(t),
        coupled(t, store),
        t.next_interval_id <= i64::MAX,
    ensures
        ({
            let (after, events, _) = reconcile_spec(t, state, window, reason, now);
            &&& all_recorded(store, events)
            &&& coupled(after, recorded_map(store, events))
        }),
{
    reveal_with_fuel(all_recorded, 3);
    reveal_with_fuel(recorded_map, 3);
    let (after, events, outcome) = reconcile_spec(t, state, window, reason, now);
    if !crate::tracker::keeps_interval(t, state, window) {
        let (t1, finished) = finish_spec(t, reason, now);
        let cleared = match finished {
            Some(e) => record_map(store, e),
            None => store,
        };
        if let Some(i) = t.interval {
            assert(store.dom().contains(i.id));
            assert(cleared.dom() =~= Set::<u64>::empty());
        }
        assert(cleared.dom() =~= Set::<u64>::empty());
        if t1.next_interval_id != u64::MAX {
            let started = events.last();
            let filled = record_map(cleared, started);
            assert(!cleared.dom().contains(t1.next_interval_id));
            assert(filled.dom() =~= set![t1.next_interval_id]);
            match finished {
                Some(e) => {
                    assert(events.drop_first() =~= seq![started]);
                    assert(events.drop_first().drop_first() =~= Seq::<EventView>::empty());
                },
                None => {
                    assert(events.drop_first() =~= Seq::<EventView>::empty());
                },
            }
        } else {
            match finished {
                Some(e) => {
                    assert(events.drop_first() =~= Seq::<EventView>::empty());
                },
                None => {},
            }
        }
    }
}

/// Taking a new focused window sends nothing and leaves the open interval,
/// so the store still holds it.
pub proof fn law_adopt_keeps_store(
    t: TrackerView,
    store: Map<u64, PendingView>,
    window: Option<WindowView>,
    ignore_transient_none: bool,
)
    requires
        coupled(t, store),
    ensures
        coupled(adopt_spec(t, window, ignore_transient_none).0, store),
{
}

/// A title update that a metadata refresh reports names the open interval,
/// so the store accepts it.
pub proof fn law_metadata_is_recorded(
    t: TrackerView,
    store: Map<u64, PendingView>,
    updated: WindowView,
    now: Clock,
)
    requires
        tracker_wf(t),
        coupled(t, store),
    ensures
        ({
            let (after, event) = metadata_spec(t, updated, now);
            match event {
                Some(e) => record_result(store, e) is Ok && coupled(after, record_map(store, e)),
                None => coupled(after, store),
            }
        }),
{
    let (after, event) = metadata_spec(t, updated, now);
    if let Some(e) = event {
        let i = t.interval->0;
        assert(store.dom().contains(i.id));
        assert(record_map(store, e).dom() =~= store.dom());
    }
}

/// A title update that waited is accepted exactly when it names the
/// interval that is open when it is reported; a change that waited across
/// the end of its interval is refused. Either way the store still holds the
/// open interval.
pub proof fn law_flushed_update_is_recorded_while_its_interval_is_open(
    t: TrackerView,
    store: Map<u64, PendingView>,
    now: Clock,
)
    requires
        tracker_wf(t),
        coupled(t, store),
    ensures
        ({
            let (after, event) = tracker_flush_spec(t, now);
            match event {
                Some(e) => {
                    &&& (record_result(store, e) is Ok <==> (t.interval is Some && e->Metadata_interval_id
                        == t.interval->0.id))
                    &&& coupled(after, record_map(store, e))
                },
                None => coupled(after, store),
            }
        }),
{
    let (after, event) = tracker_flush_spec(t, now);
    if let Some(e) = event {
        let id = e->Metadata_interval_id;
        if store.contains_key(id) {
            assert(record_map(store, e).dom() =~= store.dom());
        }
    }
}

} // verus!
