//! The workflow timeline: what was focused, in order, with the unlogged
//! periods between.

use vstd::prelude::*;
use crate::order::option_equal;
use crate::report::opt_text;
use crate::style::{TextStyles, application_paint, dim_paint, header_paint, muted_paint, title_paint};
use crate::text::{duration_text, escape_terminal, escaped, format_duration, format_title, title_label};
use crate::time::{TimeRange, date_shown, date_text, format_period, period_label};
use crate::unlogged::{Gap, gap_labels, gap_lengths_fit, gap_length_fits, gap_row, gap_row_text, labels_fit_gaps};

verus! {

/// One stretch of time spent on one title of one application.
#[derive(Debug, Clone, PartialEq, Eq)]
pub struct WorkflowEntry {
    pub app_id: String,
    pub title: Option<String>,
    pub started_at: i64,
    pub ended_at: i64,
}

/// The value of a workflow entry.
pub struct EntryView {
    pub app_id: Seq<char>,
    pub title: Option<Seq<char>>,
    pub started_at: i64,
    pub ended_at: i64,
}

impl View for WorkflowEntry {
    type V = EntryView;

    open spec fn view(&self) -> EntryView {
        EntryView {
            app_id: self.app_id@,
            title: opt_text(self.title),
            started_at: self.started_at,
            ended_at: self.ended_at,
        }
    }
}

/// The values of a sequence of entries.
pub open spec fn entries_view(entries: Seq<WorkflowEntry>) -> Seq<EntryView> {
    entries.map_values(|e: WorkflowEntry| e@)
}

/// The length of an entry fits in an `i64`.
pub open spec fn length_fits(entry: EntryView) -> bool {
    i64::MIN <= entry.ended_at - entry.started_at <= i64::MAX
}

/// The length of every entry fits in an `i64`.
pub open spec fn lengths_fit(entries: Seq<EntryView>) -> bool {
    forall|i: int| 0 <= i < entries.len() ==> #[trigger] length_fits(entries[i])
}

impl WorkflowEntry {
    /// The entry's length in seconds.
    pub fn duration_seconds(&self) -> (seconds: i64)
        requires
            i64::MIN <= self.ended_at - self.started_at <= i64::MAX,
        ensures
            seconds == self.ended_at - self.started_at,
    {
        self.ended_at - self.started_at
    }
}

/// `next` continues `previous` without a break: it starts where `previous`
/// ends, in the same application, with the same title.
pub open spec fn continues(previous: EntryView, next: EntryView) -> bool {
    previous.ended_at == next.started_at && previous.app_id == next.app_id && previous.title
        == next.title
}

/// The entries with every entry that continues the one before it folded
/// into it, scanning from the first.
pub open spec fn merged(entries: Seq<EntryView>) -> Seq<EntryView>
    decreases entries.len(),
{
    if entries.len() == 0 {
        Seq::empty()
    } else {
        let before = merged(entries.drop_last());
        let next = entries.last();
        if before.len() > 0 && continues(before.last(), next) {
            before.update(before.len() - 1, EntryView { ended_at: next.ended_at, ..before.last() })
        } else {
            before.push(next)
        }
    }
}

fn copy_entry(e: &WorkflowEntry) -> (c: WorkflowEntry)
    ensures
        c@ == e@,
{
    WorkflowEntry {
        app_id: e.app_id.clone(),
        title: match &e.title {
            Some(t) => Some(t.clone()),
            None => None,
        },
        started_at: e.started_at,
        ended_at: e.ended_at,
    }
}

/// Joins each entry that continues the previous one into it (see `merged`).
pub fn merge_adjacent(entries: Vec<WorkflowEntry>) -> (out: Vec<WorkflowEntry>)
    ensures
        entries_view(out@) == merged(entries_view(entries@)),
{
    let mut out: Vec<WorkflowEntry> = Vec::new();
    let mut i: usize = 0;
    while i < entries.len()
        invariant
            i <= entries.len(),
            entries_view(out@) == merged(entries_view(entries@).take(i as int)),
        decreases entries.len() - i,
    {
        let ghost before = entries_view(out@);
        let next = &entries[i];
        assert(entries_view(entries@).take(i + 1).drop_last() =~= entries_view(entries@).take(
            i as int,
        ));
        assert(entries_view(entries@).take(i + 1).last() == next@);
        let n = out.len();
        let joined = if n > 0 {
            let last = &out[n - 1];
            last.ended_at == next.started_at && last.app_id.eq(&next.app_id) && option_equal(
                &last.title,
                &next.title,
            )
        } else {
            false
        };
        if joined {
            let last = &out[n - 1];
            let updated = WorkflowEntry {
                app_id: last.app_id.clone(),
                title: match &last.title {
                    Some(t) => Some(t.clone()),
                    None => None,
                },
                started_at: last.started_at,
                ended_at: next.ended_at,
            };
            out.set(n - 1, updated);
            assert(entries_view(out@) =~= before.update(
                before.len() - 1,
                EntryView { ended_at: next.ended_at, ..before.last() },
            ));
        } else {
            out.push(copy_entry(next));
            assert(entries_view(out@) =~= before.push(next@));
        }
        i = i + 1;
    }
    assert(entries_view(entries@).take(entries.len() as int) =~= entries_view(entries@));
    out
}

/// The summed length of the entries.
pub open spec fn total_time(entries: Seq<EntryView>) -> int
    decreases entries.len(),
{
    if entries.len() == 0 {
        0
    } else {
        total_time(entries.drop_last()) + (entries.last().ended_at - entries.last().started_at)
    }
}

/// No two neighbouring entries of a merged timeline continue each other:
/// merging leaves nothing more to merge.
pub proof fn law_merged_entries_do_not_continue(entries: Seq<EntryView>)
    ensures
        forall|i: int|
            0 <= i < merged(entries).len() - 1 ==> !continues(
                #[trigger] merged(entries)[i],
                merged(entries)[i + 1],
            ),
    decreases entries.len(),
{
    if entries.len() > 0 {
        law_merged_entries_do_not_continue(entries.drop_last());
        let before = merged(entries.drop_last());
        let next = entries.last();
        if before.len() > 0 && continues(before.last(), next) {
            let after = merged(entries);
            assert forall|i: int| 0 <= i < after.len() - 1 implies !continues(
                #[trigger] after[i],
                after[i + 1],
            ) by {
                if i + 1 == before.len() - 1 {
                    assert(after[i] == before[i]);
                    assert(!continues(before[i], before[i + 1]));
                } else {
                    assert(after[i] == before[i]);
                    assert(after[i + 1] == before[i + 1]);
                }
            }
        } else {
            let after = merged(entries);
            assert forall|i: int| 0 <= i < after.len() - 1 implies !continues(
                #[trigger] after[i],
                after[i + 1],
            ) by {
                if i + 1 < before.len() {
                    assert(after[i] == before[i]);
                    assert(after[i + 1] == before[i + 1]);
                }
            }
        }
    }
}

/// The run boundaries: `out_len + 1` of them, from 0 to `n`, strictly
/// increasing.
#[verifier::opaque]
pub open spec fn runs_ordered(out_len: int, n: int, bounds: Seq<int>) -> bool {
    &&& bounds.len() == out_len + 1
    &&& bounds[0] == 0
    &&& bounds[out_len] == n
    &&& forall|i: int, j: int| 0 <= i < j <= out_len ==> #[trigger] bounds[i] < #[trigger] bounds[j]
}

/// Each output entry has the application and title of its run's first
/// entry, starts where that entry starts and ends where the run's last
/// entry ends.
#[verifier::opaque]
pub open spec fn runs_spanned(entries: Seq<EntryView>, out: Seq<EntryView>, bounds: Seq<int>) -> bool {
    forall|k: int|
        #![trigger out[k]]
        0 <= k < out.len() ==> out[k] == EntryView {
            app_id: entries[bounds[k]].app_id,
            title: entries[bounds[k]].title,
            started_at: entries[bounds[k]].started_at,
            ended_at: entries[bounds[k + 1] - 1].ended_at,
        }
}

/// Every entry of a run has the application and title of its output entry.
#[verifier::opaque]
pub open spec fn runs_uniform(entries: Seq<EntryView>, out: Seq<EntryView>, bounds: Seq<int>) -> bool {
    forall|k: int, m: int|
        #![trigger out[k], entries[m]]
        0 <= k < out.len() && bounds[k] <= m < bounds[k + 1] ==> entries[m].app_id == out[k].app_id
            && entries[m].title == out[k].title
}

/// The entry after `m` starts where entry `m` ends.
pub open spec fn touches(entries: Seq<EntryView>, m: int) -> bool {
    entries[m].ended_at == entries[m + 1].started_at
}

/// Within a run each entry (of the run's application) is followed by one
/// that starts where it ends.
#[verifier::opaque]
pub open spec fn runs_unbroken(entries: Seq<EntryView>, out: Seq<EntryView>, bounds: Seq<int>) -> bool {
    forall|k: int, m: int|
        #![trigger out[k], touches(entries, m)]
        0 <= k < out.len() && bounds[k] <= m < bounds[k + 1] - 1 ==> touches(entries, m)
            && entries[m].app_id == out[k].app_id
}

/// No run could be joined to the one before it: the entries on either side
/// of a boundary differ in application or title, or do not touch in time.
#[verifier::opaque]
pub open spec fn runs_maximal(entries: Seq<EntryView>, out: Seq<EntryView>, bounds: Seq<int>) -> bool {
    forall|k: int|
        #![trigger bounds[k]]
        0 < k < out.len() ==> !(entries[bounds[k] - 1].ended_at == entries[bounds[k]].started_at
            && entries[bounds[k] - 1].app_id == entries[bounds[k]].app_id && entries[bounds[k]
            - 1].title == entries[bounds[k]].title)
}

/// `bounds` cuts `entries` into the consecutive runs that became `out`: the
/// `k`-th output entry covers the entries `bounds[k]` up to (not including)
/// `bounds[k + 1]`, it spans them, they share its application and title
/// and follow each other without a break, and no two neighbouring runs
/// could be joined.
pub open spec fn merge_runs(entries: Seq<EntryView>, out: Seq<EntryView>, bounds: Seq<int>) -> bool {
    &&& runs_ordered(out.len() as int, entries.len() as int, bounds)
    &&& runs_spanned(entries, out, bounds)
    &&& runs_uniform(entries, out, bounds)
    &&& runs_unbroken(entries, out, bounds)
    &&& runs_maximal(entries, out, bounds)
}

/// The last entry continues the last merged one.
spec fn joins_last(entries: Seq<EntryView>, before: Seq<EntryView>) -> bool {
    before.len() > 0 && continues(before.last(), entries.last())
}

/// One merging step: the last entry folded into the last merged one, or
/// added after it.
spec fn step_out(entries: Seq<EntryView>, before: Seq<EntryView>) -> Seq<EntryView> {
    if joins_last(entries, before) {
        before.update(before.len() - 1, EntryView { ended_at: entries.last().ended_at, ..before.last() })
    } else {
        before.push(entries.last())
    }
}

/// The boundaries after one merging step.
spec fn step_bounds(entries: Seq<EntryView>, before: Seq<EntryView>, b0: Seq<int>) -> Seq<int> {
    if joins_last(entries, before) {
        b0.update(before.len() as int, entries.len() as int)
    } else {
        b0.push(entries.len() as int)
    }
}

proof fn lemma_step_ordered(entries: Seq<EntryView>, before: Seq<EntryView>, b0: Seq<int>)
    requires
        entries.len() > 0,
        runs_ordered(before.len() as int, entries.len() - 1, b0),
    ensures
        runs_ordered(
            step_out(entries, before).len() as int,
            entries.len() as int,
            step_bounds(entries, before, b0),
        ),
{
    reveal(runs_ordered);
    let len = before.len() as int;
    let b = step_bounds(entries, before, b0);
    let out = step_out(entries, before);
    if joins_last(entries, before) {
        assert forall|i: int, j: int| 0 <= i < j <= out.len() implies #[trigger] b[i] < #[trigger] b[j] by {
            if j < len {
                assert(b0[i] < b0[j]);
            } else if i < len {
                assert(b0[i] < b0[len]);
            }
        }
    } else {
        assert forall|i: int, j: int| 0 <= i < j <= out.len() implies #[trigger] b[i] < #[trigger] b[j] by {
            if j <= len {
                assert(b0[i] < b0[j]);
            } else if i < len {
                assert(b0[i] < b0[len]);
            }
        }
    }
}

proof fn lemma_step_spanned(entries: Seq<EntryView>, before: Seq<EntryView>, b0: Seq<int>)
    requires
        entries.len() > 0,
        runs_ordered(before.len() as int, entries.len() - 1, b0),
        runs_spanned(entries.drop_last(), before, b0),
    ensures
        runs_spanned(entries, step_out(entries, before), step_bounds(entries, before, b0)),
{
    reveal(runs_ordered);
    reveal(runs_spanned);
    let prefix = entries.drop_last();
    let n = entries.len() as int;
    let len = before.len() as int;
    let b = step_bounds(entries, before, b0);
    let out = step_out(entries, before);
    assert forall|k: int|
        #![trigger out[k]]
        0 <= k < out.len() implies out[k] == EntryView {
            app_id: entries[b[k]].app_id,
            title: entries[b[k]].title,
            started_at: entries[b[k]].started_at,
            ended_at: entries[b[k + 1] - 1].ended_at,
        } by {
        if k < len && !(joins_last(entries, before) && k == len - 1) {
            assert(out[k] == before[k]);
            assert(b0[k] < b0[k + 1]);
            assert(b[k] == b0[k]);
            assert(b[k + 1] == b0[k + 1]);
            assert(entries[b[k]] == prefix[b0[k]]);
            assert(entries[b[k + 1] - 1] == prefix[b0[k + 1] - 1]);
        } else if k == len - 1 {
            assert(b0[k] < b0[k + 1]);
            assert(before[k] == before.last());
            assert(entries[b[k]] == prefix[b0[k]]);
        }
    }
}

proof fn lemma_step_uniform(entries: Seq<EntryView>, before: Seq<EntryView>, b0: Seq<int>)
    requires
        entries.len() > 0,
        runs_ordered(before.len() as int, entries.len() - 1, b0),
        runs_uniform(entries.drop_last(), before, b0),
    ensures
        runs_uniform(entries, step_out(entries, before), step_bounds(entries, before, b0)),
{
    reveal(runs_ordered);
    reveal(runs_uniform);
    let prefix = entries.drop_last();
    let n = entries.len() as int;
    let len = before.len() as int;
    let b = step_bounds(entries, before, b0);
    let out = step_out(entries, before);
    assert forall|k: int, m: int|
        #![trigger out[k], entries[m]]
        0 <= k < out.len() && b[k] <= m < b[k + 1] implies entries[m].app_id == out[k].app_id
        && entries[m].title == out[k].title by {
        if m < n - 1 {
            assert(entries[m] == prefix[m]);
            if k < len {
                assert(b[k] == b0[k]);
                if k < len - 1 {
                    assert(b[k + 1] == b0[k + 1]);
                } else {
                    assert(m < b0[k + 1]);
                }
                assert(prefix[m].app_id == before[k].app_id);
                assert(out[k].app_id == before[k].app_id && out[k].title == before[k].title);
            } else {
                assert(b0[len] == n - 1);
            }
        } else if k < len {
            assert(joins_last(entries, before));
            assert(before[k] == before.last());
        }
    }
}

proof fn lemma_step_unbroken(entries: Seq<EntryView>, before: Seq<EntryView>, b0: Seq<int>)
    requires
        entries.len() > 0,
        runs_ordered(before.len() as int, entries.len() - 1, b0),
        runs_spanned(entries.drop_last(), before, b0),
        runs_uniform(entries, step_out(entries, before), step_bounds(entries, before, b0)),
        runs_unbroken(entries.drop_last(), before, b0),
    ensures
        runs_unbroken(entries, step_out(entries, before), step_bounds(entries, before, b0)),
{
    let prefix = entries.drop_last();
    let n = entries.len() as int;
    let len = before.len() as int;
    let b = step_bounds(entries, before, b0);
    let out = step_out(entries, before);
    if joins_last(entries, before) {
        assert(prefix[n - 2].ended_at == entries[n - 1].started_at) by {
            reveal(runs_ordered);
            reveal(runs_spanned);
            assert(before[len - 1] == before.last());
            assert(b0[len - 1] < b0[len]);
        }
    }
    reveal(runs_ordered);
    reveal(runs_unbroken);
    assert forall|k: int, m: int|
        #![trigger out[k], touches(entries, m)]
        0 <= k < out.len() && b[k] <= m < b[k + 1] - 1 implies touches(entries, m)
        && entries[m].app_id == out[k].app_id by {
        reveal(runs_uniform);
        assert(entries[m].app_id == out[k].app_id);
        if m + 1 < n - 1 {
            assert(entries[m] == prefix[m]);
            assert(entries[m + 1] == prefix[m + 1]);
            if k < len {
                assert(b[k] == b0[k]);
                if k < len - 1 {
                    assert(b[k + 1] == b0[k + 1]);
                }
                assert(touches(prefix, m));
            } else {
                assert(b0[len] == n - 1);
            }
        } else {
            assert(k < len);
            assert(joins_last(entries, before));
            assert(entries[m] == prefix[n - 2]);
        }
    }
}

proof fn lemma_step_maximal(entries: Seq<EntryView>, before: Seq<EntryView>, b0: Seq<int>)
    requires
        entries.len() > 0,
        runs_ordered(before.len() as int, entries.len() - 1, b0),
        runs_spanned(entries.drop_last(), before, b0),
        runs_uniform(entries.drop_last(), before, b0),
        runs_maximal(entries.drop_last(), before, b0),
    ensures
        runs_maximal(entries, step_out(entries, before), step_bounds(entries, before, b0)),
{
    reveal(runs_ordered);
    reveal(runs_maximal);
    let prefix = entries.drop_last();
    let n = entries.len() as int;
    let len = before.len() as int;
    let b = step_bounds(entries, before, b0);
    let out = step_out(entries, before);
    assert forall|k: int|
        #![trigger b[k]]
        0 < k < out.len() implies !(entries[b[k] - 1].ended_at == entries[b[k]].started_at
        && entries[b[k] - 1].app_id == entries[b[k]].app_id && entries[b[k] - 1].title
        == entries[b[k]].title) by {
        if k < len {
            assert(b[k] == b0[k]);
            assert(b0[k] < b0[len]);
            assert(b0[0] < b0[k]);
            assert(entries[b[k]] == prefix[b0[k]]);
            assert(entries[b[k] - 1] == prefix[b0[k] - 1]);
        } else {
            reveal(runs_spanned);
            reveal(runs_uniform);
            assert(!joins_last(entries, before));
            assert(before[len - 1] == before.last());
            assert(b0[len - 1] < b0[len]);
            assert(before.last().ended_at == prefix[n - 2].ended_at);
            assert(prefix[n - 2].app_id == before[len - 1].app_id);
            assert(prefix[n - 2].title == before[len - 1].title);
            assert(entries[n - 2] == prefix[n - 2]);
            assert(entries[n - 1] == entries.last());
        }
    }
}

/// Merging joins exactly the runs of entries that continue one another:
/// the merged timeline cuts the entries into consecutive runs (whose
/// boundaries are returned), each run made of entries of one application
/// and one title that follow each other without a break, each merged entry
/// spanning its run, and no two neighbouring runs joinable.
pub proof fn law_merging_joins_runs(entries: Seq<EntryView>) -> (bounds: Seq<int>)
    ensures
        merge_runs(entries, merged(entries), bounds),
    decreases entries.len(),
{
    if entries.len() == 0 {
        reveal(runs_ordered);
        reveal(runs_spanned);
        reveal(runs_uniform);
        reveal(runs_unbroken);
        reveal(runs_maximal);
        seq![0]
    } else {
        let prefix = entries.drop_last();
        let b0 = law_merging_joins_runs(prefix);
        let before = merged(prefix);
        assert(merged(entries) == step_out(entries, before));
        lemma_step_ordered(entries, before, b0);
        lemma_step_spanned(entries, before, b0);
        lemma_step_uniform(entries, before, b0);
        lemma_step_unbroken(entries, before, b0);
        lemma_step_maximal(entries, before, b0);
        step_bounds(entries, before, b0)
    }
}

/// Merging neither adds nor loses time: the merged entries last as long in
/// total as the entries they came from.
pub proof fn law_merging_keeps_total_time(entries: Seq<EntryView>)
    ensures
        total_time(merged(entries)) == total_time(entries),
    decreases entries.len(),
{
    if entries.len() > 0 {
        law_merging_keeps_total_time(entries.drop_last());
        let before = merged(entries.drop_last());
        let next = entries.last();
        if before.len() > 0 && continues(before.last(), next) {
            let joined = EntryView { ended_at: next.ended_at, ..before.last() };
            let after = before.update(before.len() - 1, joined);
            assert(after.drop_last() =~= before.drop_last());
            assert(after.last() == joined);
        } else {
            assert(before.push(next).drop_last() =~= before);
        }
    }
}

/// A timeline position: start, end, and the index of the row (entries
/// first, then gaps).
pub type Key = (i64, i64, usize);

/// Keys are ordered by start, then by end.
pub open spec fn key_le(a: Key, b: Key) -> bool {
    a.0 < b.0 || (a.0 == b.0 && a.1 <= b.1)
}

/// `key` placed into the ordered `keys` after every key that does not come
/// after it.
pub open spec fn insert_key(keys: Seq<Key>, key: Key) -> Seq<Key>
    decreases keys.len(),
{
    if keys.len() == 0 {
        seq![key]
    } else if key_le(keys.last(), key) {
        keys.push(key)
    } else {
        insert_key(keys.drop_last(), key).push(keys.last())
    }
}

/// The keys ordered by start and end, keys with equal times keeping their
/// order (a stable sort).
pub open spec fn sorted_keys(keys: Seq<Key>) -> Seq<Key>
    decreases keys.len(),
{
    if keys.len() == 0 {
        Seq::empty()
    } else {
        insert_key(sorted_keys(keys.drop_last()), keys.last())
    }
}

proof fn lemma_insert_at(keys: Seq<Key>, key: Key, i: int)
    requires
        0 <= i <= keys.len(),
        i == 0 || key_le(keys[i - 1], key),
        forall|j: int| i <= j < keys.len() ==> !key_le(#[trigger] keys[j], key),
    ensures
        insert_key(keys, key) =~= keys.take(i).push(key) + keys.skip(i),
    decreases keys.len(),
{
    if keys.len() == 0 {
    } else if key_le(keys.last(), key) {
        assert(i == keys.len());
    } else {
        lemma_insert_at(keys.drop_last(), key, i);
        assert(keys.drop_last().take(i) =~= keys.take(i));
        assert(keys.drop_last().skip(i).push(keys.last()) =~= keys.skip(i));
    }
}

fn insert_sorted(keys: &mut Vec<Key>, key: Key)
    ensures
        final(keys)@ == insert_key(old(keys)@, key),
{
    let mut i: usize = keys.len();
    while i > 0 && !(keys[i - 1].0 < key.0 || (keys[i - 1].0 == key.0 && keys[i - 1].1 <= key.1))
        invariant
            i <= keys.len(),
            forall|j: int| i <= j < keys.len() ==> !key_le(#[trigger] keys@[j], key),
        decreases i,
    {
        i = i - 1;
    }
    let ghost before = keys@;
    proof {
        lemma_insert_at(before, key, i as int);
    }
    keys.insert(i, key);
    assert(keys@ =~= before.take(i as int).push(key) + before.skip(i as int));
}

/// Orders keys by start and end, keeping the order of keys with equal times.
pub fn sort_keys(keys: &Vec<Key>) -> (sorted: Vec<Key>)
    ensures
        sorted@ == sorted_keys(keys@),
{
    let mut sorted: Vec<Key> = Vec::new();
    let mut i: usize = 0;
    while i < keys.len()
        invariant
            i <= keys.len(),
            sorted@ == sorted_keys(keys@.take(i as int)),
        decreases keys.len() - i,
    {
        assert(keys@.take(i + 1).drop_last() =~= keys@.take(i as int));
        insert_sorted(&mut sorted, keys[i]);
        i = i + 1;
    }
    assert(keys@.take(keys.len() as int) =~= keys@);
    sorted
}

/// The keys are in time order.
pub open spec fn keys_ordered(keys: Seq<Key>) -> bool {
    forall|i: int, j: int| 0 <= i < j < keys.len() ==> key_le(#[trigger] keys[i], #[trigger] keys[j])
}

proof fn lemma_insert_contents(keys: Seq<Key>, key: Key)
    ensures
        insert_key(keys, key).len() == keys.len() + 1,
        forall|k: int|
            0 <= k < insert_key(keys, key).len() ==> #[trigger] insert_key(keys, key)[k] == key
                || keys.contains(insert_key(keys, key)[k]),
    decreases keys.len(),
{
    if keys.len() > 0 && !key_le(keys.last(), key) {
        lemma_insert_contents(keys.drop_last(), key);
        let inner = insert_key(keys.drop_last(), key);
        assert forall|k: int| 0 <= k < insert_key(keys, key).len() implies #[trigger] insert_key(
            keys,
            key,
        )[k] == key || keys.contains(insert_key(keys, key)[k]) by {
            if k < inner.len() {
                let y = inner[k];
                if y != key {
                    let w = choose|w: int| 0 <= w < keys.drop_last().len() && keys.drop_last()[w] == y;
                    assert(keys[w] == y);
                }
            } else {
                assert(keys[keys.len() - 1] == keys.last());
            }
        }
    }
}

proof fn lemma_insert_ordered(keys: Seq<Key>, key: Key)
    requires
        keys_ordered(keys),
    ensures
        keys_ordered(insert_key(keys, key)),
    decreases keys.len(),
{
    if keys.len() == 0 {
    } else if key_le(keys.last(), key) {
        let out = keys.push(key);
        assert forall|i: int, j: int| 0 <= i < j < out.len() implies key_le(
            #[trigger] out[i],
            #[trigger] out[j],
        ) by {
            if j == keys.len() && i < keys.len() - 1 {
                assert(key_le(keys[i], keys[keys.len() - 1]));
            }
        }
    } else {
        let rest = keys.drop_last();
        assert(keys_ordered(rest));
        lemma_insert_ordered(rest, key);
        lemma_insert_contents(rest, key);
        let inner = insert_key(rest, key);
        let out = inner.push(keys.last());
        assert forall|i: int, j: int| 0 <= i < j < out.len() implies key_le(
            #[trigger] out[i],
            #[trigger] out[j],
        ) by {
            if j == inner.len() {
                let y = inner[i];
                if y != key {
                    let w = choose|w: int| 0 <= w < rest.len() && rest[w] == y;
                    assert(key_le(keys[w], keys[keys.len() - 1]));
                }
            }
        }
    }
}

/// The sorted keys are in time order and as many as the keys.
pub proof fn law_sorted_keys_are_ordered(keys: Seq<Key>)
    ensures
        keys_ordered(sorted_keys(keys)),
        sorted_keys(keys).len() == keys.len(),
    decreases keys.len(),
{
    if keys.len() > 0 {
        law_sorted_keys_are_ordered(keys.drop_last());
        lemma_insert_ordered(sorted_keys(keys.drop_last()), keys.last());
        lemma_insert_contents(sorted_keys(keys.drop_last()), keys.last());
    }
}

/// The timeline keys: each entry's times with its index, then each gap's
/// times with its index after the entries.
pub open spec fn timeline_keys(entries: Seq<EntryView>, gaps: Seq<Gap>) -> Seq<Key> {
    Seq::new(entries.len(), |i: int| (entries[i].started_at, entries[i].ended_at, i as usize))
        + Seq::new(
        gaps.len(),
        |i: int| (gaps[i].started_at, gaps[i].ended_at, (entries.len() + i) as usize),
    )
}

/// Builds the timeline keys.
pub fn timeline_keys_of(entries: &Vec<WorkflowEntry>, gaps: &Vec<Gap>) -> (keys: Vec<Key>)
    requires
        entries.len() + gaps.len() <= usize::MAX,
    ensures
        keys@ == timeline_keys(entries_view(entries@), gaps@),
{
    let ghost ev = entries_view(entries@);
    let mut keys: Vec<Key> = Vec::new();
    let mut i: usize = 0;
    while i < entries.len()
        invariant
            i <= entries.len(),
            ev == entries_view(entries@),
            keys@.len() == i,
            forall|k: int|
                0 <= k < i ==> #[trigger] keys@[k] == (ev[k].started_at, ev[k].ended_at, k as usize),
        decreases entries.len() - i,
    {
        keys.push((entries[i].started_at, entries[i].ended_at, i));
        i = i + 1;
    }
    let n = entries.len();
    let mut j: usize = 0;
    while j < gaps.len()
        invariant
            j <= gaps.len(),
            n == entries.len(),
            n + gaps.len() <= usize::MAX,
            keys@.len() == n + j,
            forall|k: int|
                0 <= k < n ==> #[trigger] keys@[k] == (ev[k].started_at, ev[k].ended_at, k as usize),
            forall|k: int|
                0 <= k < j ==> #[trigger] keys@[n + k] == (
                    gaps@[k].started_at,
                    gaps@[k].ended_at,
                    (n + k) as usize,
                ),
        decreases gaps.len() - j,
    {
        keys.push((gaps[j].started_at, gaps[j].ended_at, n + j));
        j = j + 1;
    }
    let ghost expected = timeline_keys(ev, gaps@);
    assert forall|k: int| 0 <= k < keys@.len() implies #[trigger] keys@[k] == expected[k] by {
        if k >= n {
            assert(keys@[n + (k - n)] == expected[k]);
        }
    }
    assert(keys@ =~= expected);
    keys
}

/// The timeline text of an entry shown with the period label `label`.
pub open spec fn entry_row_text(styles: TextStyles, entry: EntryView, label: Seq<char>) -> Seq<char> {
    styles.painted(dim_paint(), label) + "  "@ + styles.painted(application_paint(), escaped(entry.app_id))
        + "  "@ + styles.painted(title_paint(), title_label(entry.title)) + "  "@ + styles.painted(
        dim_paint(),
        duration_text(entry.ended_at - entry.started_at),
    )
}

/// Writes the timeline text of an entry with a given period label.
pub fn entry_row(styles: &TextStyles, entry: &WorkflowEntry, label: &str) -> (text: String)
    requires
        i64::MIN <= entry.ended_at - entry.started_at <= i64::MAX,
    ensures
        text@ == entry_row_text(*styles, entry@, label@),
{
    let mut text = styles.time(label);
    text.append("  ");
    text.append(styles.application(escape_terminal(entry.app_id.as_str()).as_str()).as_str());
    text.append("  ");
    let title = match &entry.title {
        Some(t) => format_title(Some(t.as_str())),
        None => format_title(None),
    };
    text.append(styles.title(title.as_str()).as_str());
    text.append("  ");
    text.append(styles.duration(format_duration(entry.duration_seconds()).as_str()).as_str());
    assert(text@ =~= entry_row_text(*styles, entry@, label@));
    text
}

/// The text of the timeline row at index `index`: an entry's row, or a
/// gap's row for indices after the entries.
pub open spec fn row_text(
    styles: TextStyles,
    entries: Seq<EntryView>,
    entry_labels: Seq<Seq<char>>,
    gaps: Seq<Gap>,
    gap_labels: Seq<Seq<char>>,
    index: int,
) -> Seq<char> {
    if index < entries.len() {
        entry_row_text(styles, entries[index], entry_labels[index])
    } else {
        gap_row_text(styles, gaps[index - entries.len()], gap_labels[index - entries.len()])
    }
}

/// The lines of the rows the keys name, each after a line break.
pub open spec fn row_lines(
    styles: TextStyles,
    entries: Seq<EntryView>,
    entry_labels: Seq<Seq<char>>,
    gaps: Seq<Gap>,
    gap_labels: Seq<Seq<char>>,
    keys: Seq<Key>,
) -> Seq<char>
    decreases keys.len(),
{
    if keys.len() == 0 {
        Seq::empty()
    } else {
        row_lines(styles, entries, entry_labels, gaps, gap_labels, keys.drop_last()) + "\n"@
            + row_text(styles, entries, entry_labels, gaps, gap_labels, keys.last().2 as int)
    }
}

/// The heading of a workflow: one date, or the first and last date.
pub open spec fn workflow_heading(range: TimeRange) -> Seq<char> {
    if range.since == range.until {
        "Workflow for "@ + date_shown(range.since)
    } else {
        "Workflow from "@ + date_shown(range.since) + " through "@ + date_shown(range.until)
    }
}

/// The note shown when nothing was recorded.
pub open spec fn no_intervals() -> Seq<char> {
    "No completed active intervals."@
}

/// The workflow text: the heading, the note when there is no entry, then
/// the rows in time order.
pub open spec fn workflow_text(
    styles: TextStyles,
    range: TimeRange,
    entries: Seq<EntryView>,
    entry_labels: Seq<Seq<char>>,
    gaps: Seq<Gap>,
    gap_labels: Seq<Seq<char>>,
) -> Seq<char> {
    styles.painted(header_paint(), workflow_heading(range)) + (if entries.len() == 0 {
        "\n"@ + styles.painted(muted_paint(), no_intervals())
    } else {
        Seq::empty()
    }) + row_lines(
        styles,
        entries,
        entry_labels,
        gaps,
        gap_labels,
        sorted_keys(timeline_keys(entries, gaps)),
    )
}

/// Writes the heading of a workflow.
pub fn heading_of(range: TimeRange) -> (text: String)
    ensures
        text@ == workflow_heading(range),
{
    let mut text = String::new();
    if range.since == range.until {
        text.append("Workflow for ");
        text.append(date_text(range.since).as_str());
    } else {
        text.append("Workflow from ");
        text.append(date_text(range.since).as_str());
        text.append(" through ");
        text.append(date_text(range.until).as_str());
    }
    assert(text@ =~= workflow_heading(range));
    text
}

/// Every key of the sorted timeline names an entry or a gap.
pub proof fn lemma_sorted_keys_in_range(keys: Seq<Key>, bound: int)
    requires
        forall|k: int| 0 <= k < keys.len() ==> (#[trigger] keys[k]).2 < bound,
    ensures
        forall|k: int| 0 <= k < sorted_keys(keys).len() ==> (#[trigger] sorted_keys(keys)[k]).2 < bound,
        sorted_keys(keys).len() == keys.len(),
    decreases keys.len(),
{
    if keys.len() > 0 {
        lemma_sorted_keys_in_range(keys.drop_last(), bound);
        lemma_insert_in_range(sorted_keys(keys.drop_last()), keys.last(), bound);
    }
}

proof fn lemma_insert_in_range(keys: Seq<Key>, key: Key, bound: int)
    requires
        forall|k: int| 0 <= k < keys.len() ==> (#[trigger] keys[k]).2 < bound,
        key.2 < bound,
    ensures
        forall|k: int| 0 <= k < insert_key(keys, key).len() ==> (#[trigger] insert_key(keys, key)[k]).2 < bound,
        insert_key(keys, key).len() == keys.len() + 1,
    decreases keys.len(),
{
    if keys.len() > 0 && !key_le(keys.last(), key) {
        lemma_insert_in_range(keys.drop_last(), key, bound);
    }
}

fn push_row(
    text: &mut String,
    styles: &TextStyles,
    entries: &Vec<WorkflowEntry>,
    entry_labels: &Vec<String>,
    gaps: &Vec<Gap>,
    gap_labels: &Vec<String>,
    index: usize,
)
    requires
        index < entries.len() + gaps.len(),
        entry_labels.len() == entries.len(),
        gap_labels.len() == gaps.len(),
        lengths_fit(entries_view(entries@)),
        gap_lengths_fit(gaps@),
    ensures
        final(text)@ == old(text)@ + row_text(
            *styles,
            entries_view(entries@),
            entry_labels@.map_values(|l: String| l@),
            gaps@,
            gap_labels@.map_values(|l: String| l@),
            index as int,
        ),
{
    if index < entries.len() {
        assert(length_fits(entries_view(entries@)[index as int]));
        let row = entry_row(styles, &entries[index], entry_labels[index].as_str());
        text.append(row.as_str());
    } else {
        let g = index - entries.len();
        assert(gap_length_fits(gaps@[g as int]));
        let row = gap_row(styles, &gaps[g], gap_labels[g].as_str());
        text.append(row.as_str());
    }
}

/// Writes the workflow from entries, gaps and their period labels.
pub fn compose_workflow(
    styles: &TextStyles,
    range: TimeRange,
    entries: &Vec<WorkflowEntry>,
    entry_labels: &Vec<String>,
    gaps: &Vec<Gap>,
    gap_labels: &Vec<String>,
) -> (text: String)
    requires
        entry_labels.len() == entries.len(),
        gap_labels.len() == gaps.len(),
        entries.len() + gaps.len() <= usize::MAX,
        lengths_fit(entries_view(entries@)),
        gap_lengths_fit(gaps@),
    ensures
        text@ == workflow_text(
            *styles,
            range,
            entries_view(entries@),
            entry_labels@.map_values(|l: String| l@),
            gaps@,
            gap_labels@.map_values(|l: String| l@),
        ),
{
    let ghost ev = entries_view(entries@);
    let ghost el = entry_labels@.map_values(|l: String| l@);
    let ghost gl = gap_labels@.map_values(|l: String| l@);
    let mut text = styles.header(heading_of(range).as_str());
    if entries.len() == 0 {
        text.append("\n");
        text.append(styles.muted("No completed active intervals.").as_str());
    }
    let ghost head = text@;
    let keys = sort_keys(&timeline_keys_of(entries, gaps));
    proof {
        let all = timeline_keys(ev, gaps@);
        assert forall|k: int| 0 <= k < all.len() implies (#[trigger] all[k]).2 < entries.len() + gaps.len() by {
        }
        lemma_sorted_keys_in_range(all, entries.len() + gaps.len());
    }
    let mut i: usize = 0;
    while i < keys.len()
        invariant
            i <= keys.len(),
            entry_labels.len() == entries.len(),
            gap_labels.len() == gaps.len(),
            lengths_fit(entries_view(entries@)),
            gap_lengths_fit(gaps@),
            ev == entries_view(entries@),
            el == entry_labels@.map_values(|l: String| l@),
            gl == gap_labels@.map_values(|l: String| l@),
            forall|k: int| 0 <= k < keys@.len() ==> (#[trigger] keys@[k]).2 < entries.len() + gaps.len(),
            text@ == head + row_lines(*styles, ev, el, gaps@, gl, keys@.take(i as int)),
        decreases keys.len() - i,
    {
        text.append("\n");
        let key = keys[i];
        assert(key.2 < entries.len() + gaps.len());
        push_row(&mut text, styles, entries, entry_labels, gaps, gap_labels, key.2);
        assert(keys@.take(i + 1).drop_last() =~= keys@.take(i as int));
        assert(text@ =~= head + row_lines(*styles, ev, el, gaps@, gl, keys@.take(i + 1)));
        i = i + 1;
    }
    assert(keys@.take(keys.len() as int) =~= keys@);
    text
}

/// One row of the machine-readable timeline.
#[derive(Debug, Clone, PartialEq, Eq)]
pub enum TimelineItem {
    Active(WorkflowEntry),
    Unlogged(Gap),
}

/// The value of a timeline row.
pub enum ItemView {
    Active(EntryView),
    Unlogged(Gap),
}

impl View for TimelineItem {
    type V = ItemView;

    open spec fn view(&self) -> ItemView {
        match self {
            TimelineItem::Active(e) => ItemView::Active(e@),
            TimelineItem::Unlogged(g) => ItemView::Unlogged(*g),
        }
    }
}

/// The row a timeline index names.
pub open spec fn item_at(entries: Seq<EntryView>, gaps: Seq<Gap>, index: int) -> ItemView {
    if index < entries.len() {
        ItemView::Active(entries[index])
    } else {
        ItemView::Unlogged(gaps[index - entries.len()])
    }
}

/// The entries and gaps in time order, rows with equal times in their
/// original order (entries before gaps).
pub open spec fn timeline_items(entries: Seq<EntryView>, gaps: Seq<Gap>) -> Seq<ItemView> {
    sorted_keys(timeline_keys(entries, gaps)).map_values(|k: Key| item_at(entries, gaps, k.2 as int))
}

/// Merges entries and gaps into one timeline (see `timeline_items`).
pub fn timeline(entries: &Vec<WorkflowEntry>, gaps: &Vec<Gap>) -> (items: Vec<TimelineItem>)
    requires
        entries.len() + gaps.len() <= usize::MAX,
    ensures
        items@.map_values(|t: TimelineItem| t@) == timeline_items(entries_view(entries@), gaps@),
{
    let ghost ev = entries_view(entries@);
    let keys = sort_keys(&timeline_keys_of(entries, gaps));
    proof {
        let all = timeline_keys(ev, gaps@);
        assert forall|k: int| 0 <= k < all.len() implies (#[trigger] all[k]).2 < entries.len() + gaps.len() by {
        }
        lemma_sorted_keys_in_range(all, entries.len() + gaps.len());
    }
    let ghost expected = timeline_items(ev, gaps@);
    let mut items: Vec<TimelineItem> = Vec::new();
    let mut i: usize = 0;
    while i < keys.len()
        invariant
            i <= keys.len(),
            ev == entries_view(entries@),
            keys@ == sorted_keys(timeline_keys(ev, gaps@)),
            expected == timeline_items(ev, gaps@),
            forall|k: int| 0 <= k < keys@.len() ==> (#[trigger] keys@[k]).2 < entries.len() + gaps.len(),
            items@.len() == i,
            forall|k: int| 0 <= k < i ==> (#[trigger] items@[k])@ == expected[k],
        decreases keys.len() - i,
    {
        let index = keys[i].2;
        let item = if index < entries.len() {
            TimelineItem::Active(copy_entry(&entries[index]))
        } else {
            TimelineItem::Unlogged(gaps[index - entries.len()])
        };
        assert(item@ == expected[i as int]);
        items.push(item);
        i = i + 1;
    }
    assert(items@.map_values(|t: TimelineItem| t@) =~= expected);
    items
}

/// Each label is a period label of its entry's own start and end (with
/// dates when the selection spans several days).
pub open spec fn labels_fit_entries(labels: Seq<Seq<char>>, entries: Seq<EntryView>, multi_day: bool) -> bool {
    &&& labels.len() == entries.len()
    &&& forall|i: int|
        0 <= i < entries.len() ==> period_label(
            #[trigger] labels[i],
            entries[i].started_at as int,
            entries[i].ended_at as int,
            multi_day,
        )
}

/// The workflow of the selected range as text, each row labelled with its
/// own period in local time.
pub fn render_workflow(
    entries: &Vec<WorkflowEntry>,
    gaps: &Vec<Gap>,
    range: TimeRange,
    ansi: bool,
) -> (text: String)
    requires
        entries.len() + gaps.len() <= usize::MAX,
        lengths_fit(entries_view(entries@)),
        gap_lengths_fit(gaps@),
    ensures
        exists|entry_labels: Seq<Seq<char>>, gap_labels: Seq<Seq<char>>|
            labels_fit_entries(entry_labels, entries_view(entries@), range.since != range.until)
                && labels_fit_gaps(gap_labels, gaps@, range.since != range.until) && text@
                == #[trigger] workflow_text(
                TextStyles { ansi },
                range,
                entries_view(entries@),
                entry_labels,
                gaps@,
                gap_labels,
            ),
{
    let styles = TextStyles::new(ansi);
    let multi_day = range.since != range.until;
    let ghost ev = entries_view(entries@);
    let mut entry_labels: Vec<String> = Vec::new();
    let mut i: usize = 0;
    while i < entries.len()
        invariant
            i <= entries.len(),
            ev == entries_view(entries@),
            entry_labels.len() == i,
            forall|k: int|
                0 <= k < i ==> period_label(
                    (#[trigger] entry_labels@[k])@,
                    ev[k].started_at as int,
                    ev[k].ended_at as int,
                    multi_day,
                ),
        decreases entries.len() - i,
    {
        assert(ev[i as int] == entries@[i as int]@);
        entry_labels.push(format_period(entries[i].started_at, entries[i].ended_at, multi_day));
        i = i + 1;
    }
    let labels = gap_labels(gaps, multi_day);
    let text = compose_workflow(&styles, range, entries, &entry_labels, gaps, &labels);
    let ghost el = entry_labels@.map_values(|l: String| l@);
    assert forall|k: int| 0 <= k < ev.len() implies period_label(
        #[trigger] el[k],
        ev[k].started_at as int,
        ev[k].ended_at as int,
        multi_day,
    ) by {
        assert(el[k] == entry_labels@[k]@);
    }
    assert(styles == TextStyles { ansi });
    text
}

} // verus!
