//! Unlogged time: the parts of a selected period that no completed active
//! or idle record covers.

use vstd::prelude::*;
use vstd::seq_lib::*;
use crate::style::{TextStyles, dim_paint, muted_paint};
use crate::text::{duration_text, format_duration};
use crate::time::{TimeRange, format_period, period_label};

verus! {

broadcast use vstd::seq_lib::group_seq_properties;

/// A period of the selection for which no completed record exists.
#[derive(Debug, Clone, Copy, PartialEq, Eq, Structural)]
pub struct Gap {
    pub started_at: i64,
    pub ended_at: i64,
}

impl Gap {
    /// The instant `t` lies in this gap (its end is excluded).
    pub open spec fn contains(self, t: int) -> bool {
        self.started_at <= t < self.ended_at
    }

    /// The gap's length in seconds.
    pub fn duration_seconds(&self) -> (seconds: i64)
        requires
            i64::MIN <= self.ended_at - self.started_at <= i64::MAX,
        ensures
            seconds == self.ended_at - self.started_at,
    {
        self.ended_at - self.started_at
    }
}

/// Some recorded span `(started_at, ended_at)` covers the instant `t`; a span
/// covers the instants from its start up to, not including, its end.
pub open spec fn covered(spans: Seq<(i64, i64)>, t: int) -> bool {
    exists|x: (i64, i64)| #[trigger] spans.contains(x) && x.0 <= t < x.1
}

/// Some gap contains the instant `t`.
pub open spec fn in_some_gap(gaps: Seq<Gap>, t: int) -> bool {
    exists|i: int| 0 <= i < gaps.len() && #[trigger] gaps[i].contains(t)
}

/// The gaps are nonempty, lie within `[start, end)`, come in chronological
/// order, and are separated from each other by covered time.
pub open spec fn ordered_gaps(gaps: Seq<Gap>, start: int, end: int) -> bool {
    &&& forall|i: int|
        0 <= i < gaps.len() ==> start <= #[trigger] gaps[i].started_at < gaps[i].ended_at <= end
    &&& forall|i: int, j: int|
        0 <= i < j < gaps.len() ==> #[trigger] gaps[i].ended_at < #[trigger] gaps[j].started_at
}

/// The unlogged periods are determined by what the records cover: two
/// ordered gap lists over the same span that agree on every instant are the
/// same list. Together with `unlogged_gaps`'s contract this means that the
/// gaps depend on the covered instants only, not on the records' order or
/// on how they overlap.
pub proof fn law_gaps_are_determined_by_coverage(a: Seq<Gap>, b: Seq<Gap>, start: int, end: int)
    requires
        ordered_gaps(a, start, end),
        ordered_gaps(b, start, end),
        forall|t: int| start <= t < end ==> (in_some_gap(a, t) <==> in_some_gap(b, t)),
    ensures
        a == b,
    decreases a.len() + b.len(),
{
    if a.len() == 0 || b.len() == 0 {
        if a.len() > 0 {
            assert(a[0].contains(a[0].started_at as int));
            assert(in_some_gap(a, a[0].started_at as int));
        }
        if b.len() > 0 {
            assert(b[0].contains(b[0].started_at as int));
            assert(in_some_gap(b, b[0].started_at as int));
        }
        assert(a =~= b);
    } else {
        let (a0, b0) = (a[0], b[0]);
        // Both lists start at the first uncovered instant.
        if a0.started_at < b0.started_at {
            assert(a0.contains(a0.started_at as int));
            assert(in_some_gap(a, a0.started_at as int));
            let j = choose|j: int| 0 <= j < b.len() && #[trigger] b[j].contains(a0.started_at as int);
            if j > 0 {
                assert(b[0].ended_at < b[j].started_at);
            }
        }
        if b0.started_at < a0.started_at {
            assert(b0.contains(b0.started_at as int));
            assert(in_some_gap(b, b0.started_at as int));
            let j = choose|j: int| 0 <= j < a.len() && #[trigger] a[j].contains(b0.started_at as int);
            if j > 0 {
                assert(a[0].ended_at < a[j].started_at);
            }
        }
        assert(a0.started_at == b0.started_at);
        // Both first gaps end at the next covered instant.
        if a0.ended_at < b0.ended_at {
            assert(b0.contains(a0.ended_at as int));
            assert(in_some_gap(b, a0.ended_at as int));
            let j = choose|j: int| 0 <= j < a.len() && #[trigger] a[j].contains(a0.ended_at as int);
            if j > 0 {
                assert(a[0].ended_at < a[j].started_at);
            }
        }
        if b0.ended_at < a0.ended_at {
            assert(a0.contains(b0.ended_at as int));
            assert(in_some_gap(a, b0.ended_at as int));
            let j = choose|j: int| 0 <= j < b.len() && #[trigger] b[j].contains(b0.ended_at as int);
            if j > 0 {
                assert(b[0].ended_at < b[j].started_at);
            }
        }
        assert(a0 == b0);
        let (ra, rb) = (a.drop_first(), b.drop_first());
        let next = a0.ended_at as int;
        assert forall|t: int| next <= t < end implies (in_some_gap(ra, t) <==> in_some_gap(rb, t)) by {
            if in_some_gap(ra, t) {
                let i = choose|i: int| 0 <= i < ra.len() && #[trigger] ra[i].contains(t);
                assert(a[i + 1].contains(t));
                assert(in_some_gap(a, t));
                let j = choose|j: int| 0 <= j < b.len() && #[trigger] b[j].contains(t);
                assert(j > 0);
                assert(rb[j - 1].contains(t));
            }
            if in_some_gap(rb, t) {
                let i = choose|i: int| 0 <= i < rb.len() && #[trigger] rb[i].contains(t);
                assert(b[i + 1].contains(t));
                assert(in_some_gap(b, t));
                let j = choose|j: int| 0 <= j < a.len() && #[trigger] a[j].contains(t);
                assert(j > 0);
                assert(ra[j - 1].contains(t));
            }
        }
        assert forall|i: int| 0 <= i < ra.len() implies next <= #[trigger] ra[i].started_at < ra[i].ended_at <= end by {
            assert(a[0].ended_at < a[i + 1].started_at);
        }
        assert forall|i: int| 0 <= i < rb.len() implies next <= #[trigger] rb[i].started_at < rb[i].ended_at <= end by {
            assert(b[0].ended_at < b[i + 1].started_at);
        }
        assert forall|i: int, j: int| 0 <= i < j < ra.len() implies #[trigger] ra[i].ended_at < #[trigger] ra[j].started_at by {
            assert(a[i + 1].ended_at < a[j + 1].started_at);
        }
        assert forall|i: int, j: int| 0 <= i < j < rb.len() implies #[trigger] rb[i].ended_at < #[trigger] rb[j].started_at by {
            assert(b[i + 1].ended_at < b[j + 1].started_at);
        }
        law_gaps_are_determined_by_coverage(ra, rb, next, end);
        assert(a =~= b) by {
            assert forall|i: int| 0 <= i < a.len() implies a[i] == b[i] by {
                if i > 0 {
                    assert(a[i] == ra[i - 1]);
                    assert(b[i] == rb[i - 1]);
                }
            }
        }
    }
}

/// The end of the elapsed part of a selection: the selection's end, or now
/// if that is earlier.
pub open spec fn elapsed_end(range_end: i64, now: i64) -> i64 {
    if now < range_end {
        now
    } else {
        range_end
    }
}

proof fn lemma_covered_push(s: Seq<(i64, i64)>, x: (i64, i64), t: int)
    ensures
        covered(s.push(x), t) <==> (covered(s, t) || (x.0 <= t < x.1)),
{
    if covered(s, t) {
        let y = choose|y: (i64, i64)| #[trigger] s.contains(y) && y.0 <= t < y.1;
        assert(s.push(x).contains(y));
    }
    if x.0 <= t < x.1 {
        assert(s.push(x).contains(x));
    }
    if covered(s.push(x), t) {
        let y = choose|y: (i64, i64)| #[trigger] s.push(x).contains(y) && y.0 <= t < y.1;
        if y != x {
            assert(s.contains(y));
        }
    }
}

proof fn lemma_covered_same_multiset(a: Seq<(i64, i64)>, b: Seq<(i64, i64)>, t: int)
    requires
        a.to_multiset() == b.to_multiset(),
    ensures
        covered(a, t) <==> covered(b, t),
{
    broadcast use vstd::seq_lib::to_multiset_contains;
    if covered(a, t) {
        let y = choose|y: (i64, i64)| #[trigger] a.contains(y) && y.0 <= t < y.1;
        assert(a.to_multiset().contains(y));
        assert(b.contains(y));
    }
    if covered(b, t) {
        let y = choose|y: (i64, i64)| #[trigger] b.contains(y) && y.0 <= t < y.1;
        assert(b.to_multiset().contains(y));
        assert(a.contains(y));
    }
}

/// Clips every span to `[start, end)` and drops the empty ones.
fn clip_spans(records: &Vec<(i64, i64)>, start: i64, end: i64) -> (clipped: Vec<(i64, i64)>)
    ensures
        forall|x: (i64, i64)| #[trigger] clipped@.contains(x) ==> start <= x.0 < x.1 <= end,
        forall|t: int| start <= t < end ==> (covered(clipped@, t) <==> covered(records@, t)),
{
    let mut out: Vec<(i64, i64)> = Vec::new();
    for i in 0..records.len()
        invariant
            forall|x: (i64, i64)| #[trigger] out@.contains(x) ==> start <= x.0 < x.1 <= end,
            forall|t: int|
                start <= t < end ==> (covered(out@, t) <==> covered(records@.take(i as int), t)),
    {
        let (s, e) = records[i];
        let cs = if s < start {
            start
        } else {
            s
        };
        let ce = if e > end {
            end
        } else {
            e
        };
        let ghost before = out@;
        if cs < ce {
            out.push((cs, ce));
        }
        proof {
            assert(records@.take(i + 1) =~= records@.take(i as int).push(records@[i as int]));
            assert forall|t: int| start <= t < end implies (covered(out@, t) <==> covered(
                records@.take(i + 1),
                t,
            )) by {
                lemma_covered_push(records@.take(i as int), records@[i as int], t);
                if cs < ce {
                    lemma_covered_push(before, (cs, ce), t);
                }
            }
        }
    }
    proof {
        assert(records@.take(records@.len() as int) =~= records@);
    }
    out
}

/// Orders spans by start (insertion sort); the spans themselves are kept.
fn sort_by_start(spans: Vec<(i64, i64)>) -> (sorted: Vec<(i64, i64)>)
    ensures
        sorted@.to_multiset() == spans@.to_multiset(),
        forall|i: int, j: int|
            0 <= i < j < sorted@.len() ==> #[trigger] sorted@[i].0 <= #[trigger] sorted@[j].0,
{
    broadcast use vstd::seq_lib::to_multiset_insert;

    let mut out: Vec<(i64, i64)> = Vec::new();
    for i in 0..spans.len()
        invariant
            out@.to_multiset() == spans@.take(i as int).to_multiset(),
            forall|a: int, b: int| 0 <= a < b < out@.len() ==> #[trigger] out@[a].0 <= #[trigger] out@[b].0,
    {
        let x = spans[i];
        let mut p: usize = 0;
        while p < out.len() && out[p].0 <= x.0
            invariant
                p <= out@.len(),
                forall|a: int| 0 <= a < p ==> #[trigger] out@[a].0 <= x.0,
            decreases out@.len() - p,
        {
            p = p + 1;
        }
        let ghost before = out@;
        out.insert(p, x);
        proof {
            assert(spans@.take(i + 1) =~= spans@.take(i as int).push(x));
            vstd::seq_lib::to_multiset_build(spans@.take(i as int), x);
            vstd::seq_lib::to_multiset_insert(before, p as int, x);
            assert forall|a: int, b: int| 0 <= a < b < out@.len() implies #[trigger] out@[a].0
                <= #[trigger] out@[b].0 by {
                if b < p {
                    assert(out@[a] == before[a] && out@[b] == before[b]);
                } else if b == p {
                    assert(out@[a] == before[a]);
                } else if a < p {
                    assert(out@[a] == before[a] && out@[b] == before[b - 1]);
                    if p < before.len() {
                        assert(before[p as int].0 > x.0);
                        assert(before[a].0 <= x.0);
                    }
                } else if a == p {
                    assert(out@[b] == before[b - 1]);
                    assert(before[p as int].0 > x.0);
                    if b - 1 > p {
                        assert(before[p as int].0 <= before[b - 1].0);
                    }
                } else {
                    assert(out@[a] == before[a - 1] && out@[b] == before[b - 1]);
                }
            }
        }
    }
    proof {
        assert(spans@.take(spans@.len() as int) =~= spans@);
    }
    out
}

proof fn lemma_in_some_gap_push(gaps: Seq<Gap>, g: Gap, t: int)
    ensures
        in_some_gap(gaps.push(g), t) <==> (in_some_gap(gaps, t) || g.contains(t)),
{
    let pushed = gaps.push(g);
    if in_some_gap(gaps, t) {
        let i = choose|i: int| 0 <= i < gaps.len() && #[trigger] gaps[i].contains(t);
        assert(pushed[i] == gaps[i]);
    }
    if g.contains(t) {
        assert(pushed[gaps.len() as int] == g);
    }
    if in_some_gap(pushed, t) {
        let i = choose|i: int| 0 <= i < pushed.len() && #[trigger] pushed[i].contains(t);
        if i < gaps.len() {
            assert(pushed[i] == gaps[i]);
        }
    }
}

proof fn lemma_not_in_gaps_after(gaps: Seq<Gap>, bound: int, t: int)
    requires
        forall|i: int| 0 <= i < gaps.len() ==> #[trigger] gaps[i].ended_at <= bound,
        t >= bound,
    ensures
        !in_some_gap(gaps, t),
{
    if in_some_gap(gaps, t) {
        let i = choose|i: int| 0 <= i < gaps.len() && #[trigger] gaps[i].contains(t);
        assert(gaps[i].ended_at <= bound);
    }
}

/// Walks spans sorted by start and collects the uncovered parts of
/// `[start, end)`.
fn sweep(spans: &Vec<(i64, i64)>, start: i64, end: i64) -> (gaps: Vec<Gap>)
    requires
        start <= end,
        forall|x: (i64, i64)| #[trigger] spans@.contains(x) ==> start <= x.0 < x.1 <= end,
        forall|i: int, j: int|
            0 <= i < j < spans@.len() ==> #[trigger] spans@[i].0 <= #[trigger] spans@[j].0,
    ensures
        ordered_gaps(gaps@, start as int, end as int),
        forall|t: int| start <= t < end ==> (in_some_gap(gaps@, t) <==> !covered(spans@, t)),
{
    let mut gaps: Vec<Gap> = Vec::new();
    let mut cursor = start;
    let mut k: usize = 0;
    while k < spans.len()
        invariant
            k <= spans@.len(),
            start <= cursor <= end,
            forall|x: (i64, i64)| #[trigger] spans@.contains(x) ==> start <= x.0 < x.1 <= end,
            forall|i: int, j: int|
                0 <= i < j < spans@.len() ==> #[trigger] spans@[i].0 <= #[trigger] spans@[j].0,
            ordered_gaps(gaps@, start as int, cursor as int),
            forall|i: int| 0 <= i < gaps@.len() ==> #[trigger] gaps@[i].ended_at < cursor,
            forall|i: int, j: int|
                0 <= i < gaps@.len() && k <= j < spans@.len() ==> #[trigger] gaps@[i].ended_at
                    <= #[trigger] spans@[j].0,
            forall|t: int|
                start <= t < cursor ==> (in_some_gap(gaps@, t) <==> !#[trigger] covered(
                    spans@.take(k as int),
                    t,
                )),
            forall|t: int| t >= cursor ==> !#[trigger] covered(spans@.take(k as int), t),
        decreases spans@.len() - k,
    {
        let (s, e) = spans[k];
        let ghost old_gaps = gaps@;
        let ghost old_cursor = cursor;
        proof {
                assert(spans@.contains(spans@[k as int]));
            assert(spans@[k as int] == (s, e));
            assert(spans@.take(k + 1) =~= spans@.take(k as int).push((s, e)));
        }
        if s > cursor {
            gaps.push(Gap { started_at: cursor, ended_at: s });
        }
        if e > cursor {
            cursor = e;
        }
        proof {
            let new_gap = Gap { started_at: old_cursor, ended_at: s };
            let next = spans@.take(k + 1);
            assert forall|i: int| 0 <= i < old_gaps.len() implies #[trigger] old_gaps[i].ended_at <= s by {
                assert(old_gaps[i].ended_at <= spans@[k as int].0);
            }
            assert forall|t: int| start <= t < cursor implies (in_some_gap(gaps@, t) <==> !covered(
                next,
                t,
            )) by {
                lemma_covered_push(spans@.take(k as int), (s, e), t);
                assert(covered(next, t) == (covered(spans@.take(k as int), t) || (s <= t < e)));
                if t >= old_cursor {
                    assert(!covered(spans@.take(k as int), t));
                } else {
                    assert(in_some_gap(old_gaps, t) <==> !covered(spans@.take(k as int), t));
                }
                if s > old_cursor {
                    lemma_in_some_gap_push(old_gaps, new_gap, t);
                    assert(in_some_gap(gaps@, t) <==> (in_some_gap(old_gaps, t) || new_gap.contains(t)));
                } else {
                    assert(gaps@ == old_gaps);
                }
                if t >= s {
                    lemma_not_in_gaps_after(old_gaps, s as int, t);
                }
                if t >= old_cursor {
                    lemma_not_in_gaps_after(old_gaps, old_cursor as int, t);
                }
            }
            assert forall|t: int| t >= cursor implies !covered(next, t) by {
                lemma_covered_push(spans@.take(k as int), (s, e), t);
            }
            assert forall|i: int, j: int|
                0 <= i < gaps@.len() && k + 1 <= j < spans@.len() implies #[trigger] gaps@[i].ended_at
                <= #[trigger] spans@[j].0 by {
                if i < old_gaps.len() {
                    assert(gaps@[i] == old_gaps[i]);
                } else {
                    assert(spans@[k as int].0 <= spans@[j].0);
                }
            }
        }
        k = k + 1;
    }
    proof {
        assert(spans@.take(spans@.len() as int) =~= spans@);
    }
    let ghost before_last = gaps@;
    if cursor < end {
        gaps.push(Gap { started_at: cursor, ended_at: end });
    }
    proof {
        assert forall|t: int| start <= t < end implies (in_some_gap(gaps@, t) <==> !covered(
            spans@,
            t,
        )) by {
            if cursor < end {
                lemma_in_some_gap_push(before_last, Gap { started_at: cursor, ended_at: end }, t);
            }
            if t >= cursor {
                lemma_not_in_gaps_after(before_last, cursor as int, t);
            }
        }
    }
    gaps
}

/// The unlogged periods of a selection `[range_start, range_end)` as of
/// `now`: the maximal periods of elapsed selected time that no recorded
/// span covers. Time after `now` is never unlogged, and a selection that has
/// not started yet has no gaps.
pub fn unlogged_gaps(records: &Vec<(i64, i64)>, range_start: i64, range_end: i64, now: i64) -> (gaps: Vec<Gap>)
    ensures
        ordered_gaps(gaps@, range_start as int, elapsed_end(range_end, now) as int),
        forall|t: int|
            range_start <= t < elapsed_end(range_end, now) ==> (in_some_gap(gaps@, t) <==> !covered(
                records@,
                t,
            )),
{
    let end = if now < range_end {
        now
    } else {
        range_end
    };
    if end <= range_start {
        return Vec::new();
    }
    let clipped = clip_spans(records, range_start, end);
    let sorted = sort_by_start(clipped);
    proof {
        broadcast use vstd::seq_lib::to_multiset_contains;
        assert forall|x: (i64, i64)| #[trigger] sorted@.contains(x) implies range_start <= x.0 < x.1 <= end by {
            assert(sorted@.to_multiset().contains(x));
            assert(clipped@.contains(x));
        }
    }
    let gaps = sweep(&sorted, range_start, end);
    proof {
        assert forall|t: int| range_start <= t < end implies (in_some_gap(gaps@, t) <==> !covered(
            records@,
            t,
        )) by {
            lemma_covered_same_multiset(sorted@, clipped@, t);
        }
    }
    gaps
}

/// The timeline text of an unlogged period shown with the label `label`.
pub open spec fn gap_row_text(styles: TextStyles, gap: Gap, label: Seq<char>) -> Seq<char> {
    styles.painted(dim_paint(), label) + "  "@ + styles.painted(muted_paint(), "Unlogged"@) + "  "@
        + styles.painted(dim_paint(), duration_text(gap.ended_at - gap.started_at))
}

/// Writes the timeline text of an unlogged period with a given label.
pub fn gap_row(styles: &TextStyles, gap: &Gap, label: &str) -> (text: String)
    requires
        i64::MIN <= gap.ended_at - gap.started_at <= i64::MAX,
    ensures
        text@ == gap_row_text(*styles, *gap, label@),
{
    let mut text = styles.time(label);
    text.append("  ");
    text.append(styles.muted("Unlogged").as_str());
    text.append("  ");
    text.append(styles.duration(format_duration(gap.duration_seconds()).as_str()).as_str());
    assert(text@ =~= gap_row_text(*styles, *gap, label@));
    text
}

/// Each label is a period label of its gap's own start and end (with dates
/// when the selection spans several days).
pub open spec fn labels_fit_gaps(labels: Seq<Seq<char>>, gaps: Seq<Gap>, multi_day: bool) -> bool {
    &&& labels.len() == gaps.len()
    &&& forall|i: int|
        0 <= i < gaps.len() ==> period_label(
            #[trigger] labels[i],
            gaps[i].started_at as int,
            gaps[i].ended_at as int,
            multi_day,
        )
}

impl Gap {
    /// The timeline text of the gap, labelled with its own period in local
    /// time.
    pub fn render(&self, range: TimeRange, styles: &TextStyles) -> (text: String)
        requires
            i64::MIN <= self.ended_at - self.started_at <= i64::MAX,
        ensures
            exists|label: Seq<char>|
                period_label(label, self.started_at as int, self.ended_at as int, range.since != range.until)
                    && text@ == #[trigger] gap_row_text(*styles, *self, label),
    {
        let label = format_period(self.started_at, self.ended_at, range.since != range.until);
        let text = gap_row(styles, self, label.as_str());
        assert(text@ == gap_row_text(*styles, *self, label@));
        text
    }
}

/// Labels every gap with its period in local time.
pub fn gap_labels(gaps: &Vec<Gap>, multi_day: bool) -> (labels: Vec<String>)
    ensures
        labels_fit_gaps(labels@.map_values(|l: String| l@), gaps@, multi_day),
{
    let mut labels: Vec<String> = Vec::new();
    let mut i: usize = 0;
    while i < gaps.len()
        invariant
            i <= gaps.len(),
            labels.len() == i,
            forall|k: int|
                0 <= k < i ==> period_label(
                    (#[trigger] labels@[k])@,
                    gaps@[k].started_at as int,
                    gaps@[k].ended_at as int,
                    multi_day,
                ),
        decreases gaps.len() - i,
    {
        labels.push(format_period(gaps[i].started_at, gaps[i].ended_at, multi_day));
        i = i + 1;
    }
    let ghost lv = labels@.map_values(|l: String| l@);
    assert forall|k: int| 0 <= k < gaps.len() implies period_label(
        #[trigger] lv[k],
        gaps@[k].started_at as int,
        gaps@[k].ended_at as int,
        multi_day,
    ) by {
        assert(lv[k] == labels@[k]@);
    }
    labels
}

/// The length of a gap fits in an `i64`.
pub open spec fn gap_length_fits(gap: Gap) -> bool {
    i64::MIN <= gap.ended_at - gap.started_at <= i64::MAX
}

/// The gaps' lengths fit in an `i64`, one by one and summed up.
pub open spec fn gap_lengths_fit(gaps: Seq<Gap>) -> bool {
    &&& forall|i: int| 0 <= i < gaps.len() ==> #[trigger] gap_length_fits(gaps[i])
    &&& forall|k: int| 0 <= k <= gaps.len() ==> i64::MIN <= #[trigger] total_length(gaps.take(k))
        <= i64::MAX
}

/// The summed length of the gaps.
pub open spec fn total_length(gaps: Seq<Gap>) -> int
    decreases gaps.len(),
{
    if gaps.len() == 0 {
        0
    } else {
        total_length(gaps.drop_last()) + (gaps.last().ended_at - gaps.last().started_at)
    }
}



/// The total of gaps is the sum of their lengths: nothing for no gaps, a
/// gap's length for one gap, and the totals of two lists of gaps add up to
/// the total of both together.
pub proof fn law_total_length_adds_up(a: Seq<Gap>, b: Seq<Gap>, gap: Gap)
    ensures
        total_length(Seq::<Gap>::empty()) == 0,
        total_length(seq![gap]) == gap.ended_at - gap.started_at,
        total_length(a + b) == total_length(a) + total_length(b),
    decreases b.len(),
{
    assert(seq![gap].drop_last() =~= Seq::<Gap>::empty());
    if b.len() == 0 {
        assert(a + b =~= a);
    } else {
        law_total_length_adds_up(a, b.drop_last(), gap);
        assert((a + b).drop_last() =~= a + b.drop_last());
        assert((a + b).last() == b.last());
    }
}

/// The unlogged summary: the total unlogged time and, when verbose, one
/// line per gap with its period label.
pub open spec fn summary_text(styles: TextStyles, gaps: Seq<Gap>, verbose: bool, labels: Seq<Seq<char>>) -> Seq<char> {
    styles.painted(muted_paint(), "Unlogged: "@ + duration_text(total_length(gaps))) + if verbose {
        gap_lines(styles, gaps, labels, gaps.len() as nat)
    } else {
        Seq::empty()
    }
}

/// The verbose lines of the first `k` gaps.
pub open spec fn gap_lines(styles: TextStyles, gaps: Seq<Gap>, labels: Seq<Seq<char>>, k: nat) -> Seq<char>
    decreases k,
{
    if k == 0 {
        Seq::empty()
    } else {
        gap_lines(styles, gaps, labels, (k - 1) as nat) + "\n  "@ + gap_row_text(
            styles,
            gaps[k - 1],
            labels[k - 1],
        )
    }
}

/// Writes the unlogged summary from the gaps and their period labels.
pub fn compose_summary(styles: &TextStyles, gaps: &Vec<Gap>, verbose: bool, labels: &Vec<String>) -> (text: String)
    requires
        labels.len() == gaps.len(),
        gap_lengths_fit(gaps@),
    ensures
        text@ == summary_text(*styles, gaps@, verbose, labels@.map_values(|l: String| l@)),
{
    let ghost lv = labels@.map_values(|l: String| l@);
    let mut total: i64 = 0;
    let mut i: usize = 0;
    while i < gaps.len()
        invariant
            i <= gaps.len(),
            gap_lengths_fit(gaps@),
            total == total_length(gaps@.take(i as int)),
        decreases gaps.len() - i,
    {
        assert(gaps@.take(i + 1).drop_last() =~= gaps@.take(i as int));
        assert(gap_length_fits(gaps@[i as int]));
        assert(i64::MIN <= total_length(gaps@.take(i + 1)) <= i64::MAX);
        total = total + gaps[i].duration_seconds();
        i = i + 1;
    }
    assert(gaps@.take(gaps.len() as int) =~= gaps@);
    let mut head = String::new();
    head.append("Unlogged: ");
    head.append(format_duration(total).as_str());
    let mut text = styles.muted(head.as_str());
    if verbose {
        let ghost start = text@;
        let mut j: usize = 0;
        while j < gaps.len()
            invariant
                j <= gaps.len(),
                labels.len() == gaps.len(),
                lv == labels@.map_values(|l: String| l@),
                gap_lengths_fit(gaps@),
                text@ == start + gap_lines(*styles, gaps@, lv, j as nat),
            decreases gaps.len() - j,
        {
            assert(gap_length_fits(gaps@[j as int]));
            text.append("\n  ");
            text.append(gap_row(styles, &gaps[j], labels[j].as_str()).as_str());
            assert(text@ =~= start + gap_lines(*styles, gaps@, lv, (j + 1) as nat));
            j = j + 1;
        }
    }
    assert(text@ =~= summary_text(*styles, gaps@, verbose, lv));
    text
}

/// The unlogged summary of the selection, each gap labelled with its own
/// period in local time.
pub fn render_summary(gaps: &Vec<Gap>, range: TimeRange, verbose: bool, styles: &TextStyles) -> (text: String)
    requires
        gap_lengths_fit(gaps@),
    ensures
        exists|labels: Seq<Seq<char>>|
            labels_fit_gaps(labels, gaps@, range.since != range.until) && text@ == #[trigger] summary_text(
                *styles,
                gaps@,
                verbose,
                labels,
            ),
{
    let labels = gap_labels(gaps, range.since != range.until);
    let text = compose_summary(styles, gaps, verbose, &labels);
    let ghost lv = labels@.map_values(|l: String| l@);
    assert(text@ == summary_text(*styles, gaps@, verbose, lv));
    text
}

} // verus!
