//! Usage reports: time per application and, below each application, time
//! per window title, where titles that normalize to the same text are
//! grouped together.

use vstd::prelude::*;
use crate::order::{lemma_title_less_properties, option_equal, option_less, title_less};
use crate::titles::{normalized_title, RuleSpec, TitleGroupingConfig};
use crate::style::{TextStyles, application_paint, dim_paint, header_paint, muted_paint, title_paint};
use crate::text::{duration_text, escape_terminal, escaped, format_duration, format_title, title_label};
use crate::time::{TimeRange, date_shown, date_text, elapsed_seconds, selected_elapsed_seconds};
use crate::unlogged::{Gap, compose_summary, gap_labels, gap_lengths_fit, labels_fit_gaps, summary_text};

verus! {

broadcast use vstd::seq_lib::group_seq_properties;

/// Seconds spent on one window title (or on windows without a title).
#[derive(Debug, PartialEq, Eq)]
pub struct TitleUsage {
    pub title: Option<String>,
    pub seconds: i64,
}

/// The text of an optional string.
pub open spec fn opt_text(o: Option<String>) -> Option<Seq<char>> {
    match o {
        Some(s) => Some(s@),
        None => None,
    }
}

impl View for TitleUsage {
    type V = (Option<Seq<char>>, i64);

    open spec fn view(&self) -> (Option<Seq<char>>, i64) {
        (opt_text(self.title), self.seconds)
    }
}

/// The grouping key of an optional title: its normalized text; untitled
/// windows form a group of their own.
pub open spec fn title_key(rules: Seq<RuleSpec>, app_id: Seq<char>, title: Option<Seq<char>>) -> Option<Seq<char>> {
    match title {
        Some(t) => Some(normalized_title(rules, app_id, t)),
        None => None,
    }
}

/// Report order: more seconds first; equal seconds by title, untitled first.
pub open spec fn ranks_before(a: (Option<Seq<char>>, i64), b: (Option<Seq<char>>, i64)) -> bool {
    a.1 > b.1 || (a.1 == b.1 && title_less(a.0, b.0))
}

/// The seconds of all usages whose title has grouping key `key`.
pub open spec fn key_total(rules: Seq<RuleSpec>, app_id: Seq<char>, usages: Seq<(Option<Seq<char>>, i64)>, key: Option<Seq<char>>) -> int
    decreases usages.len(),
{
    if usages.len() == 0 {
        0
    } else {
        key_total(rules, app_id, usages.drop_last(), key) + if title_key(rules, app_id, usages.last().0) == key {
            usages.last().1 as int
        } else {
            0
        }
    }
}

/// Every running per-key total, taken in input order, fits in an `i64`.
pub open spec fn totals_fit(rules: Seq<RuleSpec>, app_id: Seq<char>, usages: Seq<(Option<Seq<char>>, i64)>) -> bool {
    forall|n: int, key: Option<Seq<char>>|
        0 <= n <= usages.len() ==> i64::MIN <= #[trigger] key_total(rules, app_id, usages.take(n), key) <= i64::MAX
}

proof fn lemma_ranks_before(a: (Option<Seq<char>>, i64), b: (Option<Seq<char>>, i64), c: (Option<Seq<char>>, i64))
    ensures
        !ranks_before(a, a),
        ranks_before(a, b) && ranks_before(b, c) ==> ranks_before(a, c),
        a == b || ranks_before(a, b) || ranks_before(b, a),
        ranks_before(a, b) ==> !ranks_before(b, a),
{
    lemma_title_less_properties(a.0, b.0, c.0);
    lemma_title_less_properties(b.0, a.0, c.0);
}

/// A group of titles being accumulated: its key, total, and the title
/// chosen to represent it with that title's seconds.
struct Group {
    key: Option<String>,
    seconds: i64,
    label: Option<String>,
    label_seconds: i64,
}

struct GroupView {
    key: Option<Seq<char>>,
    seconds: i64,
    label: Option<Seq<char>>,
    label_seconds: i64,
}

impl View for Group {
    type V = GroupView;

    closed spec fn view(&self) -> GroupView {
        GroupView {
            key: opt_text(self.key),
            seconds: self.seconds,
            label: opt_text(self.label),
            label_seconds: self.label_seconds,
        }
    }
}

fn clone_title(o: &Option<String>) -> (c: Option<String>)
    ensures
        opt_text(c) == opt_text(*o),
{
    match o {
        Some(s) => Some(s.clone()),
        None => None,
    }
}

/// The facts about one finished group over all usages.
spec fn group_ok(rules: Seq<RuleSpec>, app_id: Seq<char>, ins: Seq<(Option<Seq<char>>, i64)>, g: GroupView) -> bool {
    &&& g.seconds == key_total(rules, app_id, ins, g.key)
    &&& title_key(rules, app_id, g.label) == g.key
    &&& exists|j: int| 0 <= j < ins.len() && #[trigger] ins[j] == (g.label, g.label_seconds)
    &&& forall|j: int|
        0 <= j < ins.len() && title_key(rules, app_id, #[trigger] ins[j].0) == g.key ==> !ranks_before(
            ins[j],
            (g.label, g.label_seconds),
        )
}

fn title_key_of(config: &TitleGroupingConfig, app_id: &str, title: &Option<String>) -> (key: Option<String>)
    ensures
        opt_text(key) == title_key(config@, app_id@, opt_text(*title)),
{
    match title {
        Some(t) => Some(config.normalize_title(app_id, t.as_str())),
        None => None,
    }
}

proof fn lemma_key_total_step(rules: Seq<RuleSpec>, app_id: Seq<char>, ins: Seq<(Option<Seq<char>>, i64)>, i: int, key: Option<Seq<char>>)
    requires
        0 <= i < ins.len(),
    ensures
        key_total(rules, app_id, ins.take(i + 1), key) == key_total(rules, app_id, ins.take(i), key) + if title_key(
            rules,
            app_id,
            ins[i].0,
        ) == key {
            ins[i].1 as int
        } else {
            0
        },
{
    assert(ins.take(i + 1).drop_last() =~= ins.take(i));
}

fn find_group(groups: &Vec<Group>, key: &Option<String>) -> (found: Option<usize>)
    ensures
        match found {
            Some(a) => a < groups@.len() && groups@[a as int]@.key == opt_text(*key),
            None => forall|b: int| 0 <= b < groups@.len() ==> (#[trigger] groups@[b])@.key != opt_text(*key),
        },
{
    let mut a: usize = 0;
    while a < groups.len()
        invariant
            a <= groups@.len(),
            forall|b: int| 0 <= b < a ==> (#[trigger] groups@[b])@.key != opt_text(*key),
        decreases groups@.len() - a,
    {
        if option_equal(&groups[a].key, key) {
            return Some(a);
        }
        a = a + 1;
    }
    None
}

fn accumulate_groups(app_id: &str, titles: &Vec<TitleUsage>, config: &TitleGroupingConfig) -> (groups: Vec<Group>)
    requires
        totals_fit(config@, app_id@, titles@.map_values(|t: TitleUsage| t@)),
    ensures
        ({
            let ins = titles@.map_values(|t: TitleUsage| t@);
            let rules = config@;
            &&& forall|a: int, b: int|
                0 <= a < b < groups@.len() ==> (#[trigger] groups@[a])@.key != (#[trigger] groups@[b])@.key
            &&& forall|a: int| 0 <= a < groups@.len() ==> group_ok(rules, app_id@, ins, (#[trigger] groups@[a])@)
            &&& forall|j: int|
                0 <= j < ins.len() ==> exists|a: int|
                    0 <= a < groups@.len() && (#[trigger] groups@[a])@.key == title_key(rules, app_id@, #[trigger] ins[j].0)
        }),
{
    let ghost ins = titles@.map_values(|t: TitleUsage| t@);
    let ghost rules = config@;
    let ghost app = app_id@;
    let mut groups: Vec<Group> = Vec::new();
    let ghost mut wit: Seq<int> = Seq::empty();
    let ghost mut slot: Seq<int> = Seq::empty();
    let mut i: usize = 0;
    while i < titles.len()
        invariant
            i <= titles@.len(),
            ins == titles@.map_values(|t: TitleUsage| t@),
            rules == config@,
            app == app_id@,
            totals_fit(rules, app, ins),
            wit.len() == groups@.len(),
            slot.len() == i,
            forall|a: int, b: int|
                0 <= a < b < groups@.len() ==> (#[trigger] groups@[a])@.key != (#[trigger] groups@[b])@.key,
            forall|a: int|
                0 <= a < groups@.len() ==> (#[trigger] groups@[a])@.seconds == key_total(rules, app, ins.take(i as int), groups@[a]@.key),
            forall|a: int|
                0 <= a < groups@.len() ==> {
                    &&& 0 <= #[trigger] wit[a] < i
                    &&& ins[wit[a]] == (groups@[a]@.label, groups@[a]@.label_seconds)
                    &&& title_key(rules, app, ins[wit[a]].0) == groups@[a]@.key
                },
            forall|a: int, j: int|
                0 <= a < groups@.len() && 0 <= j < i && title_key(rules, app, #[trigger] ins[j].0)
                    == (#[trigger] groups@[a])@.key ==> !ranks_before(
                    ins[j],
                    (groups@[a]@.label, groups@[a]@.label_seconds),
                ),
            forall|j: int|
                0 <= j < i ==> 0 <= #[trigger] slot[j] < groups@.len() && groups@[slot[j]]@.key == title_key(
                    rules,
                    app,
                    ins[j].0,
                ),
        decreases titles@.len() - i,
    {
        let usage = &titles[i];
        let ghost x = ins[i as int];
        assert(x == usage@);
        let key = title_key_of(config, app_id, &usage.title);
        let ghost k = opt_text(key);
        proof {
            assert forall|kk: Option<Seq<char>>| true implies key_total(rules, app, ins.take(i + 1), kk) == key_total(rules, app, ins.take(i as int), kk) + if title_key(
                rules,
                app,
                ins[i as int].0,
            ) == kk {
                ins[i as int].1 as int
            } else {
                0
            } by {
                lemma_key_total_step(rules, app, ins, i as int, kk);
            }
        }
        let found_at = find_group(&groups, &key);
        let found = found_at.is_some();
        let a: usize = match found_at {
            Some(p) => p,
            None => 0,
        };
        let ghost old_groups = groups@;
        if found {
            let g = &groups[a];
            let better = usage.seconds > g.label_seconds || (usage.seconds == g.label_seconds && option_less(&usage.title, &g.label));
            proof {
                assert(better == ranks_before(x, (old_groups[a as int]@.label, old_groups[a as int]@.label_seconds)));
                assert(g@.seconds == key_total(rules, app, ins.take(i as int), k));
                assert(key_total(rules, app, ins.take(i + 1), k) == g@.seconds + usage.seconds);
                assert(0 <= i + 1 <= ins.len());
                assert(i64::MIN <= key_total(rules, app, ins.take(i + 1), k) <= i64::MAX);
            }
            let updated = Group {
                key: clone_title(&g.key),
                seconds: g.seconds + usage.seconds,
                label: if better { clone_title(&usage.title) } else { clone_title(&g.label) },
                label_seconds: if better { usage.seconds } else { g.label_seconds },
            };
            groups.set(a, updated);
            proof {
                if better {
                    wit = wit.update(a as int, i as int);
                }
                slot = slot.push(a as int);
                let new_label = (groups@[a as int]@.label, groups@[a as int]@.label_seconds);
                let old_label = (old_groups[a as int]@.label, old_groups[a as int]@.label_seconds);
                lemma_ranks_before(x, x, x);
                assert forall|b: int, j: int|
                    0 <= b < groups@.len() && 0 <= j < i + 1 && title_key(rules, app, #[trigger] ins[j].0)
                        == (#[trigger] groups@[b])@.key implies !ranks_before(
                        ins[j],
                        (groups@[b]@.label, groups@[b]@.label_seconds),
                    ) by {
                    if b != a {
                        assert(groups@[b] == old_groups[b]);
                        if j == i {
                            assert(old_groups[a as int]@.key == k);
                        }
                    } else if j < i {
                        lemma_ranks_before(ins[j], x, old_label);
                    }
                }
            }
        } else {
            proof {
                assert(0 <= i + 1 <= ins.len());
                assert(i64::MIN <= key_total(rules, app, ins.take(i + 1), k) <= i64::MAX);
                assert(key_total(rules, app, ins.take(i as int), k) == 0) by {
                    assert forall|j: int| 0 <= j < ins.take(i as int).len() implies title_key(rules, app, #[trigger] ins.take(i as int)[j].0) != k by {
                        assert(ins.take(i as int)[j] == ins[j]);
                        let s = slot[j];
                        assert(groups@[s]@.key == title_key(rules, app, ins[j].0));
                    }
                    lemma_key_total_absent(rules, app, ins.take(i as int), k);
                }
            }
            groups.push(Group {
                key,
                seconds: usage.seconds,
                label: clone_title(&usage.title),
                label_seconds: usage.seconds,
            });
            proof {
                wit = wit.push(i as int);
                slot = slot.push(old_groups.len() as int);
                lemma_ranks_before(x, x, x);
                assert forall|b: int, j: int|
                    0 <= b < groups@.len() && 0 <= j < i + 1 && title_key(rules, app, #[trigger] ins[j].0)
                        == (#[trigger] groups@[b])@.key implies !ranks_before(
                        ins[j],
                        (groups@[b]@.label, groups@[b]@.label_seconds),
                    ) by {
                    if b < old_groups.len() {
                        assert(groups@[b] == old_groups[b]);
                    } else if j < i {
                        let s = slot[j];
                        assert(groups@[s]@.key == title_key(rules, app, ins[j].0));
                    }
                }
            }
        }
        i = i + 1;
    }
    proof {
        assert(ins.take(ins.len() as int) =~= ins);
        assert forall|a: int| 0 <= a < groups@.len() implies group_ok(rules, app, ins, (#[trigger] groups@[a])@) by {
            let w = wit[a];
            assert(ins[w] == (groups@[a]@.label, groups@[a]@.label_seconds));
        }
        assert forall|j: int| 0 <= j < ins.len() implies exists|a: int|
            0 <= a < groups@.len() && (#[trigger] groups@[a])@.key == title_key(rules, app, #[trigger] ins[j].0) by {
            let s = slot[j];
            assert(groups@[s]@.key == title_key(rules, app, ins[j].0));
        }
    }
    groups
}

proof fn lemma_key_total_absent(rules: Seq<RuleSpec>, app_id: Seq<char>, ins: Seq<(Option<Seq<char>>, i64)>, key: Option<Seq<char>>)
    requires
        forall|j: int| 0 <= j < ins.len() ==> title_key(rules, app_id, #[trigger] ins[j].0) != key,
    ensures
        key_total(rules, app_id, ins, key) == 0,
    decreases ins.len(),
{
    if ins.len() > 0 {
        let init = ins.drop_last();
        assert forall|j: int| 0 <= j < init.len() implies title_key(rules, app_id, #[trigger] init[j].0) != key by {
            assert(init[j] == ins[j]);
        }
        lemma_key_total_absent(rules, app_id, init, key);
    }
}

spec fn group_rank(g: GroupView) -> (Option<Seq<char>>, i64) {
    (g.label, g.seconds)
}

fn group_before(a: &Group, b: &Group) -> (before: bool)
    ensures
        before == ranks_before(group_rank(a@), group_rank(b@)),
{
    a.seconds > b.seconds || (a.seconds == b.seconds && option_less(&a.label, &b.label))
}

/// Orders groups by total, most first, then by label (insertion sort).
fn sort_groups(groups: Vec<Group>) -> (sorted: Vec<Group>)
    ensures
        sorted@.to_multiset() == groups@.to_multiset(),
        forall|a: int, b: int|
            0 <= a < b < sorted@.len() ==> !ranks_before(
                group_rank((#[trigger] sorted@[b])@),
                group_rank((#[trigger] sorted@[a])@),
            ),
{
    broadcast use vstd::seq_lib::to_multiset_insert;

    let mut groups = groups;
    let ghost original = groups@;
    let mut out: Vec<Group> = Vec::new();
    while groups.len() > 0
        invariant
            out@.to_multiset().add(groups@.to_multiset()) == original.to_multiset(),
            forall|a: int, b: int|
                0 <= a < b < out@.len() ==> !ranks_before(
                    group_rank((#[trigger] out@[b])@),
                    group_rank((#[trigger] out@[a])@),
                ),
        decreases groups@.len(),
    {
        let ghost rest = groups@;
        let x = groups.pop().unwrap();
        proof {
            assert(rest =~= groups@.push(x));
            vstd::seq_lib::to_multiset_build(groups@, x);
        }
        let mut p: usize = 0;
        while p < out.len() && !group_before(&x, &out[p])
            invariant
                p <= out@.len(),
                forall|a: int| 0 <= a < p ==> !ranks_before(group_rank(x@), group_rank((#[trigger] out@[a])@)),
            decreases out@.len() - p,
        {
            p = p + 1;
        }
        let ghost before = out@;
        out.insert(p, x);
        proof {
            vstd::seq_lib::to_multiset_insert(before, p as int, x);
            assert(out@.to_multiset().add(groups@.to_multiset()) =~= original.to_multiset());
            assert forall|a: int, b: int|
                0 <= a < b < out@.len() implies !ranks_before(
                    group_rank((#[trigger] out@[b])@),
                    group_rank((#[trigger] out@[a])@),
                ) by {
                if b < p {
                    assert(out@[a] == before[a] && out@[b] == before[b]);
                } else if b == p {
                    assert(out@[a] == before[a]);
                } else if a < p {
                    assert(out@[a] == before[a] && out@[b] == before[b - 1]);
                    assert(ranks_before(group_rank(x@), group_rank(before[p as int]@)));
                    lemma_ranks_before(group_rank(before[b - 1]@), group_rank(x@), group_rank(before[p as int]@));
                    lemma_ranks_before(group_rank(before[b - 1]@), group_rank(before[a]@), group_rank(x@));
                    if b - 1 > p {
                        lemma_ranks_before(group_rank(before[b - 1]@), group_rank(before[p as int]@), group_rank(x@));
                    } else {
                        lemma_ranks_before(group_rank(before[p as int]@), group_rank(x@), group_rank(x@));
                    }
                } else if a == p {
                    assert(out@[b] == before[b - 1]);
                    assert(ranks_before(group_rank(x@), group_rank(before[p as int]@)));
                    if b - 1 > p {
                        lemma_ranks_before(group_rank(before[b - 1]@), group_rank(x@), group_rank(before[p as int]@));
                    } else {
                        lemma_ranks_before(group_rank(before[p as int]@), group_rank(x@), group_rank(x@));
                    }
                } else {
                    assert(out@[a] == before[a - 1] && out@[b] == before[b - 1]);
                }
            }
        }
    }
    proof {
        assert(groups@.to_multiset() =~= vstd::multiset::Multiset::empty());
        assert(out@.to_multiset().add(groups@.to_multiset()) =~= out@.to_multiset());
    }
    out
}

proof fn lemma_members(unsorted: Seq<Group>, sorted: Seq<Group>)
    requires
        sorted.to_multiset() == unsorted.to_multiset(),
        forall|a: int, b: int|
            0 <= a < b < unsorted.len() ==> (#[trigger] unsorted[a])@.key != (#[trigger] unsorted[b])@.key,
    ensures
        sorted.no_duplicates(),
        forall|a: int| 0 <= a < sorted.len() ==> unsorted.contains(#[trigger] sorted[a]),
        forall|u: int| 0 <= u < unsorted.len() ==> sorted.contains(#[trigger] unsorted[u]),
{
    broadcast use vstd::seq_lib::to_multiset_contains;
    assert(unsorted.no_duplicates()) by {
        assert forall|a: int, b: int| 0 <= a < unsorted.len() && 0 <= b < unsorted.len() && a != b implies unsorted[a] != unsorted[b] by {
            if a < b {
                assert(unsorted[a]@.key != unsorted[b]@.key);
            } else {
                assert(unsorted[b]@.key != unsorted[a]@.key);
            }
        }
    }
    unsorted.lemma_multiset_has_no_duplicates();
    sorted.lemma_multiset_has_no_duplicates_conv();
    assert forall|a: int| 0 <= a < sorted.len() implies unsorted.contains(#[trigger] sorted[a]) by {
        assert(sorted.to_multiset().contains(sorted[a]));
        assert(unsorted.contains(sorted[a]));
    }
    assert forall|u: int| 0 <= u < unsorted.len() implies sorted.contains(#[trigger] unsorted[u]) by {
        assert(unsorted.to_multiset().contains(unsorted[u]));
        assert(sorted.contains(unsorted[u]));
    }
}

proof fn lemma_grouping(
    rules: Seq<RuleSpec>,
    app: Seq<char>,
    ins: Seq<(Option<Seq<char>>, i64)>,
    unsorted: Seq<Group>,
    sorted: Seq<Group>,
    out: Seq<(Option<Seq<char>>, i64)>,
)
    requires
        forall|a: int, b: int|
            0 <= a < b < unsorted.len() ==> (#[trigger] unsorted[a])@.key != (#[trigger] unsorted[b])@.key,
        forall|a: int| 0 <= a < unsorted.len() ==> group_ok(rules, app, ins, (#[trigger] unsorted[a])@),
        forall|j: int|
            0 <= j < ins.len() ==> exists|a: int|
                0 <= a < unsorted.len() && (#[trigger] unsorted[a])@.key == title_key(rules, app, #[trigger] ins[j].0),
        sorted.no_duplicates(),
        forall|a: int| 0 <= a < sorted.len() ==> unsorted.contains(#[trigger] sorted[a]),
        forall|u: int| 0 <= u < unsorted.len() ==> sorted.contains(#[trigger] unsorted[u]),
        forall|a: int, b: int|
            0 <= a < b < sorted.len() ==> !ranks_before(
                group_rank((#[trigger] sorted[b])@),
                group_rank((#[trigger] sorted[a])@),
            ),
        out.len() == sorted.len(),
        forall|r: int| 0 <= r < out.len() ==> #[trigger] out[r] == group_rank(sorted[r]@),
    ensures
        is_grouping(rules, app, ins, out),
{
    assert forall|r: int| 0 <= r < sorted.len() implies group_ok(rules, app, ins, (#[trigger] sorted[r])@) by {
        let u = choose|u: int| 0 <= u < unsorted.len() && unsorted[u] == sorted[r];
        assert(group_ok(rules, app, ins, unsorted[u]@));
    }
    assert(grouping_totals(rules, app, ins, out)) by {
        assert forall|r: int| 0 <= r < out.len() implies (#[trigger] out[r]).1 == key_total(rules, app, ins, title_key(rules, app, out[r].0)) by {
            assert(group_ok(rules, app, ins, sorted[r]@));
        }
    }
    assert(grouping_labels(rules, app, ins, out)) by {
        assert forall|r: int| 0 <= r < out.len() implies exists|j: int|
            0 <= j < ins.len() && (#[trigger] ins[j]).0 == (#[trigger] out[r]).0 && forall|m: int|
                0 <= m < ins.len() && title_key(rules, app, #[trigger] ins[m].0) == title_key(rules, app, out[r].0)
                    ==> !ranks_before(ins[m], ins[j]) by {
            let g = sorted[r]@;
            assert(group_ok(rules, app, ins, g));
            let j = choose|j: int| 0 <= j < ins.len() && #[trigger] ins[j] == (g.label, g.label_seconds);
            assert(ins[j].0 == out[r].0);
        }
    }
    assert(grouping_complete(rules, app, ins, out)) by {
        assert forall|j: int| 0 <= j < ins.len() implies exists|r: int|
            0 <= r < out.len() && title_key(rules, app, (#[trigger] out[r]).0) == title_key(rules, app, #[trigger] ins[j].0) by {
            let u = choose|u: int| 0 <= u < unsorted.len() && (#[trigger] unsorted[u])@.key == title_key(rules, app, ins[j].0);
            assert(sorted.contains(unsorted[u]));
            let r = choose|r: int| 0 <= r < sorted.len() && sorted[r] == unsorted[u];
            assert(group_ok(rules, app, ins, sorted[r]@));
            assert(out[r] == group_rank(sorted[r]@));
        }
    }
    assert(grouping_distinct(rules, app, out)) by {
        assert forall|a: int, b: int| 0 <= a < b < out.len() implies title_key(rules, app, (#[trigger] out[a]).0) != title_key(
            rules,
            app,
            (#[trigger] out[b]).0,
        ) by {
            lemma_distinct_sorted_groups(rules, app, ins, unsorted, sorted, a, b);
        }
    }
    assert(grouping_ordered(out)) by {
        assert forall|a: int, b: int| 0 <= a < b < out.len() implies ranks_before(#[trigger] out[a], #[trigger] out[b]) by {
            lemma_distinct_sorted_groups(rules, app, ins, unsorted, sorted, a, b);
        }
    }
}

proof fn lemma_distinct_sorted_groups(
    rules: Seq<RuleSpec>,
    app: Seq<char>,
    ins: Seq<(Option<Seq<char>>, i64)>,
    unsorted: Seq<Group>,
    sorted: Seq<Group>,
    a: int,
    b: int,
)
    requires
        0 <= a < b < sorted.len(),
        forall|x: int, y: int|
            0 <= x < y < unsorted.len() ==> (#[trigger] unsorted[x])@.key != (#[trigger] unsorted[y])@.key,
        forall|r: int| 0 <= r < sorted.len() ==> group_ok(rules, app, ins, (#[trigger] sorted[r])@),
        sorted.no_duplicates(),
        forall|x: int| 0 <= x < sorted.len() ==> unsorted.contains(#[trigger] sorted[x]),
        forall|x: int, y: int|
            0 <= x < y < sorted.len() ==> !ranks_before(
                group_rank((#[trigger] sorted[y])@),
                group_rank((#[trigger] sorted[x])@),
            ),
    ensures
        title_key(rules, app, sorted[a]@.label) != title_key(rules, app, sorted[b]@.label),
        ranks_before(group_rank(sorted[a]@), group_rank(sorted[b]@)),
{
    let ga = sorted[a]@;
    let gb = sorted[b]@;
    assert(group_ok(rules, app, ins, ga));
    assert(group_ok(rules, app, ins, gb));
    let ua = choose|u: int| 0 <= u < unsorted.len() && unsorted[u] == sorted[a];
    let ub = choose|u: int| 0 <= u < unsorted.len() && unsorted[u] == sorted[b];
    assert(sorted[a] != sorted[b]);
    if ua < ub {
        assert(unsorted[ua]@.key != unsorted[ub]@.key);
    } else if ub < ua {
        assert(unsorted[ub]@.key != unsorted[ua]@.key);
    }
    lemma_ranks_before(group_rank(ga), group_rank(gb), group_rank(ga));
}

/// Each entry holds the total seconds of its title's group.
pub open spec fn grouping_totals(rules: Seq<RuleSpec>, app_id: Seq<char>, ins: Seq<(Option<Seq<char>>, i64)>, out: Seq<(Option<Seq<char>>, i64)>) -> bool {
    forall|r: int|
        0 <= r < out.len() ==> (#[trigger] out[r]).1 == key_total(rules, app_id, ins, title_key(rules, app_id, out[r].0))
}

/// Each entry is labelled with a title of its group that no other title of
/// the group outranks.
pub open spec fn grouping_labels(rules: Seq<RuleSpec>, app_id: Seq<char>, ins: Seq<(Option<Seq<char>>, i64)>, out: Seq<(Option<Seq<char>>, i64)>) -> bool {
    forall|r: int|
        0 <= r < out.len() ==> exists|j: int|
            0 <= j < ins.len() && (#[trigger] ins[j]).0 == (#[trigger] out[r]).0 && forall|m: int|
                0 <= m < ins.len() && title_key(rules, app_id, #[trigger] ins[m].0) == title_key(rules, app_id, out[r].0)
                    ==> !ranks_before(ins[m], ins[j])
}

/// Every input title's group has an entry.
pub open spec fn grouping_complete(rules: Seq<RuleSpec>, app_id: Seq<char>, ins: Seq<(Option<Seq<char>>, i64)>, out: Seq<(Option<Seq<char>>, i64)>) -> bool {
    forall|j: int|
        0 <= j < ins.len() ==> exists|r: int|
            0 <= r < out.len() && title_key(rules, app_id, (#[trigger] out[r]).0) == title_key(rules, app_id, #[trigger] ins[j].0)
}

/// Entries come in strict report order.
pub open spec fn grouping_ordered(out: Seq<(Option<Seq<char>>, i64)>) -> bool {
    forall|a: int, b: int| 0 <= a < b < out.len() ==> ranks_before(#[trigger] out[a], #[trigger] out[b])
}

/// No two entries belong to the same group.
pub open spec fn grouping_distinct(rules: Seq<RuleSpec>, app_id: Seq<char>, out: Seq<(Option<Seq<char>>, i64)>) -> bool {
    forall|a: int, b: int|
        0 <= a < b < out.len() ==> title_key(rules, app_id, (#[trigger] out[a]).0) != title_key(
            rules,
            app_id,
            (#[trigger] out[b]).0,
        )
}

/// What grouping must produce from `ins`: one entry per grouping key in
/// use, labelled with that key's highest-ranked title and holding the key's
/// total seconds, in report order.
pub open spec fn is_grouping(rules: Seq<RuleSpec>, app_id: Seq<char>, ins: Seq<(Option<Seq<char>>, i64)>, out: Seq<(Option<Seq<char>>, i64)>) -> bool {
    &&& grouping_totals(rules, app_id, ins, out)
    &&& grouping_labels(rules, app_id, ins, out)
    &&& grouping_complete(rules, app_id, ins, out)
    &&& grouping_ordered(out)
    &&& grouping_distinct(rules, app_id, out)
}

/// Merges titles that normalize to the same text for `app_id`. Each group
/// is shown under its title with the most seconds (ties: the smallest
/// title) and holds the group's total; groups come in report order.
pub fn group_title_usage(app_id: &str, titles: Vec<TitleUsage>, config: &TitleGroupingConfig) -> (grouped: Vec<TitleUsage>)
    requires
        totals_fit(config@, app_id@, titles@.map_values(|t: TitleUsage| t@)),
    ensures
        is_grouping(
            config@,
            app_id@,
            titles@.map_values(|t: TitleUsage| t@),
            grouped@.map_values(|t: TitleUsage| t@),
        ),
{
    let ghost ins = titles@.map_values(|t: TitleUsage| t@);
    let ghost rules = config@;
    let ghost app = app_id@;
    let groups = accumulate_groups(app_id, &titles, config);
    let ghost unsorted = groups@;
    let sorted = sort_groups(groups);
    let mut grouped: Vec<TitleUsage> = Vec::new();
    let mut i: usize = 0;
    while i < sorted.len()
        invariant
            i <= sorted@.len(),
            grouped@.len() == i,
            forall|r: int| 0 <= r < i ==> (#[trigger] grouped@[r])@ == group_rank(sorted@[r]@),
        decreases sorted@.len() - i,
    {
        let g = &sorted[i];
        grouped.push(TitleUsage { title: clone_title(&g.label), seconds: g.seconds });
        i = i + 1;
    }
    proof {
        let out = grouped@.map_values(|t: TitleUsage| t@);
        assert forall|r: int| 0 <= r < out.len() implies #[trigger] out[r] == group_rank(sorted@[r]@) by {
            assert(out[r] == grouped@[r]@);
        }
        lemma_members(unsorted, sorted@);
        lemma_grouping(rules, app, ins, unsorted, sorted@, out);
    }
    grouped
}

/// The time spent in one application, with its titles.
#[derive(Debug, PartialEq, Eq)]
pub struct AppUsage {
    pub app_id: String,
    pub seconds: i64,
    pub titles: Vec<TitleUsage>,
}

/// The value of an application's usage.
pub struct AppView {
    pub app_id: Seq<char>,
    pub seconds: i64,
    pub titles: Seq<(Option<Seq<char>>, i64)>,
}

impl View for AppUsage {
    type V = AppView;

    open spec fn view(&self) -> AppView {
        AppView {
            app_id: self.app_id@,
            seconds: self.seconds,
            titles: self.titles@.map_values(|t: TitleUsage| t@),
        }
    }
}

/// The values of a sequence of application usages.
pub open spec fn apps_view(apps: Seq<AppUsage>) -> Seq<AppView> {
    apps.map_values(|a: AppUsage| a@)
}

/// The summed seconds of the first `k` applications.
pub open spec fn usage_total(apps: Seq<AppView>, k: nat) -> int
    decreases k,
{
    if k == 0 {
        0
    } else {
        usage_total(apps, (k - 1) as nat) + apps[k - 1].seconds
    }
}

/// Every partial sum of the applications' seconds fits in an `i64`.
pub open spec fn usage_fits(apps: Seq<AppView>) -> bool {
    forall|k: nat| k <= apps.len() ==> i64::MIN <= #[trigger] usage_total(apps, k) <= i64::MAX
}

/// The report's first line: the dates, the recorded active time and the
/// elapsed part of the selection.
pub open spec fn report_heading(range: TimeRange, total: int, elapsed: int) -> Seq<char> {
    if range.since == range.until {
        "Usage report for "@ + date_shown(range.since) + " ("@ + duration_text(total) + "/"@
            + duration_text(elapsed) + ")"@
    } else {
        "Usage report from "@ + date_shown(range.since) + " through "@ + date_shown(range.until)
            + " ("@ + duration_text(total) + "/"@ + duration_text(elapsed) + ")"@
    }
}

/// The tree branch in front of a title: the last one closes the tree.
pub open spec fn branch_text(last: bool) -> Seq<char> {
    if last {
        "\u{2514}\u{2500}"@
    } else {
        "\u{251c}\u{2500}"@
    }
}

/// The line of one title under its application.
pub open spec fn title_line(styles: TextStyles, title: (Option<Seq<char>>, i64), last: bool) -> Seq<char> {
    "  "@ + styles.painted(muted_paint(), branch_text(last)) + " "@ + styles.painted(
        title_paint(),
        title_label(title.0),
    ) + "  "@ + styles.painted(dim_paint(), duration_text(title.1 as int))
}

/// The lines of the first `k` titles, each after a line break.
pub open spec fn title_lines(styles: TextStyles, titles: Seq<(Option<Seq<char>>, i64)>, k: nat) -> Seq<char>
    decreases k,
{
    if k == 0 {
        Seq::empty()
    } else {
        title_lines(styles, titles, (k - 1) as nat) + "\n"@ + title_line(
            styles,
            titles[k - 1],
            k == titles.len(),
        )
    }
}

/// The line of an application (its escaped name and time) and, in tree
/// mode, the lines of its titles.
pub open spec fn app_block(styles: TextStyles, app: AppView, tree: bool) -> Seq<char> {
    styles.painted(application_paint(), escaped(app.app_id)) + "  "@ + styles.painted(
        dim_paint(),
        duration_text(app.seconds as int),
    ) + if tree {
        title_lines(styles, app.titles, app.titles.len() as nat)
    } else {
        Seq::empty()
    }
}

/// The blocks of the first `k` applications, each after a line break.
pub open spec fn app_blocks(styles: TextStyles, apps: Seq<AppView>, tree: bool, k: nat) -> Seq<char>
    decreases k,
{
    if k == 0 {
        Seq::empty()
    } else {
        app_blocks(styles, apps, tree, (k - 1) as nat) + "\n"@ + app_block(styles, apps[k - 1], tree)
    }
}

/// The report: heading, unlogged summary, then the applications, or a note
/// when there is none. Lines are separated by line breaks.
pub open spec fn report_text(
    styles: TextStyles,
    range: TimeRange,
    now: i64,
    apps: Seq<AppView>,
    tree: bool,
    summary: Seq<char>,
) -> Seq<char> {
    styles.painted(
        header_paint(),
        report_heading(
            range,
            usage_total(apps, apps.len() as nat),
            elapsed_seconds(range.start as int, range.end as int, now as int),
        ),
    ) + "\n"@ + summary + if apps.len() == 0 {
        "\n"@ + styles.painted(muted_paint(), "No completed active intervals."@)
    } else {
        app_blocks(styles, apps, tree, apps.len() as nat)
    }
}

fn title_line_of(styles: &TextStyles, title: &TitleUsage, last: bool) -> (text: String)
    ensures
        text@ == title_line(*styles, title@, last),
{
    let mut text = String::new();
    text.append("  ");
    let branch = if last {
        styles.branch("\u{2514}\u{2500}")
    } else {
        styles.branch("\u{251c}\u{2500}")
    };
    text.append(branch.as_str());
    text.append(" ");
    let label = match &title.title {
        Some(t) => format_title(Some(t.as_str())),
        None => format_title(None),
    };
    text.append(styles.title(label.as_str()).as_str());
    text.append("  ");
    text.append(styles.duration(format_duration(title.seconds).as_str()).as_str());
    assert(text@ =~= title_line(*styles, title@, last));
    text
}

fn app_block_of(styles: &TextStyles, app: &AppUsage, tree: bool) -> (text: String)
    ensures
        text@ == app_block(*styles, app@, tree),
{
    let mut text = styles.application(escape_terminal(app.app_id.as_str()).as_str());
    text.append("  ");
    text.append(styles.duration(format_duration(app.seconds).as_str()).as_str());
    let ghost head = text@;
    if tree {
        let ghost tv = app@.titles;
        let n = app.titles.len();
        let mut i: usize = 0;
        while i < n
            invariant
                i <= n,
                n == app.titles.len(),
                tv == app@.titles,
                text@ == head + title_lines(*styles, tv, i as nat),
            decreases n - i,
        {
            text.append("\n");
            let line = title_line_of(styles, &app.titles[i], i + 1 == n);
            text.append(line.as_str());
            assert(text@ =~= head + title_lines(*styles, tv, (i + 1) as nat));
            i = i + 1;
        }
    }
    assert(text@ =~= app_block(*styles, app@, tree));
    text
}

fn push_app_blocks(text: &mut String, styles: &TextStyles, apps: &Vec<AppUsage>, tree: bool)
    ensures
        final(text)@ == old(text)@ + app_blocks(*styles, apps_view(apps@), tree, apps.len() as nat),
{
    let ghost av = apps_view(apps@);
    let ghost head = text@;
    let mut k: usize = 0;
    while k < apps.len()
        invariant
            k <= apps.len(),
            av == apps_view(apps@),
            text@ == head + app_blocks(*styles, av, tree, k as nat),
        decreases apps.len() - k,
    {
        let ghost before = text@;
        text.append("\n");
        let block = app_block_of(styles, &apps[k], tree);
        text.append(block.as_str());
        assert(av[k as int] == apps@[k as int]@);
        assert(app_blocks(*styles, av, tree, (k + 1) as nat) == app_blocks(*styles, av, tree, k as nat)
            + "\n"@ + app_block(*styles, av[k as int], tree));
        assert(text@ =~= before + "\n"@ + block@);
        assert(text@ =~= head + app_blocks(*styles, av, tree, (k + 1) as nat));
        k = k + 1;
    }
}

/// Writes the report from the applications' usage and the unlogged summary.
pub fn compose_report(
    styles: &TextStyles,
    range: TimeRange,
    now: i64,
    apps: &Vec<AppUsage>,
    tree: bool,
    summary: &str,
) -> (text: String)
    requires
        usage_fits(apps_view(apps@)),
    ensures
        text@ == report_text(*styles, range, now, apps_view(apps@), tree, summary@),
{
    let ghost av = apps_view(apps@);
    let mut total: i64 = 0;
    let mut i: usize = 0;
    while i < apps.len()
        invariant
            i <= apps.len(),
            av == apps_view(apps@),
            usage_fits(av),
            total == usage_total(av, i as nat),
        decreases apps.len() - i,
    {
        assert(i64::MIN <= usage_total(av, (i + 1) as nat) <= i64::MAX);
        total = total + apps[i].seconds;
        i = i + 1;
    }
    let elapsed = selected_elapsed_seconds(range, now);
    let mut heading = String::new();
    if range.since == range.until {
        heading.append("Usage report for ");
        heading.append(date_text(range.since).as_str());
    } else {
        heading.append("Usage report from ");
        heading.append(date_text(range.since).as_str());
        heading.append(" through ");
        heading.append(date_text(range.until).as_str());
    }
    heading.append(" (");
    heading.append(format_duration(total).as_str());
    heading.append("/");
    heading.append(format_duration(elapsed).as_str());
    heading.append(")");
    assert(heading@ =~= report_heading(
        range,
        usage_total(av, av.len() as nat),
        elapsed_seconds(range.start as int, range.end as int, now as int),
    ));
    let mut text = styles.header(heading.as_str());
    text.append("\n");
    text.append(summary);
    if apps.len() == 0 {
        text.append("\n");
        text.append(styles.muted("No completed active intervals.").as_str());
    } else {
        push_app_blocks(&mut text, styles, apps, tree);
    }
    assert(text@ =~= report_text(*styles, range, now, av, tree, summary@));
    text
}

/// The usage report of the selected range at `now`; each unlogged period in
/// the summary is labelled with its own period in local time.
pub fn render_report(
    apps: &Vec<AppUsage>,
    gaps: &Vec<Gap>,
    range: TimeRange,
    now: i64,
    tree: bool,
    verbose: bool,
    ansi: bool,
) -> (text: String)
    requires
        usage_fits(apps_view(apps@)),
        gap_lengths_fit(gaps@),
    ensures
        exists|labels: Seq<Seq<char>>|
            labels_fit_gaps(labels, gaps@, range.since != range.until) && text@ == #[trigger] report_text(
                TextStyles { ansi },
                range,
                now,
                apps_view(apps@),
                tree,
                summary_text(TextStyles { ansi }, gaps@, verbose, labels),
            ),
{
    let styles = TextStyles::new(ansi);
    let labels = gap_labels(gaps, range.since != range.until);
    let summary = compose_summary(&styles, gaps, verbose, &labels);
    let ghost lv = labels@.map_values(|l: String| l@);
    let text = compose_report(&styles, range, now, apps, tree, summary.as_str());
    assert(styles == TextStyles { ansi });
    assert(text@ == report_text(styles, range, now, apps_view(apps@), tree, summary_text(styles, gaps@, verbose, lv)));
    text
}

/// The summed magnitudes of the first `k` usages' seconds.
pub open spec fn magnitude(usages: Seq<(Option<Seq<char>>, i64)>, k: nat) -> int
    decreases k,
{
    if k == 0 {
        0
    } else {
        magnitude(usages, (k - 1) as nat) + if usages[k - 1].1 < 0 {
            -(usages[k - 1].1 as int)
        } else {
            usages[k - 1].1 as int
        }
    }
}

proof fn lemma_key_total_bounded(
    rules: Seq<RuleSpec>,
    app_id: Seq<char>,
    usages: Seq<(Option<Seq<char>>, i64)>,
    key: Option<Seq<char>>,
)
    ensures
        -magnitude(usages, usages.len() as nat) <= key_total(rules, app_id, usages, key) <= magnitude(
            usages,
            usages.len() as nat,
        ),
    decreases usages.len(),
{
    if usages.len() > 0 {
        let rest = usages.drop_last();
        lemma_key_total_bounded(rules, app_id, rest, key);
        lemma_magnitude_prefix(usages, (usages.len() - 1) as nat);
    }
}

proof fn lemma_magnitude_prefix(usages: Seq<(Option<Seq<char>>, i64)>, k: nat)
    requires
        k <= usages.len(),
    ensures
        magnitude(usages.take(k as int), k) == magnitude(usages, k),
        magnitude(usages, k) >= 0,
    decreases k,
{
    if k > 0 {
        lemma_magnitude_prefix(usages, (k - 1) as nat);
        lemma_magnitude_take(usages, k);
    }
}

proof fn lemma_magnitude_take(usages: Seq<(Option<Seq<char>>, i64)>, k: nat)
    requires
        k <= usages.len(),
    ensures
        forall|j: nat| j <= k ==> #[trigger] magnitude(usages.take(k as int), j) == magnitude(usages, j),
    decreases k,
{
    assert forall|j: nat| j <= k implies #[trigger] magnitude(usages.take(k as int), j) == magnitude(usages, j) by {
        lemma_magnitude_same(usages.take(k as int), usages, j);
    }
}

proof fn lemma_magnitude_same(a: Seq<(Option<Seq<char>>, i64)>, b: Seq<(Option<Seq<char>>, i64)>, j: nat)
    requires
        j <= a.len(),
        j <= b.len(),
        forall|i: int| 0 <= i < j ==> a[i] == b[i],
    ensures
        magnitude(a, j) == magnitude(b, j),
    decreases j,
{
    if j > 0 {
        lemma_magnitude_same(a, b, (j - 1) as nat);
    }
}

/// Groups the titles when the summed magnitudes of their seconds fit in an
/// `i64`, which keeps every total in range; nothing otherwise.
pub fn group_title_usage_checked(app_id: &str, titles: Vec<TitleUsage>, config: &TitleGroupingConfig) -> (grouped: Option<Vec<TitleUsage>>)
    ensures
        grouped is Some <==> magnitude(
            titles@.map_values(|t: TitleUsage| t@),
            titles@.len() as nat,
        ) <= i64::MAX,
        grouped matches Some(g) ==> is_grouping(
            config@,
            app_id@,
            titles@.map_values(|t: TitleUsage| t@),
            g@.map_values(|t: TitleUsage| t@),
        ),
{
    let ghost usages = titles@.map_values(|t: TitleUsage| t@);
    let mut sum: i64 = 0;
    let mut i: usize = 0;
    while i < titles.len()
        invariant
            i <= titles.len(),
            usages == titles@.map_values(|t: TitleUsage| t@),
            sum == magnitude(usages, i as nat),
            0 <= sum,
        decreases titles.len() - i,
    {
        let s = titles[i].seconds;
        let m: i64 = if s < 0 {
            if s == i64::MIN {
                proof {
                    assert(usages[i as int].1 == s);
                    assert(magnitude(usages, (i + 1) as nat) == sum + 9_223_372_036_854_775_808);
                    lemma_magnitude_grows(usages, (i + 1) as nat, titles.len() as nat);
                }
                return None;
            }
            -s
        } else {
            s
        };
        assert(usages[i as int].1 == s);
        if sum > i64::MAX - m {
            proof {
                lemma_magnitude_grows(usages, (i + 1) as nat, titles.len() as nat);
            }
            return None;
        }
        sum = sum + m;
        i = i + 1;
    }
    proof {
        let rules = config@;
        let id = app_id@;
        assert forall|n: int, key: Option<Seq<char>>|
            0 <= n <= usages.len() implies i64::MIN <= #[trigger] key_total(rules, id, usages.take(n), key) <= i64::MAX by {
            lemma_key_total_bounded(rules, id, usages.take(n), key);
            lemma_magnitude_prefix(usages, n as nat);
            lemma_magnitude_grows(usages, n as nat, usages.len() as nat);
        }
    }
    Some(group_title_usage(app_id, titles, config))
}

proof fn lemma_magnitude_grows(usages: Seq<(Option<Seq<char>>, i64)>, j: nat, k: nat)
    requires
        j <= k <= usages.len(),
    ensures
        magnitude(usages, j) <= magnitude(usages, k),
    decreases k - j,
{
    if j < k {
        lemma_magnitude_grows(usages, j, (k - 1) as nat);
    }
}

} // verus!
