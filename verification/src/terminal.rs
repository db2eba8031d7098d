//! What reaches the terminal: without ANSI styling, the workflow timeline and
//! the usage report hold no control character and no bidirectional
//! formatting character other than their line breaks, whatever the
//! application ids and titles held.

use vstd::prelude::*;
use crate::style::TextStyles;
use crate::text::{
    decimal, decimal_pad2, digits, duration_text, escaped, law_escaped_text_is_terminal_safe,
    quoted_terminal, replace_char, terminal_safe, title_label, untitled,
};
use crate::time::{
    CalendarDate, TimeRange, clock_shape, date_shape, date_shown, instant_label, iso_date_text,
    local_time_shape, pad4, period_label, period_text, timestamp_label_text, year_text,
};
use crate::unlogged::{Gap, gap_lines, labels_fit_gaps, gap_row_text, summary_text, total_length};
use crate::report::{AppView, app_block, app_blocks, branch_text, report_heading, report_text, title_line, title_lines};
use crate::workflow::{
    EntryView, Key, entry_row_text, labels_fit_entries, row_lines, row_text, workflow_heading,
    workflow_text,
};

verus! {

/// Every character of the text shows as itself on a terminal.
pub open spec fn plain(s: Seq<char>) -> bool {
    forall|i: int| 0 <= i < s.len() ==> terminal_safe(#[trigger] s[i])
}

/// Every character is a line break or shows as itself.
pub open spec fn plain_lines(s: Seq<char>) -> bool {
    forall|i: int| 0 <= i < s.len() ==> #[trigger] s[i] == '\n' || terminal_safe(s[i])
}

proof fn lemma_concat(a: Seq<char>, b: Seq<char>)
    requires
        plain(a),
        plain(b),
    ensures
        plain(a + b),
{
    assert forall|i: int| 0 <= i < (a + b).len() implies terminal_safe(#[trigger] (a + b)[i]) by {
        if i < a.len() {
            assert((a + b)[i] == a[i]);
        } else {
            assert((a + b)[i] == b[i - a.len()]);
        }
    }
}

proof fn lemma_concat_lines(a: Seq<char>, b: Seq<char>)
    requires
        plain_lines(a),
        plain_lines(b),
    ensures
        plain_lines(a + b),
{
    assert forall|i: int| 0 <= i < (a + b).len() implies #[trigger] (a + b)[i] == '\n' || terminal_safe(
        (a + b)[i],
    ) by {
        if i < a.len() {
            assert((a + b)[i] == a[i]);
        } else {
            assert((a + b)[i] == b[i - a.len()]);
        }
    }
}

proof fn lemma_plain_lines(s: Seq<char>)
    requires
        plain(s),
    ensures
        plain_lines(s),
{
    assert forall|i: int| 0 <= i < s.len() implies #[trigger] s[i] == '\n' || terminal_safe(s[i]) by {
        assert(terminal_safe(s[i]));
    }
}

/// Printable ASCII shows as itself.
proof fn lemma_ascii(s: Seq<char>)
    requires
        forall|i: int| 0 <= i < s.len() ==> ' ' <= #[trigger] s[i] <= '~',
    ensures
        plain(s),
{
    assert forall|i: int| 0 <= i < s.len() implies terminal_safe(#[trigger] s[i]) by {
        assert(' ' <= s[i] <= '~');
    }
}

proof fn lemma_digits(n: nat)
    ensures
        plain(digits(n)),
        forall|i: int| 0 <= i < digits(n).len() ==> '0' <= #[trigger] digits(n)[i] <= '9',
    decreases n,
{
    let d = (n % 10) as int;
    assert(crate::text::digit_char(d) as int == '0' as int + d);
    if n >= 10 {
        lemma_digits(n / 10);
        let s = digits(n);
        assert forall|i: int| 0 <= i < s.len() implies '0' <= #[trigger] s[i] <= '9' by {
            if i < s.len() - 1 {
                assert(s[i] == digits(n / 10)[i]);
            }
        }
    } else {
        assert(n % 10 == n);
    }
    lemma_ascii(digits(n));
}

proof fn lemma_decimal(n: int)
    ensures
        plain(decimal(n)),
        plain(decimal_pad2(n)),
{
    lemma_digits((-n) as nat);
    lemma_digits(n as nat);
    lemma_ascii(seq!['-']);
    lemma_concat(seq!['-'], digits((-n) as nat));
    if 0 <= n < 10 {
        assert(crate::text::digit_char(n) as int == '0' as int + n);
        lemma_ascii(decimal_pad2(n));
    }
}

proof fn lemma_duration(total: int)
    ensures
        plain(duration_text(total)),
{
    let hours = crate::text::trunc_div(total, 3600);
    let minutes = crate::text::trunc_div(crate::text::trunc_rem(total, 3600), 60);
    let seconds = crate::text::trunc_rem(total, 60);
    lemma_decimal(hours);
    lemma_decimal(minutes);
    lemma_decimal(seconds);
    lemma_ascii(seq!['s']);
    lemma_ascii(seq!['m', ' ']);
    lemma_ascii(seq!['h', ' ']);
    lemma_concat(decimal(seconds), seq!['s']);
    lemma_concat(decimal(minutes), seq!['m', ' ']);
    lemma_concat(decimal(minutes) + seq!['m', ' '], decimal_pad2(seconds));
    lemma_concat(decimal(minutes) + seq!['m', ' '] + decimal_pad2(seconds), seq!['s']);
    lemma_concat(decimal(hours), seq!['h', ' ']);
    lemma_concat(decimal(hours) + seq!['h', ' '], decimal_pad2(minutes));
    lemma_concat(decimal(hours) + seq!['h', ' '] + decimal_pad2(minutes), seq!['m', ' ']);
    lemma_concat(
        decimal(hours) + seq!['h', ' '] + decimal_pad2(minutes) + seq!['m', ' '],
        decimal_pad2(seconds),
    );
    lemma_concat(
        decimal(hours) + seq!['h', ' '] + decimal_pad2(minutes) + seq!['m', ' '] + decimal_pad2(
            seconds,
        ),
        seq!['s'],
    );
}

proof fn lemma_replace(s: Seq<char>, from: char, to: Seq<char>)
    requires
        plain(s),
        plain(to),
    ensures
        plain(replace_char(s, from, to)),
    decreases s.len(),
{
    if s.len() > 0 {
        assert(plain(s.drop_last())) by {
            assert forall|i: int| 0 <= i < s.drop_last().len() implies terminal_safe(
                #[trigger] s.drop_last()[i],
            ) by {
                assert(s.drop_last()[i] == s[i]);
            }
        }
        lemma_replace(s.drop_last(), from, to);
        assert(terminal_safe(s[s.len() - 1]));
        lemma_concat(replace_char(s.drop_last(), from, to), if s.last() == from {
            to
        } else {
            seq![s.last()]
        });
    }
}

proof fn lemma_title(title: Option<Seq<char>>)
    ensures
        plain(title_label(title)),
{
    let t = match title {
        Some(t) => t,
        None => untitled(),
    };
    law_escaped_text_is_terminal_safe(t);
    lemma_ascii(seq!['\\', '"']);
    lemma_ascii(seq!['"']);
    lemma_replace(escaped(t), '"', seq!['\\', '"']);
    lemma_concat(seq!['"'], replace_char(escaped(t), '"', seq!['\\', '"']));
    lemma_concat(seq!['"'] + replace_char(escaped(t), '"', seq!['\\', '"']), seq!['"']);
}

proof fn lemma_clock(s: Seq<char>)
    requires
        clock_shape(s),
    ensures
        plain(s),
{
    assert forall|i: int| 0 <= i < s.len() implies ' ' <= #[trigger] s[i] <= '~' by {
        if i == 0 || i == 1 || i == 3 || i == 4 || i == 6 || i == 7 {
        }
    }
    lemma_ascii(s);
}

proof fn lemma_date(s: Seq<char>)
    requires
        date_shape(s),
    ensures
        plain(s),
{
    let n = s.len();
    assert forall|i: int| 0 <= i < s.len() implies ' ' <= #[trigger] s[i] <= '~' by {
        if i < n - 6 {
            assert(crate::time::is_digit(s[i]) || (i == 0 && (s[0] == '+' || s[0] == '-')));
        }
    }
    lemma_ascii(s);
}

proof fn lemma_local_time(s: Seq<char>, include_date: bool)
    requires
        local_time_shape(s, include_date),
    ensures
        plain(s),
{
    if include_date {
        let d = s.take(s.len() - 9);
        let c = s.skip(s.len() - 8);
        lemma_date(d);
        lemma_clock(c);
        assert forall|i: int| 0 <= i < s.len() implies terminal_safe(#[trigger] s[i]) by {
            if i < s.len() - 9 {
                assert(s[i] == d[i]);
            } else if i > s.len() - 9 {
                assert(s[i] == c[i - (s.len() - 8)]);
            }
        }
    } else {
        lemma_clock(s);
    }
}

proof fn lemma_instant(label: Seq<char>, timestamp: int, include_date: bool)
    requires
        instant_label(label, timestamp, include_date),
    ensures
        plain(label),
{
    if label == timestamp_label_text(None, timestamp) {
        let head = seq!['<', 'i', 'n', 'v', 'a', 'l', 'i', 'd', ' ', 't', 'i', 'm', 'e', 's', 't', 'a',
            'm', 'p', ' '];
        lemma_ascii(head);
        lemma_ascii(seq!['>']);
        lemma_decimal(timestamp);
        lemma_concat(head, decimal(timestamp));
        lemma_concat(head + decimal(timestamp), seq!['>']);
    } else {
        lemma_local_time(label, include_date);
    }
}

/// Period labels show as themselves on a terminal.
pub proof fn lemma_period(label: Seq<char>, start: int, end: int, multi_day: bool)
    requires
        period_label(label, start, end, multi_day),
    ensures
        plain(label),
{
    let (a, b, dates) = choose|a: Seq<char>, b: Seq<char>, dates: bool|
        #![trigger instant_label(a, start, dates), instant_label(b, end, dates)]
        (multi_day ==> dates) && instant_label(a, start, dates) && instant_label(b, end, dates) && label
            == period_text(a, b);
    lemma_instant(a, start, dates);
    lemma_instant(b, end, dates);
    assert(terminal_safe('\u{2013}'));
    assert(plain(seq!['\u{2013}']));
    lemma_concat(a, seq!['\u{2013}']);
    lemma_concat(a + seq!['\u{2013}'], b);
}

proof fn lemma_date_shown(date: CalendarDate)
    ensures
        plain(date_shown(date)),
{
    let y = date.year as int;
    let n: nat = if y < 0 {
        (-y) as nat
    } else {
        y as nat
    };
    lemma_digits(n);
    lemma_ascii(seq!['0', '0', '0']);
    lemma_ascii(seq!['0', '0']);
    lemma_ascii(seq!['0']);
    lemma_concat(seq!['0', '0', '0'], digits(n));
    lemma_concat(seq!['0', '0'], digits(n));
    lemma_concat(seq!['0'], digits(n));
    assert(plain(pad4(n)));
    lemma_ascii(seq!['-']);
    lemma_ascii(seq!['+']);
    lemma_concat(seq!['-'], pad4(n));
    lemma_concat(seq!['+'], pad4(n));
    assert(plain(year_text(y)));
    lemma_decimal(date.month as int);
    lemma_decimal(date.day as int);
    lemma_concat(year_text(y), seq!['-']);
    lemma_concat(year_text(y) + seq!['-'], decimal_pad2(date.month as int));
    lemma_concat(year_text(y) + seq!['-'] + decimal_pad2(date.month as int), seq!['-']);
    lemma_concat(
        year_text(y) + seq!['-'] + decimal_pad2(date.month as int) + seq!['-'],
        decimal_pad2(date.day as int),
    );
    assert(plain(Seq::<char>::empty()));
}

proof fn lemma_heading(range: TimeRange)
    ensures
        plain(workflow_heading(range)),
{
    reveal_strlit("Workflow for ");
    reveal_strlit("Workflow from ");
    reveal_strlit(" through ");
    lemma_ascii("Workflow for "@);
    lemma_ascii("Workflow from "@);
    lemma_ascii(" through "@);
    lemma_date_shown(range.since);
    lemma_date_shown(range.until);
    lemma_concat("Workflow for "@, date_shown(range.since));
    lemma_concat("Workflow from "@, date_shown(range.since));
    lemma_concat("Workflow from "@ + date_shown(range.since), " through "@);
    lemma_concat("Workflow from "@ + date_shown(range.since) + " through "@, date_shown(range.until));
}

proof fn lemma_entry_row(entry: EntryView, label: Seq<char>)
    requires
        plain(label),
    ensures
        plain(entry_row_text(TextStyles { ansi: false }, entry, label)),
{
    reveal_strlit("  ");
    lemma_ascii("  "@);
    law_escaped_text_is_terminal_safe(entry.app_id);
    lemma_title(entry.title);
    lemma_duration(entry.ended_at - entry.started_at);
    let sep = "  "@;
    lemma_concat(label, sep);
    lemma_concat(label + sep, escaped(entry.app_id));
    lemma_concat(label + sep + escaped(entry.app_id), sep);
    lemma_concat(label + sep + escaped(entry.app_id) + sep, title_label(entry.title));
    lemma_concat(label + sep + escaped(entry.app_id) + sep + title_label(entry.title), sep);
    lemma_concat(
        label + sep + escaped(entry.app_id) + sep + title_label(entry.title) + sep,
        duration_text(entry.ended_at - entry.started_at),
    );
}

proof fn lemma_gap_row(gap: Gap, label: Seq<char>)
    requires
        plain(label),
    ensures
        plain(gap_row_text(TextStyles { ansi: false }, gap, label)),
{
    reveal_strlit("  ");
    reveal_strlit("Unlogged");
    lemma_ascii("  "@);
    lemma_ascii("Unlogged"@);
    lemma_duration(gap.ended_at - gap.started_at);
    let sep = "  "@;
    lemma_concat(label, sep);
    lemma_concat(label + sep, "Unlogged"@);
    lemma_concat(label + sep + "Unlogged"@, sep);
    lemma_concat(label + sep + "Unlogged"@ + sep, duration_text(gap.ended_at - gap.started_at));
}

proof fn lemma_rows(
    entries: Seq<EntryView>,
    entry_labels: Seq<Seq<char>>,
    gaps: Seq<Gap>,
    gap_labels: Seq<Seq<char>>,
    multi_day: bool,
    keys: Seq<Key>,
)
    requires
        labels_fit_entries(entry_labels, entries, multi_day),
        labels_fit_gaps(gap_labels, gaps, multi_day),
        forall|k: int| 0 <= k < keys.len() ==> (#[trigger] keys[k]).2 < entries.len() + gaps.len(),
    ensures
        plain_lines(row_lines(TextStyles { ansi: false }, entries, entry_labels, gaps, gap_labels, keys)),
    decreases keys.len(),
{
    let styles = TextStyles { ansi: false };
    if keys.len() > 0 {
        let rest = keys.drop_last();
        assert forall|k: int| 0 <= k < rest.len() implies (#[trigger] rest[k]).2 < entries.len()
            + gaps.len() by {
            assert(rest[k] == keys[k]);
        }
        lemma_rows(entries, entry_labels, gaps, gap_labels, multi_day, rest);
        let index = keys.last().2 as int;
        assert(keys.last() == keys[keys.len() - 1]);
        if index < entries.len() {
            lemma_period(
                entry_labels[index],
                entries[index].started_at as int,
                entries[index].ended_at as int,
                multi_day,
            );
            lemma_entry_row(entries[index], entry_labels[index]);
        } else {
            let g = index - entries.len();
            lemma_period(gap_labels[g], gaps[g].started_at as int, gaps[g].ended_at as int, multi_day);
            lemma_gap_row(gaps[g], gap_labels[g]);
        }
        let line = row_text(styles, entries, entry_labels, gaps, gap_labels, index);
        lemma_plain_lines(line);
        reveal_strlit("\n");
        assert(plain_lines("\n"@));
        let before = row_lines(styles, entries, entry_labels, gaps, gap_labels, rest);
        lemma_concat_lines(before, "\n"@);
        lemma_concat_lines(before + "\n"@, line);
    }
}

/// Without ANSI styling, the workflow text has no control or bidirectional
/// formatting character except its line breaks, for any application ids and
/// titles: they are shown escaped, and labels, dates and durations are made
/// of digits, punctuation and fixed words.
pub proof fn law_plain_workflow_is_terminal_safe(
    range: TimeRange,
    entries: Seq<EntryView>,
    entry_labels: Seq<Seq<char>>,
    gaps: Seq<Gap>,
    gap_labels: Seq<Seq<char>>,
)
    requires
        labels_fit_entries(entry_labels, entries, range.since != range.until),
        labels_fit_gaps(gap_labels, gaps, range.since != range.until),
        entries.len() + gaps.len() <= usize::MAX,
    ensures
        plain_lines(
            workflow_text(TextStyles { ansi: false }, range, entries, entry_labels, gaps, gap_labels),
        ),
{
    let styles = TextStyles { ansi: false };
    let all = crate::workflow::timeline_keys(entries, gaps);
    assert forall|k: int| 0 <= k < all.len() implies (#[trigger] all[k]).2 < entries.len()
        + gaps.len() by {
    }
    crate::workflow::lemma_sorted_keys_in_range(all, (entries.len() + gaps.len()) as int);
    let keys = crate::workflow::sorted_keys(all);
    lemma_rows(entries, entry_labels, gaps, gap_labels, range.since != range.until, keys);
    lemma_heading(range);
    lemma_plain_lines(workflow_heading(range));
    reveal_strlit("\n");
    reveal_strlit("No completed active intervals.");
    lemma_ascii("No completed active intervals."@);
    let note = if entries.len() == 0 {
        "\n"@ + "No completed active intervals."@
    } else {
        Seq::<char>::empty()
    };
    assert(plain_lines(note)) by {
        assert forall|i: int| 0 <= i < note.len() implies #[trigger] note[i] == '\n' || terminal_safe(
            note[i],
        ) by {
            if entries.len() == 0 && i > 0 {
                assert(note[i] == "No completed active intervals."@[i - 1]);
            }
        }
    }
    lemma_concat_lines(workflow_heading(range), note);
    lemma_concat_lines(
        workflow_heading(range) + note,
        row_lines(styles, entries, entry_labels, gaps, gap_labels, keys),
    );
}

proof fn lemma_lit_lines(s: Seq<char>)
    requires
        forall|i: int| 0 <= i < s.len() ==> #[trigger] s[i] == '\n' || ' ' <= s[i] <= '~',
    ensures
        plain_lines(s),
{
    assert forall|i: int| 0 <= i < s.len() implies #[trigger] s[i] == '\n' || terminal_safe(s[i]) by {
        if s[i] != '\n' {
            assert(' ' <= s[i] <= '~');
        }
    }
}

proof fn lemma_summary(gaps: Seq<Gap>, verbose: bool, labels: Seq<Seq<char>>, multi_day: bool, k: nat)
    requires
        labels_fit_gaps(labels, gaps, multi_day),
        k <= gaps.len(),
    ensures
        plain_lines(gap_lines(TextStyles { ansi: false }, gaps, labels, k)),
    decreases k,
{
    if k > 0 {
        lemma_summary(gaps, verbose, labels, multi_day, (k - 1) as nat);
        let g = k - 1;
        lemma_period(labels[g], gaps[g].started_at as int, gaps[g].ended_at as int, multi_day);
        lemma_gap_row(gaps[g], labels[g]);
        lemma_plain_lines(gap_row_text(TextStyles { ansi: false }, gaps[g], labels[g]));
        reveal_strlit("\n  ");
        lemma_lit_lines("\n  "@);
        let before = gap_lines(TextStyles { ansi: false }, gaps, labels, (k - 1) as nat);
        lemma_concat_lines(before, "\n  "@);
        lemma_concat_lines(before + "\n  "@, gap_row_text(TextStyles { ansi: false }, gaps[g], labels[g]));
    }
}

proof fn lemma_title_lines(titles: Seq<(Option<Seq<char>>, i64)>, k: nat)
    requires
        k <= titles.len(),
    ensures
        plain_lines(title_lines(TextStyles { ansi: false }, titles, k)),
    decreases k,
{
    if k > 0 {
        lemma_title_lines(titles, (k - 1) as nat);
        let t = titles[k - 1];
        let last = k == titles.len();
        reveal_strlit("  ");
        reveal_strlit(" ");
        reveal_strlit("\n");
        reveal_strlit("\u{2514}\u{2500}");
        reveal_strlit("\u{251c}\u{2500}");
        lemma_ascii("  "@);
        lemma_ascii(" "@);
        assert(plain(branch_text(last)));
        lemma_title(t.0);
        lemma_duration(t.1 as int);
        lemma_concat("  "@, branch_text(last));
        lemma_concat("  "@ + branch_text(last), " "@);
        lemma_concat("  "@ + branch_text(last) + " "@, crate::text::title_label(t.0));
        lemma_concat("  "@ + branch_text(last) + " "@ + crate::text::title_label(t.0), "  "@);
        lemma_concat(
            "  "@ + branch_text(last) + " "@ + crate::text::title_label(t.0) + "  "@,
            duration_text(t.1 as int),
        );
        let line = title_line(TextStyles { ansi: false }, t, last);
        lemma_plain_lines(line);
        lemma_lit_lines("\n"@);
        let before = title_lines(TextStyles { ansi: false }, titles, (k - 1) as nat);
        lemma_concat_lines(before, "\n"@);
        lemma_concat_lines(before + "\n"@, line);
    }
}

proof fn lemma_app_blocks(apps: Seq<AppView>, tree: bool, k: nat)
    requires
        k <= apps.len(),
    ensures
        plain_lines(app_blocks(TextStyles { ansi: false }, apps, tree, k)),
    decreases k,
{
    if k > 0 {
        lemma_app_blocks(apps, tree, (k - 1) as nat);
        let app = apps[k - 1];
        reveal_strlit("  ");
        reveal_strlit("\n");
        lemma_ascii("  "@);
        law_escaped_text_is_terminal_safe(app.app_id);
        lemma_duration(app.seconds as int);
        lemma_concat(escaped(app.app_id), "  "@);
        lemma_concat(escaped(app.app_id) + "  "@, duration_text(app.seconds as int));
        let head = escaped(app.app_id) + "  "@ + duration_text(app.seconds as int);
        lemma_plain_lines(head);
        lemma_title_lines(app.titles, app.titles.len() as nat);
        assert(plain_lines(Seq::<char>::empty()));
        let tail = if tree {
            title_lines(TextStyles { ansi: false }, app.titles, app.titles.len() as nat)
        } else {
            Seq::<char>::empty()
        };
        lemma_concat_lines(head, tail);
        lemma_lit_lines("\n"@);
        let before = app_blocks(TextStyles { ansi: false }, apps, tree, (k - 1) as nat);
        lemma_concat_lines(before, "\n"@);
        lemma_concat_lines(before + "\n"@, app_block(TextStyles { ansi: false }, app, tree));
    }
}

proof fn lemma_report_heading(range: TimeRange, total: int, elapsed: int)
    ensures
        plain(report_heading(range, total, elapsed)),
{
    reveal_strlit("Usage report for ");
    reveal_strlit("Usage report from ");
    reveal_strlit(" through ");
    reveal_strlit(" (");
    reveal_strlit("/");
    reveal_strlit(")");
    lemma_ascii("Usage report for "@);
    lemma_ascii("Usage report from "@);
    lemma_ascii(" through "@);
    lemma_ascii(" ("@);
    lemma_ascii("/"@);
    lemma_ascii(")"@);
    lemma_date_shown(range.since);
    lemma_date_shown(range.until);
    lemma_duration(total);
    lemma_duration(elapsed);
    let times = " ("@ + duration_text(total) + "/"@ + duration_text(elapsed) + ")"@;
    lemma_concat(" ("@, duration_text(total));
    lemma_concat(" ("@ + duration_text(total), "/"@);
    lemma_concat(" ("@ + duration_text(total) + "/"@, duration_text(elapsed));
    lemma_concat(" ("@ + duration_text(total) + "/"@ + duration_text(elapsed), ")"@);
    lemma_concat("Usage report for "@, date_shown(range.since));
    lemma_concat("Usage report for "@ + date_shown(range.since), times);
    assert("Usage report for "@ + date_shown(range.since) + times =~= "Usage report for "@
        + date_shown(range.since) + " ("@ + duration_text(total) + "/"@ + duration_text(elapsed)
        + ")"@);
    lemma_concat("Usage report from "@, date_shown(range.since));
    lemma_concat("Usage report from "@ + date_shown(range.since), " through "@);
    lemma_concat("Usage report from "@ + date_shown(range.since) + " through "@, date_shown(range.until));
    lemma_concat(
        "Usage report from "@ + date_shown(range.since) + " through "@ + date_shown(range.until),
        times,
    );
    assert("Usage report from "@ + date_shown(range.since) + " through "@ + date_shown(range.until)
        + times =~= "Usage report from "@ + date_shown(range.since) + " through "@ + date_shown(
        range.until,
    ) + " ("@ + duration_text(total) + "/"@ + duration_text(elapsed) + ")"@);
}

/// Without ANSI styling, the usage report has no control or bidirectional
/// formatting character except its line breaks, for any application ids and
/// titles.
pub proof fn law_plain_report_is_terminal_safe(
    range: TimeRange,
    now: i64,
    apps: Seq<AppView>,
    tree: bool,
    gaps: Seq<Gap>,
    verbose: bool,
    labels: Seq<Seq<char>>,
)
    requires
        labels_fit_gaps(labels, gaps, range.since != range.until),
    ensures
        plain_lines(
            report_text(
                TextStyles { ansi: false },
                range,
                now,
                apps,
                tree,
                summary_text(TextStyles { ansi: false }, gaps, verbose, labels),
            ),
        ),
{
    let styles = TextStyles { ansi: false };
    reveal_strlit("Unlogged: ");
    reveal_strlit("\n");
    reveal_strlit("No completed active intervals.");
    lemma_ascii("Unlogged: "@);
    lemma_duration(total_length(gaps));
    lemma_concat("Unlogged: "@, duration_text(total_length(gaps)));
    lemma_plain_lines("Unlogged: "@ + duration_text(total_length(gaps)));
    lemma_summary(gaps, verbose, labels, range.since != range.until, gaps.len() as nat);
    assert(plain_lines(Seq::<char>::empty()));
    let more = if verbose {
        gap_lines(styles, gaps, labels, gaps.len() as nat)
    } else {
        Seq::<char>::empty()
    };
    lemma_concat_lines("Unlogged: "@ + duration_text(total_length(gaps)), more);
    let summary = summary_text(styles, gaps, verbose, labels);
    let heading = report_heading(
        range,
        crate::report::usage_total(apps, apps.len() as nat),
        crate::time::elapsed_seconds(range.start as int, range.end as int, now as int),
    );
    lemma_report_heading(
        range,
        crate::report::usage_total(apps, apps.len() as nat),
        crate::time::elapsed_seconds(range.start as int, range.end as int, now as int),
    );
    lemma_plain_lines(heading);
    lemma_lit_lines("\n"@);
    lemma_concat_lines(heading, "\n"@);
    lemma_concat_lines(heading + "\n"@, summary);
    lemma_ascii("No completed active intervals."@);
    lemma_plain_lines("No completed active intervals."@);
    lemma_concat_lines("\n"@, "No completed active intervals."@);
    lemma_app_blocks(apps, tree, apps.len() as nat);
    let rest = if apps.len() == 0 {
        "\n"@ + "No completed active intervals."@
    } else {
        app_blocks(styles, apps, tree, apps.len() as nat)
    };
    lemma_concat_lines(heading + "\n"@ + summary, rest);
}

} // verus!
