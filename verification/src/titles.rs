//! Title grouping: the rules that decide which window titles count as the
//! same title in reports, and a step-by-step trace of how they apply.
//!
//! A title is first normalized universally (see `unicode`), then every rule
//! whose application pattern matches the application id rewrites it, in rule
//! order, with its replacements in order.

use vstd::prelude::*;
use crate::unicode::{normalize_universal_title, universal_title};
use crate::text::{digits, push_unsigned, quote_terminal, quoted_terminal};

verus! {

/// `regex::Regex::new(pattern)` succeeds.
pub uninterp spec fn regex_valid(pattern: Seq<char>) -> bool;

/// `Regex::is_match(text)` for the regex compiled from `pattern`.
pub uninterp spec fn regex_match(pattern: Seq<char>, text: Seq<char>) -> bool;

/// `Regex::replace_all(text, replacement)` for the regex compiled from
/// `pattern`, where the replacement may refer to capture groups (`$1`,
/// `${name}`).
pub uninterp spec fn regex_replace_all(pattern: Seq<char>, text: Seq<char>, replacement: Seq<char>) -> Seq<char>;

/// Compiles `pattern` with `regex::Regex::new` and reports its error text
/// when it does not compile. The error text is the regex crate's message and
/// nothing is claimed of it.
#[verifier::external_body]
fn regex_compile_error(pattern: &str) -> (error: Option<String>)
    ensures
        error is None <==> regex_valid(pattern@),
{
    match regex::Regex::new(pattern) {
        Ok(_) => None,
        Err(e) => Some(e.to_string()),
    }
}

/// Compiles `pattern` and tests it against `text` with `Regex::is_match`;
/// nothing when the pattern does not compile.
#[verifier::external_body]
fn regex_is_match(pattern: &str, text: &str) -> (matched: Option<bool>)
    ensures
        matched is Some <==> regex_valid(pattern@),
        matched matches Some(m) ==> m == regex_match(pattern@, text@),
{
    match regex::Regex::new(pattern) {
        Ok(re) => Some(re.is_match(text)),
        Err(_) => None,
    }
}

/// Compiles `pattern` and rewrites `text` with `Regex::replace_all`;
/// nothing when the pattern does not compile.
#[verifier::external_body]
fn regex_replace(pattern: &str, text: &str, replacement: &str) -> (replaced: Option<String>)
    ensures
        replaced is Some <==> regex_valid(pattern@),
        replaced matches Some(r) ==> r@ == regex_replace_all(pattern@, text@, replacement@),
{
    match regex::Regex::new(pattern) {
        Ok(re) => Some(re.replace_all(text, replacement).into_owned()),
        Err(_) => None,
    }
}

/// One rewrite of a title: a regex pattern and its replacement text.
#[derive(Debug)]
pub struct TitleReplacement {
    pub pattern: String,
    pub replacement: String,
}

/// The rewrites for the applications whose id matches `app_match`.
#[derive(Debug)]
pub struct AppRule {
    pub app_match: String,
    pub replacements: Vec<TitleReplacement>,
}

/// What a rule says, as text.
pub struct RuleSpec {
    pub app_match: Seq<char>,
    pub replacements: Seq<(Seq<char>, Seq<char>)>,
}

impl View for TitleReplacement {
    type V = (Seq<char>, Seq<char>);

    open spec fn view(&self) -> (Seq<char>, Seq<char>) {
        (self.pattern@, self.replacement@)
    }
}

impl View for AppRule {
    type V = RuleSpec;

    open spec fn view(&self) -> RuleSpec {
        RuleSpec {
            app_match: self.app_match@,
            replacements: self.replacements@.map_values(|r: TitleReplacement| r@),
        }
    }
}

/// The ordered title-grouping rules.
pub struct TitleGroupingConfig {
    apps: Vec<AppRule>,
}

impl View for TitleGroupingConfig {
    type V = Seq<RuleSpec>;

    closed spec fn view(&self) -> Seq<RuleSpec> {
        self.apps@.map_values(|r: AppRule| r@)
    }
}

/// A replacement rewrites the title when its pattern compiles; a pattern
/// that does not compile leaves it unchanged.
pub open spec fn replaced(title: Seq<char>, rep: (Seq<char>, Seq<char>)) -> Seq<char> {
    if regex_valid(rep.0) {
        regex_replace_all(rep.0, title, rep.1)
    } else {
        title
    }
}

/// The replacements applied one after another, first to last.
pub open spec fn run_replacements(title: Seq<char>, reps: Seq<(Seq<char>, Seq<char>)>) -> Seq<char>
    decreases reps.len(),
{
    if reps.len() == 0 {
        title
    } else {
        run_replacements(replaced(title, reps[0]), reps.drop_first())
    }
}

/// A rule applies to an application whose id its pattern matches.
pub open spec fn rule_applies(rule: RuleSpec, app_id: Seq<char>) -> bool {
    regex_valid(rule.app_match) && regex_match(rule.app_match, app_id)
}

/// One rule applied to a title.
pub open spec fn run_rule(title: Seq<char>, app_id: Seq<char>, rule: RuleSpec) -> Seq<char> {
    if rule_applies(rule, app_id) {
        run_replacements(title, rule.replacements)
    } else {
        title
    }
}

/// The rules applied one after another, first to last.
pub open spec fn run_rules(title: Seq<char>, app_id: Seq<char>, rules: Seq<RuleSpec>) -> Seq<char>
    decreases rules.len(),
{
    if rules.len() == 0 {
        title
    } else {
        run_rules(run_rule(title, app_id, rules[0]), app_id, rules.drop_first())
    }
}

/// The grouping key of a title: its universal normalization rewritten by
/// every rule that applies to the application.
pub open spec fn normalized_title(rules: Seq<RuleSpec>, app_id: Seq<char>, title: Seq<char>) -> Seq<char> {
    run_rules(universal_title(title), app_id, rules)
}

fn apply_replacements(current: String, replacements: &Vec<TitleReplacement>) -> (out: String)
    ensures
        out@ == run_replacements(current@, replacements@.map_values(|r: TitleReplacement| r@)),
{
    let ghost reps = replacements@.map_values(|r: TitleReplacement| r@);
    let ghost start = current@;
    let mut current = current;
    let mut j: usize = 0;
    assert(reps.skip(0) =~= reps);
    while j < replacements.len()
        invariant
            j <= replacements@.len(),
            reps == replacements@.map_values(|r: TitleReplacement| r@),
            run_replacements(current@, reps.skip(j as int)) == run_replacements(start, reps),
        decreases replacements@.len() - j,
    {
        let rep = &replacements[j];
        proof {
            assert(reps.skip(j as int)[0] == rep@);
            assert(reps.skip(j as int).drop_first() =~= reps.skip(j + 1));
        }
        match regex_replace(rep.pattern.as_str(), current.as_str(), rep.replacement.as_str()) {
            Some(next) => {
                current = next;
            },
            None => {},
        }
        j = j + 1;
    }
    proof {
        assert(reps.skip(reps.len() as int) =~= Seq::<(Seq<char>, Seq<char>)>::empty());
    }
    current
}

fn rule_matches(rule: &AppRule, app_id: &str) -> (matched: bool)
    ensures
        matched == rule_applies(rule@, app_id@),
{
    match regex_is_match(rule.app_match.as_str(), app_id) {
        Some(m) => m,
        None => false,
    }
}

impl TitleGroupingConfig {
    /// The grouping key of a title for an application.
    pub fn normalize_title(&self, app_id: &str, title: &str) -> (out: String)
        ensures
            out@ == normalized_title(self@, app_id@, title@),
    {
        let ghost rules = self@;
        let ghost start = universal_title(title@);
        let mut current = normalize_universal_title(title);
        let mut i: usize = 0;
        assert(rules.skip(0) =~= rules);
        while i < self.apps.len()
            invariant
                i <= self.apps@.len(),
                rules == self@,
                run_rules(current@, app_id@, rules.skip(i as int)) == run_rules(start, app_id@, rules),
            decreases self.apps@.len() - i,
        {
            let app = &self.apps[i];
            proof {
                assert(rules.skip(i as int)[0] == app@);
                assert(rules.skip(i as int).drop_first() =~= rules.skip(i + 1));
            }
            if rule_matches(app, app_id) {
                current = apply_replacements(current, &app.replacements);
            }
            i = i + 1;
        }
        proof {
            assert(rules.skip(rules.len() as int) =~= Seq::<RuleSpec>::empty());
        }
        current
    }
}

/// One replacement as it ran: its pattern and replacement, and the title
/// before and after it.
#[derive(Debug, PartialEq, Eq)]
pub struct ReplacementTrace {
    pub pattern: String,
    pub replacement: String,
    pub input: String,
    pub output: String,
}

/// One rule as it ran: whether it applied, and its replacements if it did.
#[derive(Debug, PartialEq, Eq)]
pub struct AppRuleTrace {
    pub app_match: String,
    pub matched: bool,
    pub replacements: Vec<ReplacementTrace>,
}

/// The full run of the normalization pipeline on one title.
#[derive(Debug, PartialEq, Eq)]
pub struct TitleGroupingTrace {
    pub input: String,
    pub universally_normalized: String,
    pub rules: Vec<AppRuleTrace>,
    pub result: String,
}

pub struct StepView {
    pub pattern: Seq<char>,
    pub replacement: Seq<char>,
    pub input: Seq<char>,
    pub output: Seq<char>,
}

pub struct RuleTraceView {
    pub app_match: Seq<char>,
    pub matched: bool,
    pub replacements: Seq<StepView>,
}

pub struct TraceView {
    pub input: Seq<char>,
    pub universal: Seq<char>,
    pub rules: Seq<RuleTraceView>,
    pub result: Seq<char>,
}

impl View for ReplacementTrace {
    type V = StepView;

    open spec fn view(&self) -> StepView {
        StepView {
            pattern: self.pattern@,
            replacement: self.replacement@,
            input: self.input@,
            output: self.output@,
        }
    }
}

impl View for AppRuleTrace {
    type V = RuleTraceView;

    open spec fn view(&self) -> RuleTraceView {
        RuleTraceView {
            app_match: self.app_match@,
            matched: self.matched,
            replacements: self.replacements@.map_values(|r: ReplacementTrace| r@),
        }
    }
}

impl View for TitleGroupingTrace {
    type V = TraceView;

    open spec fn view(&self) -> TraceView {
        TraceView {
            input: self.input@,
            universal: self.universally_normalized@,
            rules: self.rules@.map_values(|r: AppRuleTrace| r@),
            result: self.result@,
        }
    }
}

/// The steps of running the replacements on a title, each fed the previous
/// step's output.
pub open spec fn trace_replacements(title: Seq<char>, reps: Seq<(Seq<char>, Seq<char>)>) -> Seq<StepView>
    decreases reps.len(),
{
    if reps.len() == 0 {
        Seq::empty()
    } else {
        let out = replaced(title, reps[0]);
        seq![StepView { pattern: reps[0].0, replacement: reps[0].1, input: title, output: out }]
            + trace_replacements(out, reps.drop_first())
    }
}

/// How one rule ran on a title.
pub open spec fn trace_rule(title: Seq<char>, app_id: Seq<char>, rule: RuleSpec) -> RuleTraceView {
    let matched = rule_applies(rule, app_id);
    RuleTraceView {
        app_match: rule.app_match,
        matched,
        replacements: if matched {
            trace_replacements(title, rule.replacements)
        } else {
            Seq::empty()
        },
    }
}

/// How the rules ran, each on the title the previous ones left.
pub open spec fn trace_rules(title: Seq<char>, app_id: Seq<char>, rules: Seq<RuleSpec>) -> Seq<RuleTraceView>
    decreases rules.len(),
{
    if rules.len() == 0 {
        Seq::empty()
    } else {
        seq![trace_rule(title, app_id, rules[0])] + trace_rules(
            run_rule(title, app_id, rules[0]),
            app_id,
            rules.drop_first(),
        )
    }
}

/// The trace of normalizing `title` for `app_id`.
pub open spec fn title_trace(rules: Seq<RuleSpec>, app_id: Seq<char>, title: Seq<char>) -> TraceView {
    let universal = universal_title(title);
    TraceView {
        input: title,
        universal,
        rules: trace_rules(universal, app_id, rules),
        result: run_rules(universal, app_id, rules),
    }
}

fn trace_replacements_exec(current: String, replacements: &Vec<TitleReplacement>) -> (out: (String, Vec<ReplacementTrace>))
    ensures
        out.0@ == run_replacements(current@, replacements@.map_values(|r: TitleReplacement| r@)),
        out.1@.map_values(|r: ReplacementTrace| r@) == trace_replacements(
            current@,
            replacements@.map_values(|r: TitleReplacement| r@),
        ),
{
    let ghost reps = replacements@.map_values(|r: TitleReplacement| r@);
    let ghost start = current@;
    let mut current = current;
    let mut steps: Vec<ReplacementTrace> = Vec::new();
    let mut j: usize = 0;
    assert(reps.skip(0) =~= reps);
    assert(steps@.map_values(|r: ReplacementTrace| r@) + trace_replacements(start, reps) =~= trace_replacements(start, reps));
    while j < replacements.len()
        invariant
            j <= replacements@.len(),
            reps == replacements@.map_values(|r: TitleReplacement| r@),
            run_replacements(current@, reps.skip(j as int)) == run_replacements(start, reps),
            steps@.map_values(|r: ReplacementTrace| r@) + trace_replacements(current@, reps.skip(j as int))
                == trace_replacements(start, reps),
        decreases replacements@.len() - j,
    {
        let rep = &replacements[j];
        let ghost old_steps = steps@;
        let ghost rest = reps.skip(j as int);
        proof {
            assert(rest[0] == rep@);
            assert(rest.drop_first() =~= reps.skip(j + 1));
        }
        let input = current.clone();
        let output = match regex_replace(rep.pattern.as_str(), current.as_str(), rep.replacement.as_str()) {
            Some(next) => next,
            None => current,
        };
        current = output.clone();
        steps.push(ReplacementTrace {
            pattern: rep.pattern.clone(),
            replacement: rep.replacement.clone(),
            input,
            output,
        });
        proof {
            let step = StepView { pattern: rep@.0, replacement: rep@.1, input: input@, output: current@ };
            assert(steps@.map_values(|r: ReplacementTrace| r@) =~= old_steps.map_values(|r: ReplacementTrace| r@).push(step));
            assert(trace_replacements(input@, rest) =~= seq![step] + trace_replacements(current@, reps.skip(j + 1)));
            assert(steps@.map_values(|r: ReplacementTrace| r@) + trace_replacements(current@, reps.skip(j + 1))
                =~= old_steps.map_values(|r: ReplacementTrace| r@) + trace_replacements(input@, rest));
        }
        j = j + 1;
    }
    proof {
        assert(reps.skip(reps.len() as int) =~= Seq::<(Seq<char>, Seq<char>)>::empty());
        assert(steps@.map_values(|r: ReplacementTrace| r@) + trace_replacements(current@, reps.skip(j as int))
            =~= steps@.map_values(|r: ReplacementTrace| r@));
    }
    (current, steps)
}

impl TitleGroupingConfig {
    /// Runs the normalization pipeline on a title and records every step.
    pub fn trace_title(&self, app_id: &str, title: &str) -> (trace: TitleGroupingTrace)
        ensures
            trace@ == title_trace(self@, app_id@, title@),
    {
        let ghost rules = self@;
        let universally_normalized = normalize_universal_title(title);
        let ghost start = universally_normalized@;
        let mut current = universally_normalized.clone();
        let mut traced: Vec<AppRuleTrace> = Vec::new();
        let mut i: usize = 0;
        assert(rules.skip(0) =~= rules);
        assert(traced@.map_values(|r: AppRuleTrace| r@) + trace_rules(start, app_id@, rules) =~= trace_rules(start, app_id@, rules));
        while i < self.apps.len()
            invariant
                i <= self.apps@.len(),
                rules == self@,
                run_rules(current@, app_id@, rules.skip(i as int)) == run_rules(start, app_id@, rules),
                traced@.map_values(|r: AppRuleTrace| r@) + trace_rules(current@, app_id@, rules.skip(i as int))
                    == trace_rules(start, app_id@, rules),
            decreases self.apps@.len() - i,
        {
            let app = &self.apps[i];
            let ghost old_traced = traced@;
            let ghost rest = rules.skip(i as int);
            let ghost before = current@;
            proof {
                assert(rest[0] == app@);
                assert(rest.drop_first() =~= rules.skip(i + 1));
            }
            let matched = rule_matches(app, app_id);
            let replacements = if matched {
                let (next, steps) = trace_replacements_exec(current, &app.replacements);
                current = next;
                steps
            } else {
                Vec::new()
            };
            traced.push(AppRuleTrace { app_match: app.app_match.clone(), matched, replacements });
            proof {
                let rule_view = trace_rule(before, app_id@, app@);
                assert(traced@.last()@.replacements =~= rule_view.replacements);
                assert(traced@.map_values(|r: AppRuleTrace| r@) =~= old_traced.map_values(|r: AppRuleTrace| r@).push(rule_view));
                assert(trace_rules(before, app_id@, rest) =~= seq![rule_view] + trace_rules(current@, app_id@, rules.skip(i + 1)));
                assert(traced@.map_values(|r: AppRuleTrace| r@) + trace_rules(current@, app_id@, rules.skip(i + 1))
                    =~= old_traced.map_values(|r: AppRuleTrace| r@) + trace_rules(before, app_id@, rest));
            }
            i = i + 1;
        }
        proof {
            assert(rules.skip(rules.len() as int) =~= Seq::<RuleSpec>::empty());
            assert(traced@.map_values(|r: AppRuleTrace| r@) + trace_rules(current@, app_id@, rules.skip(i as int))
                =~= traced@.map_values(|r: AppRuleTrace| r@));
        }
        TitleGroupingTrace {
            input: title.to_owned(),
            universally_normalized,
            rules: traced,
            result: current,
        }
    }
}

/// The value a title has after a list of traced steps: the last step's
/// output, or the starting value when no step ran.
pub open spec fn steps_final(start: Seq<char>, steps: Seq<StepView>) -> Seq<char> {
    if steps.len() == 0 {
        start
    } else {
        steps.last().output
    }
}

/// The value a title has after traced rules, rule by rule.
pub open spec fn traced_final(start: Seq<char>, rules: Seq<RuleTraceView>) -> Seq<char>
    decreases rules.len(),
{
    if rules.len() == 0 {
        start
    } else {
        traced_final(steps_final(start, rules[0].replacements), rules.drop_first())
    }
}

/// Each step starts from the value the previous step produced, the first
/// from `start`.
pub open spec fn steps_chained(start: Seq<char>, steps: Seq<StepView>) -> bool
    decreases steps.len(),
{
    steps.len() == 0 || (steps[0].input == start && steps_chained(steps[0].output, steps.drop_first()))
}

/// Every rule's steps continue from where the previous rules left the title,
/// and rules that did not apply ran no step.
pub open spec fn rules_chained(start: Seq<char>, rules: Seq<RuleTraceView>) -> bool
    decreases rules.len(),
{
    rules.len() == 0 || ((rules[0].matched || rules[0].replacements.len() == 0) && steps_chained(
        start,
        rules[0].replacements,
    ) && rules_chained(steps_final(start, rules[0].replacements), rules.drop_first()))
}

proof fn lemma_steps_final(title: Seq<char>, reps: Seq<(Seq<char>, Seq<char>)>)
    ensures
        steps_final(title, trace_replacements(title, reps)) == run_replacements(title, reps),
        steps_chained(title, trace_replacements(title, reps)),
    decreases reps.len(),
{
    if reps.len() > 0 {
        let out = replaced(title, reps[0]);
        lemma_steps_final(out, reps.drop_first());
        let rest = trace_replacements(out, reps.drop_first());
        let steps = trace_replacements(title, reps);
        assert(steps.drop_first() =~= rest);
        if rest.len() > 0 {
            assert(steps.last() == rest.last());
        }
    }
}

proof fn lemma_traced_final(title: Seq<char>, app_id: Seq<char>, rules: Seq<RuleSpec>)
    ensures
        traced_final(title, trace_rules(title, app_id, rules)) == run_rules(title, app_id, rules),
        rules_chained(title, trace_rules(title, app_id, rules)),
    decreases rules.len(),
{
    if rules.len() > 0 {
        let traced = trace_rules(title, app_id, rules);
        let next = run_rule(title, app_id, rules[0]);
        lemma_traced_final(next, app_id, rules.drop_first());
        assert(traced.drop_first() =~= trace_rules(next, app_id, rules.drop_first()));
        if rule_applies(rules[0], app_id) {
            lemma_steps_final(title, rules[0].replacements);
        }
    }
}

/// Law: a trace tells the whole story of a normalization. Every step starts
/// from the previous step's result (the first from the universal form), rules
/// that did not apply ran no step, and the trace's final title, which is
/// `normalize_title`'s result, is the output of the last step shown (the
/// universal form when no step ran).
pub proof fn law_trace_matches_normalization(rules: Seq<RuleSpec>, app_id: Seq<char>, title: Seq<char>)
    ensures
        ({
            let trace = title_trace(rules, app_id, title);
            &&& trace.result == normalized_title(rules, app_id, title)
            &&& rules_chained(trace.universal, trace.rules)
            &&& traced_final(trace.universal, trace.rules) == trace.result
        }),
{
    lemma_traced_final(universal_title(title), app_id, rules);
}

/// A value shown in a trace: terminal-escaped, in double quotes.
pub open spec fn shown(value: Seq<char>) -> Seq<char> {
    quoted_terminal(value, '"')
}

/// The lines describing one replacement step, numbered `number`.
pub open spec fn step_text(number: nat, step: StepView) -> Seq<char> {
    "  Replacement "@ + digits(number) + ": pattern "@ + shown(step.pattern) + " -> "@ + shown(
        step.replacement,
    ) + "\n    "@ + shown(step.input) + " -> "@ + shown(step.output) + if step.input == step.output {
        " (unchanged)\n"@
    } else {
        " (changed)\n"@
    }
}

/// The lines describing a rule's steps, numbered from one.
pub open spec fn steps_text(steps: Seq<StepView>) -> Seq<char>
    decreases steps.len(),
{
    if steps.len() == 0 {
        Seq::empty()
    } else {
        steps_text(steps.drop_last()) + step_text(steps.len(), steps.last())
    }
}

/// The lines describing one rule, numbered `number`.
pub open spec fn rule_text(number: nat, rule: RuleTraceView) -> Seq<char> {
    if rule.matched {
        "Rule "@ + digits(number) + ": matched (match: "@ + shown(rule.app_match) + ")\n"@
            + steps_text(rule.replacements)
    } else {
        "Rule "@ + digits(number) + ": skipped (match: "@ + shown(rule.app_match) + ")\n"@
    }
}

/// The lines describing the rules, numbered from one.
pub open spec fn rules_text(rules: Seq<RuleTraceView>) -> Seq<char>
    decreases rules.len(),
{
    if rules.len() == 0 {
        Seq::empty()
    } else {
        rules_text(rules.drop_last()) + rule_text(rules.len(), rules.last())
    }
}

/// The human-readable report of a trace.
pub open spec fn trace_text(app_id: Seq<char>, trace: TraceView) -> Seq<char> {
    "Title grouping trace\nApplication: "@ + shown(app_id) + "\nInput: "@ + shown(trace.input)
        + "\nUniversal normalization: "@ + shown(trace.input) + " -> "@ + shown(trace.universal)
        + "\n"@ + rules_text(trace.rules) + "Final title: "@ + shown(trace.result)
}

fn display_title(value: &str) -> (out: String)
    ensures
        out@ == shown(value@),
{
    quote_terminal(value, '"')
}

fn push_step(out: &mut String, number: u64, step: &ReplacementTrace)
    ensures
        final(out)@ == old(out)@ + step_text(number as nat, step@),
{
    out.append("  Replacement ");
    push_unsigned(out, number);
    out.append(": pattern ");
    out.append(display_title(step.pattern.as_str()).as_str());
    out.append(" -> ");
    out.append(display_title(step.replacement.as_str()).as_str());
    out.append("\n    ");
    out.append(display_title(step.input.as_str()).as_str());
    out.append(" -> ");
    out.append(display_title(step.output.as_str()).as_str());
    if step.input == step.output {
        out.append(" (unchanged)\n");
    } else {
        out.append(" (changed)\n");
    }
    assert(final(out)@ =~= old(out)@ + step_text(number as nat, step@));
}

fn push_rule(out: &mut String, number: u64, rule: &AppRuleTrace)
    ensures
        final(out)@ == old(out)@ + rule_text(number as nat, rule@),
{
    let ghost start = out@;
    out.append("Rule ");
    push_unsigned(out, number);
    if !rule.matched {
        out.append(": skipped (match: ");
        out.append(display_title(rule.app_match.as_str()).as_str());
        out.append(")\n");
        assert(out@ =~= start + rule_text(number as nat, rule@));
        return;
    }
    out.append(": matched (match: ");
    out.append(display_title(rule.app_match.as_str()).as_str());
    out.append(")\n");
    let ghost head = out@;
    let ghost steps = rule.replacements@.map_values(|r: ReplacementTrace| r@);
    let mut j: usize = 0;
    while j < rule.replacements.len()
        invariant
            j <= rule.replacements@.len(),
            steps == rule.replacements@.map_values(|r: ReplacementTrace| r@),
            out@ == head + steps_text(steps.take(j as int)),
        decreases rule.replacements@.len() - j,
    {
        push_step(out, (j + 1) as u64, &rule.replacements[j]);
        proof {
            assert(steps.take(j + 1).drop_last() =~= steps.take(j as int));
            assert(out@ =~= head + steps_text(steps.take(j + 1)));
        }
        j = j + 1;
    }
    proof {
        assert(steps.take(steps.len() as int) =~= steps);
        assert(out@ =~= start + rule_text(number as nat, rule@));
    }
}

/// Renders a trace for the `title-test` command.
pub fn format_title_trace(app_id: &str, trace: &TitleGroupingTrace) -> (output: String)
    ensures
        output@ == trace_text(app_id@, trace@),
{
    let mut out = String::new();
    out.append("Title grouping trace\nApplication: ");
    out.append(display_title(app_id).as_str());
    out.append("\nInput: ");
    out.append(display_title(trace.input.as_str()).as_str());
    out.append("\nUniversal normalization: ");
    out.append(display_title(trace.input.as_str()).as_str());
    out.append(" -> ");
    out.append(display_title(trace.universally_normalized.as_str()).as_str());
    out.append("\n");
    let ghost head = out@;
    let ghost rules = trace.rules@.map_values(|r: AppRuleTrace| r@);
    let mut i: usize = 0;
    while i < trace.rules.len()
        invariant
            i <= trace.rules@.len(),
            rules == trace.rules@.map_values(|r: AppRuleTrace| r@),
            out@ == head + rules_text(rules.take(i as int)),
        decreases trace.rules@.len() - i,
    {
        push_rule(&mut out, (i + 1) as u64, &trace.rules[i]);
        proof {
            assert(rules.take(i + 1).drop_last() =~= rules.take(i as int));
            assert(out@ =~= head + rules_text(rules.take(i + 1)));
        }
        i = i + 1;
    }
    proof {
        assert(rules.take(rules.len() as int) =~= rules);
    }
    out.append("Final title: ");
    out.append(display_title(trace.result.as_str()).as_str());
    assert(out@ =~= trace_text(app_id@, trace@));
    out
}

/// Why a set of configured rules is refused.
#[derive(Debug, PartialEq, Eq)]
pub enum ConfigError {
    /// The configuration declares a version other than 1.
    UnsupportedVersion(u32),
    /// The application pattern of rule `rule` (counted from zero) does not
    /// compile; `error` is the regex crate's message.
    InvalidAppMatch { rule: usize, pattern: String, error: String },
    /// Replacement `replacement` of rule `rule` has a pattern that does not
    /// compile.
    InvalidPattern { rule: usize, replacement: usize, pattern: String, error: String },
}

/// Every pattern of the rules compiles.
pub open spec fn patterns_valid(rules: Seq<RuleSpec>) -> bool {
    forall|i: int|
        0 <= i < rules.len() ==> regex_valid(#[trigger] rules[i].app_match) && forall|j: int|
            0 <= j < rules[i].replacements.len() ==> regex_valid(
                #[trigger] rules[i].replacements[j].0,
            )
}

/// The configuration version is 1, stated or implied.
pub open spec fn version_supported(version: Option<u32>) -> bool {
    version is None || version == Some(1u32)
}

fn check_replacements(replacements: &Vec<TitleReplacement>) -> (bad: Option<(usize, String)>)
    ensures
        match bad {
            None => forall|j: int| 0 <= j < replacements@.len() ==> regex_valid(#[trigger] replacements@[j].pattern@),
            Some((j, error)) => j < replacements@.len() && !regex_valid(replacements@[j as int].pattern@)
                && forall|k: int| 0 <= k < j ==> regex_valid(#[trigger] replacements@[k].pattern@),
        },
{
    let mut j: usize = 0;
    while j < replacements.len()
        invariant
            j <= replacements@.len(),
            forall|k: int| 0 <= k < j ==> regex_valid(#[trigger] replacements@[k].pattern@),
        decreases replacements@.len() - j,
    {
        match regex_compile_error(replacements[j].pattern.as_str()) {
            Some(error) => return Some((j, error)),
            None => {},
        }
        j = j + 1;
    }
    None
}

impl TitleGroupingConfig {
    /// The rules, in order.
    pub fn rules(&self) -> (rules: &Vec<AppRule>)
        ensures
            rules@.map_values(|r: AppRule| r@) == self@,
    {
        &self.apps
    }
}

impl TitleGroupingConfig {
    /// Accepts configured rules: the version must be 1 (or absent) and every
    /// pattern must compile. The first problem found, in rule order and
    /// within a rule the application pattern before the replacements, is
    /// reported.
    pub fn from_rules(version: Option<u32>, apps: Vec<AppRule>) -> (result: Result<TitleGroupingConfig, ConfigError>)
        ensures
            ({
                let rules = apps@.map_values(|r: AppRule| r@);
                &&& (result is Ok) <==> (version_supported(version) && patterns_valid(rules))
                &&& result matches Ok(config) ==> config@ == rules
                &&& result matches Err(ConfigError::UnsupportedVersion(v)) ==> version == Some(v) && v != 1
                &&& result matches Err(ConfigError::InvalidAppMatch { rule, pattern, error }) ==> {
                    &&& version_supported(version)
                    &&& rule < rules.len()
                    &&& pattern@ == rules[rule as int].app_match
                    &&& !regex_valid(pattern@)
                    &&& patterns_valid(rules.take(rule as int))
                }
                &&& result matches Err(ConfigError::InvalidPattern { rule, replacement, pattern, error }) ==> {
                    &&& version_supported(version)
                    &&& rule < rules.len()
                    &&& replacement < rules[rule as int].replacements.len()
                    &&& pattern@ == rules[rule as int].replacements[replacement as int].0
                    &&& !regex_valid(pattern@)
                    &&& patterns_valid(rules.take(rule as int))
                    &&& regex_valid(rules[rule as int].app_match)
                    &&& forall|k: int| 0 <= k < replacement ==> regex_valid(
                        #[trigger] rules[rule as int].replacements[k].0,
                    )
                }
            }),
    {
        let ghost rules = apps@.map_values(|r: AppRule| r@);
        match version {
            Some(v) => {
                if v != 1 {
                    return Err(ConfigError::UnsupportedVersion(v));
                }
            },
            None => {},
        }
        let mut i: usize = 0;
        assert(rules.take(0).len() == 0);
        while i < apps.len()
            invariant
                i <= apps@.len(),
                rules == apps@.map_values(|r: AppRule| r@),
                version_supported(version),
                patterns_valid(rules.take(i as int)),
            decreases apps@.len() - i,
        {
            let app = &apps[i];
            proof {
                assert(rules[i as int] == app@);
            }
            match regex_compile_error(app.app_match.as_str()) {
                Some(error) => {
                    proof {
                        assert(!regex_valid(rules[i as int].app_match));
                        assert(!patterns_valid(rules));
                    }
                    return Err(ConfigError::InvalidAppMatch { rule: i, pattern: app.app_match.clone(), error });
                },
                None => {},
            }
            match check_replacements(&app.replacements) {
                Some((j, error)) => {
                    proof {
                        assert(rules[i as int].replacements[j as int] == app.replacements@[j as int]@);
                        assert forall|k: int| 0 <= k < j implies regex_valid(
                            #[trigger] rules[i as int].replacements[k].0,
                        ) by {
                            assert(rules[i as int].replacements[k] == app.replacements@[k]@);
                        }
                        assert(!regex_valid(rules[i as int].replacements[j as int].0));
                        if patterns_valid(rules) {
                            let r = rules[i as int];
                            assert(regex_valid(rules[i as int].app_match));
                            assert(forall|b: int| 0 <= b < r.replacements.len() ==> regex_valid(
                                #[trigger] r.replacements[b].0,
                            ));
                            assert(regex_valid(r.replacements[j as int].0));
                        }
                    }
                    return Err(ConfigError::InvalidPattern {
                        rule: i,
                        replacement: j,
                        pattern: app.replacements[j].pattern.clone(),
                        error,
                    });
                },
                None => {},
            }
            proof {
                assert forall|a: int| 0 <= a < i + 1 implies regex_valid(#[trigger] rules.take(i + 1)[a].app_match)
                    && forall|b: int| 0 <= b < rules.take(i + 1)[a].replacements.len() ==> regex_valid(
                    #[trigger] rules.take(i + 1)[a].replacements[b].0,
                ) by {
                    if a < i {
                        assert(rules.take(i + 1)[a] == rules.take(i as int)[a]);
                    } else {
                        assert forall|b: int| 0 <= b < rules.take(i + 1)[a].replacements.len() implies regex_valid(
                            #[trigger] rules.take(i + 1)[a].replacements[b].0,
                        ) by {
                            assert(rules.take(i + 1)[a].replacements[b] == app.replacements@[b]@);
                        }
                    }
                }
            }
            i = i + 1;
        }
        proof {
            assert(rules.take(rules.len() as int) =~= rules);
        }
        Ok(TitleGroupingConfig { apps })
    }
}

/// The configuration file written on first run; its rules are
/// `built_in_rules`.
pub const DEFAULT_CONFIG: &'static str = r#"# rxtt title-grouping cleanup rules
# Every matching app block runs in file order. Its replacements also run in
# order. Add, remove, or change blocks to tailor title grouping to your apps.
version = 1

[[title_grouping.apps]]
match = "(?i)(firefox|chromium|chrome|brave)"
replacements = [
  { pattern = '^\*\s+', replacement = "" },
  { pattern = '^\(\d+\)\s+', replacement = "" },
  { pattern = '^\d+\s+·\s+', replacement = "" },
  { pattern = '\s+[—-]\s+\d+\s+(?:new messages?|новое сообщение|новых сообщения|новых сообщений)(\s+[—-]\s+.*)?$', replacement = "$1" },
]

[[title_grouping.apps]]
match = "(?i)telegram"
replacements = [
  { pattern = '^\(\d+\)\s+', replacement = "" },
  { pattern = '\s*[–—-]\s+\(\d+\)$', replacement = "" },
  { pattern = '\s+\(\d+\)$', replacement = "" },
]

[[title_grouping.apps]]
match = "(?i)(alacritty|kitty|wezterm|gnome-terminal|konsole|terminator|tilix|^foot$|^xterm$)"
replacements = [
  { pattern = '^[⠀-⣿]+\s*', replacement = "" },
  { pattern = '^\[\s*[!.⠀-⣿]+\s*\]\s*', replacement = "" },
]
"#;

/// The built-in cleanup rules: browser tab counters and message badges,
/// Telegram unread counters, and terminal spinner and status prefixes.
pub open spec fn built_in_rules() -> Seq<RuleSpec> {
    seq![
        RuleSpec {
            app_match: r"(?i)(firefox|chromium|chrome|brave)"@,
            replacements: seq![
                (r"^\*\s+"@, ""@),
                (r"^\(\d+\)\s+"@, ""@),
                (r"^\d+\s+·\s+"@, ""@),
                (r"\s+[—-]\s+\d+\s+(?:new messages?|новое сообщение|новых сообщения|новых сообщений)(\s+[—-]\s+.*)?$"@, r"$1"@),
            ],
        },
        RuleSpec {
            app_match: r"(?i)telegram"@,
            replacements: seq![
                (r"^\(\d+\)\s+"@, ""@),
                (r"\s*[–—-]\s+\(\d+\)$"@, ""@),
                (r"\s+\(\d+\)$"@, ""@),
            ],
        },
        RuleSpec {
            app_match: r"(?i)(alacritty|kitty|wezterm|gnome-terminal|konsole|terminator|tilix|^foot$|^xterm$)"@,
            replacements: seq![
                (r"^[⠀-⣿]+\s*"@, ""@),
                (r"^\[\s*[!.⠀-⣿]+\s*\]\s*"@, ""@),
            ],
        },
    ]
}

fn replacement(pattern: &str, with: &str) -> (rep: TitleReplacement)
    ensures
        rep@ == (pattern@, with@),
{
    TitleReplacement { pattern: pattern.to_owned(), replacement: with.to_owned() }
}

impl TitleGroupingConfig {
    /// The configuration with the built-in cleanup rules.
    pub fn built_in() -> (config: TitleGroupingConfig)
        ensures
            config@ =~~= built_in_rules(),
    {
        let mut browser: Vec<TitleReplacement> = Vec::new();
        browser.push(replacement(r"^\*\s+", ""));
        browser.push(replacement(r"^\(\d+\)\s+", ""));
        browser.push(replacement(r"^\d+\s+·\s+", ""));
        browser.push(replacement(
            r"\s+[—-]\s+\d+\s+(?:new messages?|новое сообщение|новых сообщения|новых сообщений)(\s+[—-]\s+.*)?$",
            r"$1",
        ));
        let mut telegram: Vec<TitleReplacement> = Vec::new();
        telegram.push(replacement(r"^\(\d+\)\s+", ""));
        telegram.push(replacement(r"\s*[–—-]\s+\(\d+\)$", ""));
        telegram.push(replacement(r"\s+\(\d+\)$", ""));
        let mut terminal: Vec<TitleReplacement> = Vec::new();
        terminal.push(replacement(r"^[⠀-⣿]+\s*", ""));
        terminal.push(replacement(r"^\[\s*[!.⠀-⣿]+\s*\]\s*", ""));
        let mut apps: Vec<AppRule> = Vec::new();
        apps.push(AppRule { app_match: r"(?i)(firefox|chromium|chrome|brave)".to_owned(), replacements: browser });
        apps.push(AppRule { app_match: r"(?i)telegram".to_owned(), replacements: telegram });
        apps.push(AppRule {
            app_match: r"(?i)(alacritty|kitty|wezterm|gnome-terminal|konsole|terminator|tilix|^foot$|^xterm$)".to_owned(),
            replacements: terminal,
        });
        let config = TitleGroupingConfig { apps };
        proof {
            let rules = config@;
            let expected = built_in_rules();
            assert(rules.len() == expected.len());
            assert(rules[0].replacements =~~= expected[0].replacements);
            assert(rules[1].replacements =~~= expected[1].replacements);
            assert(rules[2].replacements =~~= expected[2].replacements);
        }
        config
    }
}

} // verus!
